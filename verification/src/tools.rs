//! Drawing tools: picked points in, commands out.
//!
//! A drawing session keeps the active tool, the points picked so far and a counter per tool
//! for naming what it draws. What a click does to that state is decided here; where a point
//! snaps to, whether it closes an outline and what solid the points make are floating-point
//! work, handed in through [`DraftGeometry`].

use vstd::prelude::*;
use crate::command::ModelCommand;
use crate::element::{ElementRecord, ElementView, IfcClass, Placement};
use crate::geometry::GeometryError;
use crate::id::GlobalId;
use crate::representation::Representation;
use crate::text::{decimal, format_u64, owned, push_str};
use crate::textmap::TextMap;

verus! {

/// The active drawing tool.
#[derive(Debug, Clone, Copy, PartialEq, Eq, Structural, Default)]
pub enum Tool {
    /// Clicking selects rather than draws.
    #[default]
    Select,
    /// Two points: a centreline.
    Wall,
    /// A closed polygon, finished explicitly.
    Slab,
    /// One point.
    Column,
}

/// The word for a tool in an element's name and in the status line.
pub open spec fn tool_label(t: Tool) -> Seq<char> {
    match t {
        Tool::Select => "Select"@,
        Tool::Wall => "Wall"@,
        Tool::Slab => "Slab"@,
        Tool::Column => "Column"@,
    }
}

/// How many points a tool needs before it can produce anything.
pub open spec fn points_needed(t: Tool) -> nat {
    match t {
        Tool::Select => 0,
        Tool::Column => 1,
        Tool::Wall => 2,
        Tool::Slab => 3,
    }
}

impl Tool {
    pub fn label(self) -> (r: &'static str)
        ensures
            r@ == tool_label(self),
    {
        match self {
            Tool::Select => "Select",
            Tool::Wall => "Wall",
            Tool::Slab => "Slab",
            Tool::Column => "Column",
        }
    }

    pub fn minimum_points(self) -> (r: usize)
        ensures
            r == points_needed(self),
    {
        match self {
            Tool::Select => 0,
            Tool::Column => 1,
            Tool::Wall => 2,
            Tool::Slab => 3,
        }
    }

    /// Whether reaching the minimum finishes the element. A slab waits to be closed; a wall's
    /// second click means one wall and nothing else.
    pub open spec fn commits_at_minimum_spec(self) -> bool {
        !(self is Slab || self is Select)
    }

    pub fn commits_at_minimum(self) -> (r: bool)
        ensures
            r == self.commits_at_minimum_spec(),
    {
        !matches!(self, Tool::Slab | Tool::Select)
    }
}


/// What a snap latched onto, so the interface can say why the point moved.
#[derive(Debug, Clone, Copy, PartialEq, Eq, Structural)]
pub enum SnapKind {
    /// Nothing was near; the raw point was used.
    Free,
    /// Quantised to the grid.
    Grid,
    /// Latched to a candidate: a vertex, an endpoint, a centre.
    Point,
}

/// A snapped point, as `f64` bit patterns, and the reason it landed there.
#[derive(Debug, Clone, Copy, PartialEq)]
pub struct Snap {
    pub point: [u64; 3],
    pub kind: SnapKind,
}

impl Snap {
    pub fn free(point: [u64; 3]) -> (r: Self)
        ensures
            r == (Snap { point, kind: SnapKind::Free }),
    {
        Snap { point, kind: SnapKind::Free }
    }

    pub fn is_free(&self) -> (r: bool)
        ensures
            r == (self.kind is Free),
    {
        match self.kind {
            SnapKind::Free => true,
            _ => false,
        }
    }
}

/// How aggressively to snap, in metres as `f64` bit patterns.
#[derive(Debug, Clone, Copy, PartialEq)]
pub struct SnapSettings {
    /// Grid spacing; zero or negative disables grid snapping.
    pub grid: u64,
    /// How close a candidate must be to win.
    pub tolerance: u64,
    /// Whether the grid applies to the vertical axis too.
    pub grid_vertical: bool,
}

impl Default for SnapSettings {
    /// A 0.1 m grid, a 0.25 m reach, plan only.
    fn default() -> (r: Self)
        ensures
            r == (SnapSettings { grid: 0x3fb9_9999_9999_999au64, tolerance: 0x3fd0_0000_0000_0000u64, grid_vertical: false }),
    {
        SnapSettings { grid: 0x3fb9_9999_9999_999au64, tolerance: 0x3fd0_0000_0000_0000u64, grid_vertical: false }
    }
}

/// The container of new elements, and where it sits. Placements are stored relative to the
/// container, so its origin is subtracted from every picked point.
#[derive(Debug, Clone, PartialEq)]
pub struct ContainerRef {
    pub id: GlobalId,
    pub origin: [u64; 3],
}

impl ContainerRef {
    pub fn new(id: GlobalId, origin: [u64; 3]) -> (r: Self)
        ensures
            r == (ContainerRef { id, origin }),
    {
        ContainerRef { id, origin }
    }
}

/// The dimensions a tool draws with, as `f64` bit patterns, and how hard it snaps.
#[derive(Debug, Clone, Copy, PartialEq)]
pub struct DraftSettings {
    pub wall_thickness: u64,
    pub wall_height: u64,
    pub slab_thickness: u64,
    pub column_width: u64,
    pub column_depth: u64,
    pub column_height: u64,
    /// The level being drawn on, in world Z; picked points are forced onto it.
    pub elevation: u64,
    pub snap: SnapSettings,
}

impl Default for DraftSettings {
    /// Walls 0.2 m thick and 3 m high, slabs 0.2 m thick, columns 0.4 m square and 3 m high,
    /// drawn at zero elevation.
    fn default() -> (r: Self)
        ensures
            r.wall_thickness == 0x3fc9_9999_9999_999au64,
            r.wall_height == 0x4008_0000_0000_0000u64,
            r.slab_thickness == 0x3fc9_9999_9999_999au64,
            r.column_width == 0x3fd9_9999_9999_999au64,
            r.column_depth == 0x3fd9_9999_9999_999au64,
            r.column_height == 0x4008_0000_0000_0000u64,
            r.elevation == 0,
            r.snap == (SnapSettings { grid: 0x3fb9_9999_9999_999au64, tolerance: 0x3fd0_0000_0000_0000u64, grid_vertical: false }),
    {
        DraftSettings {
            wall_thickness: 0x3fc9_9999_9999_999au64,
            wall_height: 0x4008_0000_0000_0000u64,
            slab_thickness: 0x3fc9_9999_9999_999au64,
            column_width: 0x3fd9_9999_9999_999au64,
            column_depth: 0x3fd9_9999_9999_999au64,
            column_height: 0x4008_0000_0000_0000u64,
            elevation: 0,
            snap: SnapSettings::default(),
        }
    }
}

/// What a click did.
#[derive(Debug, PartialEq)]
pub enum DraftOutcome {
    /// Not a drawing click: the select tool is active.
    Ignored,
    /// The point was taken and the tool wants more.
    Pending(Snap),
    /// An element is ready, as the commands that create it. The tool has reset itself.
    Commit { snap: Snap, global_id: GlobalId, commands: Vec<ModelCommand> },
}

/// Why a click could not produce an element. A length is an `f64` bit pattern.
#[derive(Debug, Clone, PartialEq)]
pub enum ToolError {
    /// The two points are too close to draw between.
    TooShort(u64),
    /// The outline encloses no area.
    Degenerate,
    /// Any other geometric failure.
    Geometry(GeometryError),
}

/// The floating-point side of drawing.
pub trait DraftGeometry {
    /// Where a raw point lands: forced onto the level being drawn on, then snapped.
    fn resolve(&self, target: [u64; 3], candidates: &[[u64; 3]], settings: &DraftSettings) -> Snap;

    /// Whether `point` lies within `tolerance` of `first`.
    fn closes(&self, first: [u64; 3], point: [u64; 3], tolerance: u64) -> bool;

    /// The placement, relative to `origin`, and the swept solid that a tool's points make.
    fn shape(&self, tool: Tool, points: &[[u64; 3]], settings: &DraftSettings, origin: [u64; 3]) -> Result<
        (Placement, Representation),
        ToolError,
    >;
}

/// The class a tool draws.
pub open spec fn drawn_class(t: Tool) -> IfcClass {
    match t {
        Tool::Wall => IfcClass::Wall,
        Tool::Slab => IfcClass::Slab,
        Tool::Column => IfcClass::Column,
        Tool::Select => IfcClass::BuildingElementProxy,
    }
}

/// How many elements a counter says were drawn under a label.
pub open spec fn count_of(counters: Map<Seq<char>, u32>, label: Seq<char>) -> nat {
    if counters.contains_key(label) {
        counters[label] as nat
    } else {
        0
    }
}

/// The counters after one more element under `label`.
pub open spec fn bumped(counters: Map<Seq<char>, u32>, label: Seq<char>) -> Map<Seq<char>, u32> {
    counters.insert(label, if count_of(counters, label) < u32::MAX { (count_of(counters, label) + 1) as u32 } else { u32::MAX })
}

/// The name of the next element a tool draws: its label and its number, counted per tool.
pub open spec fn next_name(t: Tool, counters: Map<Seq<char>, u32>) -> Seq<char> {
    tool_label(t) + " "@ + decimal(count_of(counters, tool_label(t)) + 1)
}

/// Drawing with one tool moves its own numbering on by one and leaves every other tool's
/// where it was.
pub proof fn lemma_each_tool_numbers_its_own(counters: Map<Seq<char>, u32>, drawn: Tool, other: Tool)
    requires
        count_of(counters, tool_label(drawn)) < u32::MAX,
    ensures
        count_of(bumped(counters, tool_label(drawn)), tool_label(drawn)) == count_of(counters, tool_label(drawn)) + 1,
        drawn != other ==> count_of(bumped(counters, tool_label(drawn)), tool_label(other)) == count_of(
            counters,
            tool_label(other),
        ),
{
    reveal_strlit("Select");
    reveal_strlit("Wall");
    reveal_strlit("Slab");
    reveal_strlit("Column");
    if drawn != other {
        assert(tool_label(drawn)[0] != tool_label(other)[0] || tool_label(drawn).len() != tool_label(other).len());
    }
}

/// A drawing session: the active tool and the points picked so far.
pub struct Draft {
    tool: Tool,
    points: Vec<[u64; 3]>,
    pub settings: DraftSettings,
    /// Where new elements are filed; `None` leaves them uncontained.
    pub container: Option<ContainerRef>,
    /// Elements drawn so far, by tool label: session-local and monotonic.
    counters: TextMap<u32>,
}

/// `e` is what a session in state `d` draws: the tool's class and next name, filed in the
/// session's container, with geometry.
pub closed spec fn drafted(d: Draft, e: ElementView) -> bool {
    &&& e.class == drawn_class(d.current())
    &&& e.name matches Some(n) && n@ == next_name(d.current(), d.numbered())
    &&& e.container == (match d.filed_in() {
        Some(c) => Some(c.id),
        None => None,
    })
    &&& e.representation is Some
}

impl Draft {
    /// The active tool.
    pub closed spec fn current(&self) -> Tool {
        self.tool
    }

    /// The points picked so far.
    pub closed spec fn picked(&self) -> Seq<[u64; 3]> {
        self.points@
    }

    /// How many elements each tool has drawn, by label.
    pub closed spec fn numbered(&self) -> Map<Seq<char>, u32> {
        self.counters@
    }

    /// The settings the session draws with.
    pub closed spec fn drawing_with(&self) -> DraftSettings {
        self.settings
    }

    /// Where the session files what it draws.
    pub closed spec fn filed_in(&self) -> Option<ContainerRef> {
        self.container
    }

    pub fn new(settings: DraftSettings) -> (r: Self)
        ensures
            r.current() is Select,
            r.picked().len() == 0,
            r.numbered() == Map::<Seq<char>, u32>::empty(),
            r.drawing_with() == settings,
            r.filed_in() is None,
    {
        Draft { tool: Tool::Select, points: Vec::new(), settings, container: None, counters: TextMap::new() }
    }

    pub fn tool(&self) -> (r: Tool)
        ensures
            r == self.current(),
    {
        self.tool
    }

    /// Switch tools, abandoning anything half-drawn.
    pub fn set_tool(&mut self, tool: Tool)
        ensures
            final(self).current() == tool,
            final(self).picked().len() == 0,
            final(self).numbered() == old(self).numbered(),
            final(self).drawing_with() == old(self).drawing_with(),
            final(self).filed_in() == old(self).filed_in(),
    {
        self.tool = tool;
        self.points = Vec::new();
    }

    /// The points picked so far, for drawing the rubber band.
    pub fn points(&self) -> (r: &[[u64; 3]])
        ensures
            r@ == self.picked(),
    {
        self.points.as_slice()
    }

    pub fn is_drawing(&self) -> (r: bool)
        ensures
            r == (self.picked().len() > 0),
    {
        self.points.len() > 0
    }

    /// Abandon the current element; the tool stays selected.
    pub fn cancel(&mut self)
        ensures
            final(self).current() == old(self).current(),
            final(self).picked().len() == 0,
            final(self).numbered() == old(self).numbered(),
            final(self).drawing_with() == old(self).drawing_with(),
            final(self).filed_in() == old(self).filed_in(),
    {
        self.points = Vec::new();
    }

    /// Take back the last point, leaving the rest.
    pub fn undo_point(&mut self) -> (r: Option<[u64; 3]>)
        ensures
            old(self).picked().len() == 0 ==> r is None && final(self).picked() == old(self).picked(),
            old(self).picked().len() > 0 ==> r == Some(old(self).picked().last()) && final(self).picked()
                == old(self).picked().drop_last(),
            final(self).current() == old(self).current(),
            final(self).numbered() == old(self).numbered(),
            final(self).drawing_with() == old(self).drawing_with(),
            final(self).filed_in() == old(self).filed_in(),
    {
        self.points.pop()
    }

    /// The settings the tool snaps and draws with.
    pub closed spec fn configured(&self) -> DraftSettings {
        self.settings
    }

    /// Where a raw point would land, without taking it: the same answer a click gets.
    pub fn resolve<G: DraftGeometry>(&self, target: [u64; 3], candidates: &[[u64; 3]], geometry: &G) -> (r: Snap)
        ensures
            call_ensures(G::resolve, (geometry, target, candidates, &self.configured()), r),
    {
        geometry.resolve(target, candidates, &self.settings)
    }

    /// The name the next element of the active tool gets.
    fn next_element_name(&self) -> (r: String)
        ensures
            r@ == next_name(self.current(), self.numbered()),
    {
        let label = self.tool.label();
        let count: u64 = match self.counters.get(label) {
            Some(n) => *n as u64,
            None => 0,
        };
        let mut name = owned(label);
        push_str(&mut name, " ");
        let number = format_u64(count + 1);
        push_str(&mut name, number.as_str());
        name
    }

    /// The element that `points` make under the active tool.
    fn build_from<G: DraftGeometry>(&self, points: &[[u64; 3]], geometry: &G) -> (r: Result<ElementRecord, ToolError>)
        requires
            !(self.current() is Select),
        ensures
            r matches Ok(e) ==> drafted(*self, e@),
    {
        let origin = match &self.container {
            Some(c) => c.origin,
            None => [0u64, 0u64, 0u64],
        };
        let (placement, representation) = match geometry.shape(self.tool, points, &self.settings, origin) {
            Ok(s) => s,
            Err(e) => {
                return Err(e);
            },
        };
        let class = match self.tool {
            Tool::Wall => IfcClass::Wall,
            Tool::Slab => IfcClass::Slab,
            Tool::Column => IfcClass::Column,
            Tool::Select => IfcClass::BuildingElementProxy,
        };
        let mut element = ElementRecord::new(GlobalId::new(), class);
        element.name = Some(self.next_element_name());
        element.placement = placement;
        element.container = match &self.container {
            Some(c) => Some(c.id.clone()),
            None => None,
        };
        element.representation = Some(representation);
        Ok(element)
    }

    /// What clicking here would produce, without producing it: the real construction run
    /// against a hypothetical point, so the preview cannot disagree with the click.
    pub fn preview<G: DraftGeometry>(&self, target: [u64; 3], candidates: &[[u64; 3]], geometry: &G) -> (r: Option<
        ElementRecord,
    >)
        ensures
            self.current() is Select ==> r is None,
            self.picked().len() + 1 < points_needed(self.current()) ==> r is None,
            r matches Some(e) ==> drafted(*self, e@),
    {
        if self.tool == Tool::Select {
            return None;
        }
        let mut trial: Vec<[u64; 3]> = Vec::new();
        let mut i: usize = 0;
        while i < self.points.len()
            invariant
                i <= self.points.len(),
                trial@.len() == i,
            decreases self.points.len() - i,
        {
            trial.push(self.points[i]);
            i += 1;
        }
        trial.push(self.resolve(target, candidates, geometry).point);
        if trial.len() < self.tool.minimum_points() {
            return None;
        }
        match self.build_from(trial.as_slice(), geometry) {
            Ok(e) => Some(e),
            Err(_) => None,
        }
    }

    /// Finish the element under way: on success the points are cleared and the tool's counter
    /// moves on; on failure nothing changes.
    fn commit<G: DraftGeometry>(&mut self, snapped: Snap, geometry: &G) -> (r: Result<DraftOutcome, ToolError>)
        requires
            !(old(self).current() is Select),
        ensures
            final(self).current() == old(self).current(),
            final(self).drawing_with() == old(self).drawing_with(),
            final(self).filed_in() == old(self).filed_in(),
            r is Err ==> final(self).picked() == old(self).picked() && final(self).numbered() == old(self).numbered(),
            r is Ok ==> committed(*old(self), *final(self), snapped, r->Ok_0),
    {
        let element = match self.build_from(self.points.as_slice(), geometry) {
            Ok(e) => e,
            Err(e) => {
                return Err(e);
            },
        };
        let ghost before = *self;
        let global_id = element.global_id.clone();
        self.points = Vec::new();
        let label = self.tool.label();
        let count: u32 = match self.counters.get(label) {
            Some(n) => *n,
            None => 0,
        };
        let next: u32 = if count < u32::MAX {
            count + 1
        } else {
            u32::MAX
        };
        self.counters.insert(owned(label), next);
        let mut commands: Vec<ModelCommand> = Vec::new();
        commands.push(ModelCommand::CreateElement { element: Box::new(element) });
        let outcome = DraftOutcome::Commit { snap: snapped, global_id, commands };
        proof {
            assert(self.numbered() =~= bumped(before.numbered(), tool_label(before.current())));
        }
        Ok(outcome)
    }

    /// Take a point.
    ///
    /// With the select tool nothing happens. Clicking the first point of an outline again
    /// closes it. Otherwise the snapped point is taken, and a tool that finishes at its
    /// minimum commits once it has enough. A click that cannot produce an element discards
    /// that point and keeps everything already picked.
    pub fn click<G: DraftGeometry>(&mut self, target: [u64; 3], candidates: &[[u64; 3]], geometry: &G) -> (r: Result<
        DraftOutcome,
        ToolError,
    >)
        ensures
            final(self).current() == old(self).current(),
            final(self).drawing_with() == old(self).drawing_with(),
            final(self).filed_in() == old(self).filed_in(),
            old(self).current() is Select ==> r == Ok::<DraftOutcome, ToolError>(DraftOutcome::Ignored)
                && final(self).picked() == old(self).picked() && final(self).numbered() == old(self).numbered(),
            r is Err ==> final(self).picked() == old(self).picked() && final(self).numbered() == old(self).numbered(),
            r matches Ok(DraftOutcome::Pending(s)) ==> final(self).picked() == old(self).picked().push(s.point)
                && final(self).numbered() == old(self).numbered() && !(final(self).picked().len() >= points_needed(
                old(self).current()) && old(self).current().commits_at_minimum_spec()),
            r matches Ok(DraftOutcome::Ignored) ==> old(self).current() is Select,
            r matches Ok(DraftOutcome::Pending(s)) ==> call_ensures(
                G::resolve,
                (geometry, target, candidates, &old(self).configured()),
                s,
            ),
            r matches Ok(DraftOutcome::Commit { snap, .. }) ==> committed(*old(self), *final(self), snap, r->Ok_0),
    {
        if self.tool == Tool::Select {
            return Ok(DraftOutcome::Ignored);
        }
        let snapped = self.resolve(target, candidates, geometry);
        if self.tool == Tool::Slab && self.points.len() >= self.tool.minimum_points() && geometry.closes(
            self.points[0],
            snapped.point,
            self.settings.snap.tolerance,
        ) {
            return self.commit(snapped, geometry);
        }
        let ghost before = *self;
        self.points.push(snapped.point);
        if self.points.len() >= self.tool.minimum_points() && self.tool.commits_at_minimum() {
            let r = self.commit(snapped, geometry);
            if r.is_err() {
                self.points.pop();
                proof {
                    assert(self.picked() =~= before.picked());
                }
            }
            return r;
        }
        Ok(DraftOutcome::Pending(snapped))
    }

    /// Finish an open-ended tool, such as a slab outline closed from the keyboard.
    pub fn finish<G: DraftGeometry>(&mut self, geometry: &G) -> (r: Result<DraftOutcome, ToolError>)
        requires
            !(old(self).current() is Select),
        ensures
            final(self).current() == old(self).current(),
            final(self).drawing_with() == old(self).drawing_with(),
            final(self).filed_in() == old(self).filed_in(),
            old(self).picked().len() < points_needed(old(self).current()) ==> r == Ok::<DraftOutcome, ToolError>(
                DraftOutcome::Ignored,
            ) && final(self).picked() == old(self).picked() && final(self).numbered() == old(self).numbered(),
            r is Err ==> final(self).picked() == old(self).picked() && final(self).numbered() == old(self).numbered(),
            r matches Ok(DraftOutcome::Commit { snap, .. }) ==> committed(*old(self), *final(self), snap, r->Ok_0)
                && snap == (Snap { point: old(self).picked().last(), kind: SnapKind::Free }),
            !(r matches Ok(DraftOutcome::Pending(_))),
            old(self).picked().len() >= points_needed(old(self).current()) ==> (r is Err || r matches Ok(
                DraftOutcome::Commit { .. },
            )),
    {
        if self.points.len() < self.tool.minimum_points() {
            return Ok(DraftOutcome::Ignored);
        }
        let last = Snap::free(self.points[self.points.len() - 1]);
        self.commit(last, geometry)
    }
}

/// `after` is `before` with its element committed as `outcome`: the points cleared, the tool's
/// counter moved on, and one command creating what `before` draws.
pub closed spec fn committed(before: Draft, after: Draft, snap: Snap, outcome: DraftOutcome) -> bool {
    &&& after.picked().len() == 0
    &&& after.numbered() == bumped(before.numbered(), tool_label(before.current()))
    &&& match outcome {
        DraftOutcome::Commit { snap: s, global_id, commands } => s == snap && commands@.len() == 1 && match commands@[0] {
            ModelCommand::CreateElement { element } => element.global_id == global_id && drafted(before, element@),
            _ => false,
        },
        _ => false,
    }
}

impl Default for Draft {
    fn default() -> (r: Self)
        ensures
            r.current() is Select,
            r.picked().len() == 0,
            r.numbered() == Map::<Seq<char>, u32>::empty(),
            r.filed_in() is None,
    {
        Draft::new(DraftSettings::default())
    }
}

}
