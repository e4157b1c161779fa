//! Geometry recipes: small, deterministic, acyclic lists of operations over parameter
//! expressions.
//!
//! Steps reference earlier steps by index, and only steps before them, so the graph is acyclic
//! by construction and evaluation is a single forward loop. Constants and directions are `f64`
//! bit patterns.

use vstd::prelude::*;
use crate::family::{FamilyError, FamilyErrorView, RepresentationKind};
use crate::floatbits::{finite, is_finite, is_zero, lemma_neg_facts, neg, neg3, negate, negative, zero};
use crate::geometry::{CsgBackend, GeometryError, IndexedMesh};
use crate::representation::{extrusion_of, Representation};
use crate::param::{number_in, ParamBag, ParamValue};
use crate::text::owned;
use crate::textmap::{keys_of, strictly_sorted, TextMap};

verus! {

/// An arithmetic expression over parameters: constants, parameter references, and four
/// operators.
#[derive(Debug, PartialEq)]
pub enum Expr {
    Const(u64),
    Param(String),
    Neg(Box<Expr>),
    Add(Box<Expr>, Box<Expr>),
    Sub(Box<Expr>, Box<Expr>),
    Mul(Box<Expr>, Box<Expr>),
    Div(Box<Expr>, Box<Expr>),
}

impl Clone for Expr {
    fn clone(&self) -> (r: Self)
        ensures
            r == *self,
        decreases self,
    {
        match self {
            Expr::Const(v) => Expr::Const(*v),
            Expr::Param(n) => Expr::Param(n.clone()),
            Expr::Neg(a) => Expr::Neg(Box::new((**a).clone())),
            Expr::Add(a, b) => Expr::Add(Box::new((**a).clone()), Box::new((**b).clone())),
            Expr::Sub(a, b) => Expr::Sub(Box::new((**a).clone()), Box::new((**b).clone())),
            Expr::Mul(a, b) => Expr::Mul(Box::new((**a).clone()), Box::new((**b).clone())),
            Expr::Div(a, b) => Expr::Div(Box::new((**a).clone()), Box::new((**b).clone())),
        }
    }
}

/// The texts of a list of strings.
pub open spec fn texts(v: Seq<String>) -> Seq<Seq<char>> {
    v.map_values(|s: String| s@)
}

/// Every parameter an expression reads, left to right, repeats included.
pub open spec fn expr_params(e: Expr) -> Seq<Seq<char>>
    decreases e,
{
    match e {
        Expr::Const(_) => Seq::empty(),
        Expr::Param(n) => seq![n@],
        Expr::Neg(a) => expr_params(*a),
        Expr::Add(a, b) => expr_params(*a) + expr_params(*b),
        Expr::Sub(a, b) => expr_params(*a) + expr_params(*b),
        Expr::Mul(a, b) => expr_params(*a) + expr_params(*b),
        Expr::Div(a, b) => expr_params(*a) + expr_params(*b),
    }
}

/// The floating-point operations an expression is evaluated with, on `f64` bit patterns.
pub trait Arithmetic {
    /// `a + b`
    fn sum(&self, a: u64, b: u64) -> u64;

    /// `a - b`
    fn difference(&self, a: u64, b: u64) -> u64;

    /// `a * b`
    fn product(&self, a: u64, b: u64) -> u64;

    /// `a / b`
    fn quotient(&self, a: u64, b: u64) -> u64;
}

/// The values an evaluation went through, one node for each node of the expression.
pub enum Valuation {
    Leaf(u64),
    One(u64, Box<Valuation>),
    Two(u64, Box<Valuation>, Box<Valuation>),
}

/// The value at the root of a valuation.
pub open spec fn root(t: Valuation) -> u64 {
    match t {
        Valuation::Leaf(v) => v,
        Valuation::One(v, _) => v,
        Valuation::Two(v, _, _) => v,
    }
}

/// `t` is a way `e` can evaluate for the parameters `params`: each node's value is what its
/// operator gives for its operands' values, in order, an arithmetic step being one `arith`
/// gives: the left operand plus, less or times the right, a dividend over a divisor that is
/// not zero.
pub open spec fn valued<A: Arithmetic>(arith: &A, e: Expr, params: Map<Seq<char>, ParamValue>, t: Valuation) -> bool
    decreases e,
{
    match e {
        Expr::Const(c) => t == Valuation::Leaf(c),
        Expr::Param(n) => t matches Valuation::Leaf(v) && number_in(params, n@) == Ok::<u64, FamilyErrorView>(v),
        Expr::Neg(a) => t matches Valuation::One(v, ta) && valued(arith, *a, params, *ta) && v == neg(root(*ta)),
        Expr::Add(a, b) => t matches Valuation::Two(v, ta, tb) && valued(arith, *a, params, *ta) && valued(
            arith,
            *b,
            params,
            *tb,
        ) && call_ensures(A::sum, (arith, root(*ta), root(*tb)), v),
        Expr::Sub(a, b) => t matches Valuation::Two(v, ta, tb) && valued(arith, *a, params, *ta) && valued(
            arith,
            *b,
            params,
            *tb,
        ) && call_ensures(A::difference, (arith, root(*ta), root(*tb)), v),
        Expr::Mul(a, b) => t matches Valuation::Two(v, ta, tb) && valued(arith, *a, params, *ta) && valued(
            arith,
            *b,
            params,
            *tb,
        ) && call_ensures(A::product, (arith, root(*ta), root(*tb)), v),
        Expr::Div(a, b) => t matches Valuation::Two(v, ta, tb) && valued(arith, *a, params, *ta) && valued(
            arith,
            *b,
            params,
            *tb,
        ) && !zero(root(*tb)) && call_ensures(A::quotient, (arith, root(*ta), root(*tb)), v),
    }
}

/// `v` is a value the expression `e` takes for the parameters `params`.
pub open spec fn evaluates_to<A: Arithmetic>(arith: &A, e: Expr, params: Map<Seq<char>, ParamValue>, v: u64) -> bool {
    exists|t: Valuation| #[trigger] valued(arith, e, params, t) && root(t) == v
}

/// A quotient is the dividend's value over the divisor's, never the other way round, and a
/// sum, difference or product takes its left operand's value first: whatever the arithmetic,
/// the value of `a / b` is one it gives for (value of `a`, value of `b`), with `b`'s not zero.
pub proof fn lemma_operands_in_order<A: Arithmetic>(
    arith: &A,
    a: Expr,
    b: Expr,
    params: Map<Seq<char>, ParamValue>,
    v: u64,
)
    ensures
        evaluates_to(arith, Expr::Div(Box::new(a), Box::new(b)), params, v) ==> exists|x: u64, y: u64|
            #![trigger evaluates_to(arith, a, params, x), evaluates_to(arith, b, params, y)]
            evaluates_to(arith, a, params, x) && evaluates_to(arith, b, params, y) && !zero(y) && call_ensures(
                A::quotient,
                (arith, x, y),
                v,
            ),
        evaluates_to(arith, Expr::Sub(Box::new(a), Box::new(b)), params, v) ==> exists|x: u64, y: u64|
            #![trigger evaluates_to(arith, a, params, x), evaluates_to(arith, b, params, y)]
            evaluates_to(arith, a, params, x) && evaluates_to(arith, b, params, y) && call_ensures(
                A::difference,
                (arith, x, y),
                v,
            ),
        evaluates_to(arith, Expr::Add(Box::new(a), Box::new(b)), params, v) ==> exists|x: u64, y: u64|
            #![trigger evaluates_to(arith, a, params, x), evaluates_to(arith, b, params, y)]
            evaluates_to(arith, a, params, x) && evaluates_to(arith, b, params, y) && call_ensures(
                A::sum,
                (arith, x, y),
                v,
            ),
        evaluates_to(arith, Expr::Mul(Box::new(a), Box::new(b)), params, v) ==> exists|x: u64, y: u64|
            #![trigger evaluates_to(arith, a, params, x), evaluates_to(arith, b, params, y)]
            evaluates_to(arith, a, params, x) && evaluates_to(arith, b, params, y) && call_ensures(
                A::product,
                (arith, x, y),
                v,
            ),
        evaluates_to(arith, Expr::Neg(Box::new(a)), params, v) ==> exists|x: u64|
            #[trigger] evaluates_to(arith, a, params, x) && v == neg(x),
{
    let ba = Box::new(a);
    let bb = Box::new(b);
    let div = Expr::Div(ba, bb);
    let sub = Expr::Sub(ba, bb);
    let add = Expr::Add(ba, bb);
    let mul = Expr::Mul(ba, bb);
    let neg_e = Expr::Neg(ba);
    if evaluates_to(arith, div, params, v) {
        let t = choose|t: Valuation| #[trigger] valued(arith, div, params, t) && root(t) == v;
        let (ta, tb) = (*t->Two_1, *t->Two_2);
        assert(valued(arith, a, params, ta) && valued(arith, b, params, tb));
        assert(evaluates_to(arith, a, params, root(ta)) && evaluates_to(arith, b, params, root(tb)));
    }
    if evaluates_to(arith, sub, params, v) {
        let t = choose|t: Valuation| #[trigger] valued(arith, sub, params, t) && root(t) == v;
        let (ta, tb) = (*t->Two_1, *t->Two_2);
        assert(valued(arith, a, params, ta) && valued(arith, b, params, tb));
        assert(evaluates_to(arith, a, params, root(ta)) && evaluates_to(arith, b, params, root(tb)));
    }
    if evaluates_to(arith, add, params, v) {
        let t = choose|t: Valuation| #[trigger] valued(arith, add, params, t) && root(t) == v;
        let (ta, tb) = (*t->Two_1, *t->Two_2);
        assert(valued(arith, a, params, ta) && valued(arith, b, params, tb));
        assert(evaluates_to(arith, a, params, root(ta)) && evaluates_to(arith, b, params, root(tb)));
    }
    if evaluates_to(arith, mul, params, v) {
        let t = choose|t: Valuation| #[trigger] valued(arith, mul, params, t) && root(t) == v;
        let (ta, tb) = (*t->Two_1, *t->Two_2);
        assert(valued(arith, a, params, ta) && valued(arith, b, params, tb));
        assert(evaluates_to(arith, a, params, root(ta)) && evaluates_to(arith, b, params, root(tb)));
    }
    if evaluates_to(arith, neg_e, params, v) {
        let t = choose|t: Valuation| #[trigger] valued(arith, neg_e, params, t) && root(t) == v;
        let ta = *t->One_1;
        assert(valued(arith, a, params, ta));
        assert(evaluates_to(arith, a, params, root(ta)));
    }
}

/// The parameters an expression reads, in the order evaluation reads them: a divisor before
/// its dividend, every other operand left to right.
pub open spec fn eval_order(e: Expr) -> Seq<Seq<char>>
    decreases e,
{
    match e {
        Expr::Const(_) => Seq::empty(),
        Expr::Param(n) => seq![n@],
        Expr::Neg(a) => eval_order(*a),
        Expr::Add(a, b) => eval_order(*a) + eval_order(*b),
        Expr::Sub(a, b) => eval_order(*a) + eval_order(*b),
        Expr::Mul(a, b) => eval_order(*a) + eval_order(*b),
        Expr::Div(a, b) => eval_order(*b) + eval_order(*a),
    }
}

/// Whether an expression divides by anything.
pub open spec fn divides(e: Expr) -> bool
    decreases e,
{
    match e {
        Expr::Const(_) => false,
        Expr::Param(_) => false,
        Expr::Neg(a) => divides(*a),
        Expr::Add(a, b) => divides(*a) || divides(*b),
        Expr::Sub(a, b) => divides(*a) || divides(*b),
        Expr::Mul(a, b) => divides(*a) || divides(*b),
        Expr::Div(_, _) => true,
    }
}

/// The first of `names` that is absent from the parameters or not a number, as the error it
/// raises.
pub open spec fn first_fault(names: Seq<Seq<char>>, m: Map<Seq<char>, ParamValue>) -> Option<FamilyErrorView>
    decreases names.len(),
{
    if names.len() == 0 {
        None
    } else {
        match number_in(m, names[0]) {
            Err(e) => Some(e),
            Ok(_) => first_fault(names.drop_first(), m),
        }
    }
}

/// The first fault of two lists one after the other is the first list's, if it has one.
proof fn lemma_first_fault_concat(x: Seq<Seq<char>>, y: Seq<Seq<char>>, m: Map<Seq<char>, ParamValue>)
    ensures
        first_fault(x + y, m) == (if first_fault(x, m) is Some {
            first_fault(x, m)
        } else {
            first_fault(y, m)
        }),
    decreases x.len(),
{
    if x.len() > 0 {
        assert((x + y).drop_first() =~= x.drop_first() + y);
        assert((x + y)[0] == x[0]);
        lemma_first_fault_concat(x.drop_first(), y, m);
    } else {
        assert(x + y =~= y);
    }
}

impl Expr {
    pub fn param(name: &str) -> (r: Self)
        ensures
            r matches Expr::Param(n) && n@ == name@,
    {
        Expr::Param(owned(name))
    }

    /// The value of the expression for some parameters.
    ///
    /// Fails on the first parameter, in evaluation order, that is absent or not a number, or
    /// on a divisor that evaluates to zero; a divisor is evaluated before its dividend.
    pub fn eval<A: Arithmetic>(&self, params: &ParamBag, arith: &A) -> (r: Result<u64, FamilyError>)
        ensures
            r matches Err(e) ==> e@ == FamilyErrorView::DivideByZero || Some(e@) == first_fault(eval_order(*self), params@),
            !divides(*self) && first_fault(eval_order(*self), params@) is None ==> r is Ok,
            !divides(*self) && first_fault(eval_order(*self), params@) is Some ==> (r matches Err(e) && Some(e@)
                == first_fault(eval_order(*self), params@)),
            r is Ok ==> first_fault(eval_order(*self), params@) is None,
            *self matches Expr::Const(v) ==> r == Ok::<u64, FamilyError>(v),
            r matches Ok(v) ==> evaluates_to(arith, *self, params@, v),
        decreases self,
    {
        proof {
            reveal_with_fuel(first_fault, 2);
        }
        match self {
            Expr::Const(v) => {
                assert(valued(arith, *self, params@, Valuation::Leaf(*v)));
                Ok(*v)
            },
            Expr::Param(n) => {
                let r = params.number(n.as_str());
                proof {
                    if r is Ok {
                        assert(valued(arith, *self, params@, Valuation::Leaf(r->Ok_0)));
                    }
                }
                r
            },
            Expr::Neg(a) => match (**a).eval(params, arith) {
                Ok(x) => {
                    let v = negate(x);
                    proof {
                        let ta = choose|t: Valuation| #[trigger] valued(arith, **a, params@, t) && root(t) == x;
                        assert(valued(arith, *self, params@, Valuation::One(v, Box::new(ta))));
                    }
                    Ok(v)
                },
                Err(e) => Err(e),
            },
            Expr::Add(a, b) => {
                proof {
                    lemma_first_fault_concat(eval_order(**a), eval_order(**b), params@);
                }
                let x = match (**a).eval(params, arith) {
                    Ok(x) => x,
                    Err(e) => {
                        return Err(e);
                    },
                };
                let y = match (**b).eval(params, arith) {
                    Ok(y) => y,
                    Err(e) => {
                        return Err(e);
                    },
                };
                let v = arith.sum(x, y);
                proof {
                    let ta = choose|t: Valuation| #[trigger] valued(arith, **a, params@, t) && root(t) == x;
                    let tb = choose|t: Valuation| #[trigger] valued(arith, **b, params@, t) && root(t) == y;
                    let t = Valuation::Two(v, Box::new(ta), Box::new(tb));
                    assert(valued(arith, *self, params@, t));
                }
                Ok(v)
            },
            Expr::Sub(a, b) => {
                proof {
                    lemma_first_fault_concat(eval_order(**a), eval_order(**b), params@);
                }
                let x = match (**a).eval(params, arith) {
                    Ok(x) => x,
                    Err(e) => {
                        return Err(e);
                    },
                };
                let y = match (**b).eval(params, arith) {
                    Ok(y) => y,
                    Err(e) => {
                        return Err(e);
                    },
                };
                let v = arith.difference(x, y);
                proof {
                    let ta = choose|t: Valuation| #[trigger] valued(arith, **a, params@, t) && root(t) == x;
                    let tb = choose|t: Valuation| #[trigger] valued(arith, **b, params@, t) && root(t) == y;
                    let t = Valuation::Two(v, Box::new(ta), Box::new(tb));
                    assert(valued(arith, *self, params@, t));
                }
                Ok(v)
            },
            Expr::Mul(a, b) => {
                proof {
                    lemma_first_fault_concat(eval_order(**a), eval_order(**b), params@);
                }
                let x = match (**a).eval(params, arith) {
                    Ok(x) => x,
                    Err(e) => {
                        return Err(e);
                    },
                };
                let y = match (**b).eval(params, arith) {
                    Ok(y) => y,
                    Err(e) => {
                        return Err(e);
                    },
                };
                let v = arith.product(x, y);
                proof {
                    let ta = choose|t: Valuation| #[trigger] valued(arith, **a, params@, t) && root(t) == x;
                    let tb = choose|t: Valuation| #[trigger] valued(arith, **b, params@, t) && root(t) == y;
                    let t = Valuation::Two(v, Box::new(ta), Box::new(tb));
                    assert(valued(arith, *self, params@, t));
                }
                Ok(v)
            },
            Expr::Div(a, b) => {
                proof {
                    lemma_first_fault_concat(eval_order(**b), eval_order(**a), params@);
                }
                let divisor = match (**b).eval(params, arith) {
                    Ok(y) => y,
                    Err(e) => {
                        return Err(e);
                    },
                };
                if is_zero(divisor) {
                    return Err(FamilyError::DivideByZero);
                }
                let x = match (**a).eval(params, arith) {
                    Ok(x) => x,
                    Err(e) => {
                        return Err(e);
                    },
                };
                proof {
                    let ta = choose|t: Valuation| #[trigger] valued(arith, **a, params@, t) && root(t) == x;
                    let tb = choose|t: Valuation| #[trigger] valued(arith, **b, params@, t) && root(t) == divisor;
                    assert forall|v: u64| #[trigger] call_ensures(A::quotient, (arith, x, divisor), v) implies evaluates_to(
                        arith,
                        *self,
                        params@,
                        v,
                    ) by {
                        assert(valued(arith, *self, params@, Valuation::Two(v, Box::new(ta), Box::new(tb))));
                    }
                }
                Ok(arith.quotient(x, divisor))
            },
        }
    }

    /// Append every parameter this expression reads to `out`.
    pub fn referenced_params(&self, out: &mut Vec<String>)
        ensures
            texts(final(out)@) == texts(old(out)@) + expr_params(*self),
        decreases self,
    {
        match self {
            Expr::Const(_) => {
                assert(texts(out@) =~= texts(out@) + Seq::<Seq<char>>::empty());
            },
            Expr::Param(n) => {
                out.push(n.clone());
                assert(texts(out@) =~= texts(old(out)@) + seq![n@]);
            },
            Expr::Neg(a) => {
                (**a).referenced_params(out);
            },
            Expr::Add(a, b) | Expr::Sub(a, b) | Expr::Mul(a, b) | Expr::Div(a, b) => {
                let ghost before = texts(out@);
                (**a).referenced_params(out);
                (**b).referenced_params(out);
                assert(texts(out@) =~= before + (expr_params(**a) + expr_params(**b)));
            },
        }
    }
}

/// How to build the 2D profile a sweep starts from.
#[derive(Debug, PartialEq)]
pub enum ProfileSpec {
    /// Centred on the local origin.
    Rectangle { width: Expr, depth: Expr },
    Circle { radius: Expr },
    /// A literal closed polygon, wound automatically.
    Polygon { points: Vec<[u64; 2]> },
}

/// Two profiles that say the same: equal, with a polygon's points compared by value.
pub open spec fn same_profile(a: ProfileSpec, b: ProfileSpec) -> bool {
    if a is Polygon && b is Polygon {
        a->points@ == b->points@
    } else {
        a == b
    }
}

impl Clone for ProfileSpec {
    fn clone(&self) -> (r: Self)
        ensures
            same_profile(r, *self),
    {
        match self {
            ProfileSpec::Rectangle { width, depth } => ProfileSpec::Rectangle { width: width.clone(), depth: depth.clone() },
            ProfileSpec::Circle { radius } => ProfileSpec::Circle { radius: radius.clone() },
            ProfileSpec::Polygon { points } => ProfileSpec::Polygon { points: copy_points(points) },
        }
    }
}

/// Every parameter a profile reads.
pub open spec fn profile_params(p: ProfileSpec) -> Seq<Seq<char>> {
    match p {
        ProfileSpec::Rectangle { width, depth } => expr_params(width) + expr_params(depth),
        ProfileSpec::Circle { radius } => expr_params(radius),
        ProfileSpec::Polygon { .. } => Seq::empty(),
    }
}

/// One step of a recipe.
#[derive(Debug, PartialEq)]
pub enum RecipeOp {
    /// Sweep a profile. Maps directly onto `IfcExtrudedAreaSolid`.
    Extrude { profile: ProfileSpec, direction: [u64; 3], depth: Expr },
    /// Move an earlier step.
    Translate { source: usize, offset: [Expr; 3] },
    /// Requires a CSG backend.
    Union { a: usize, b: usize },
    /// Requires a CSG backend.
    Difference { a: usize, b: usize },
}

/// Two steps that say the same: equal, with an extrusion's profile compared as
/// [`same_profile`] does.
pub open spec fn same_op(x: RecipeOp, y: RecipeOp) -> bool {
    if x is Extrude && y is Extrude {
        &&& same_profile(x->Extrude_profile, y->Extrude_profile)
        &&& x->Extrude_direction == y->Extrude_direction
        &&& x->Extrude_depth == y->Extrude_depth
    } else {
        x == y
    }
}

/// Two step lists that say the same, step by step.
pub open spec fn same_steps(a: Seq<RecipeOp>, b: Seq<RecipeOp>) -> bool {
    a.len() == b.len() && forall|i: int| 0 <= i < a.len() ==> same_op(#[trigger] a[i], b[i])
}

impl Clone for RecipeOp {
    fn clone(&self) -> (r: Self)
        ensures
            same_op(r, *self),
    {
        match self {
            RecipeOp::Extrude { profile, direction, depth } => RecipeOp::Extrude {
                profile: profile.clone(),
                direction: *direction,
                depth: depth.clone(),
            },
            RecipeOp::Translate { source, offset } => {
                let o = [offset[0].clone(), offset[1].clone(), offset[2].clone()];
                proof {
                    broadcast use vstd::array::axiom_array_ext_equal;
                    assert(o =~= *offset);
                }
                RecipeOp::Translate { source: *source, offset: o }
            },
            RecipeOp::Union { a, b } => RecipeOp::Union { a: *a, b: *b },
            RecipeOp::Difference { a, b } => RecipeOp::Difference { a: *a, b: *b },
        }
    }
}

/// The earlier steps a step reads.
pub open spec fn refs(op: RecipeOp) -> Seq<usize> {
    match op {
        RecipeOp::Extrude { .. } => Seq::empty(),
        RecipeOp::Translate { source, .. } => seq![source],
        RecipeOp::Union { a, b } => seq![a, b],
        RecipeOp::Difference { a, b } => seq![a, b],
    }
}

/// Every parameter a step reads.
pub open spec fn op_params(op: RecipeOp) -> Seq<Seq<char>> {
    match op {
        RecipeOp::Extrude { profile, depth, .. } => expr_params(depth) + profile_params(profile),
        RecipeOp::Translate { offset, .. } => expr_params(offset[0]) + expr_params(offset[1]) + expr_params(offset[2]),
        _ => Seq::empty(),
    }
}

/// Every parameter any of the steps reads, in step order.
pub open spec fn all_params(ops: Seq<RecipeOp>) -> Seq<Seq<char>>
    decreases ops.len(),
{
    if ops.len() == 0 {
        Seq::empty()
    } else {
        all_params(ops.drop_last()) + op_params(ops.last())
    }
}

/// The first of a step's references that is not to an earlier step.
pub open spec fn bad_ref(rs: Seq<usize>, index: int) -> Option<usize> {
    if rs.len() > 0 && rs[0] >= index {
        Some(rs[0])
    } else if rs.len() > 1 && rs[1] >= index {
        Some(rs[1])
    } else {
        None
    }
}

/// The first step, from `from` on, that reads itself or a later step, with that reference.
pub open spec fn first_bad(ops: Seq<RecipeOp>, from: int) -> Option<(usize, usize)>
    decreases ops.len() - from,
{
    if from < 0 || from >= ops.len() {
        None
    } else {
        match bad_ref(refs(ops[from]), from) {
            Some(r) => Some((from as usize, r)),
            None => first_bad(ops, from + 1),
        }
    }
}

/// Every step reads only steps before it.
pub open spec fn acyclic(ops: Seq<RecipeOp>) -> bool {
    forall|i: int, j: int| 0 <= i < ops.len() && 0 <= j < refs(ops[i]).len() ==> #[trigger] refs(ops[i])[j] < i
}

/// What building a recipe from `ops` with this output finds wrong, in the order it checks.
pub open spec fn recipe_fault(ops: Seq<RecipeOp>, output: usize) -> Option<FamilyErrorView> {
    if ops.len() == 0 {
        Some(FamilyErrorView::EmptyRecipe)
    } else {
        match first_bad(ops, 0) {
            Some((index, referenced)) => Some(FamilyErrorView::BadRecipeReference { index, referenced }),
            None => if output >= ops.len() {
                Some(FamilyErrorView::BadRecipeOutput(output))
            } else {
                None
            },
        }
    }
}

/// No bad reference from `from` on means every step from there reads only earlier ones.
proof fn lemma_no_bad_from(ops: Seq<RecipeOp>, from: int)
    requires
        0 <= from,
        first_bad(ops, from) is None,
    ensures
        forall|i: int, j: int| from <= i < ops.len() && 0 <= j < refs(ops[i]).len() ==> #[trigger] refs(ops[i])[j] < i,
    decreases ops.len() - from,
{
    if from < ops.len() {
        lemma_no_bad_from(ops, from + 1);
    }
}

/// A deterministic geometry program.
#[derive(Debug, PartialEq)]
pub struct GeometryRecipe {
    ops: Vec<RecipeOp>,
    output: usize,
}

impl GeometryRecipe {
    #[verifier::type_invariant]
    closed spec fn well_formed(&self) -> bool {
        &&& self.ops@.len() > 0
        &&& acyclic(self.ops@)
        &&& self.output < self.ops@.len()
    }

    /// The steps.
    pub closed spec fn steps(&self) -> Seq<RecipeOp> {
        self.ops@
    }

    /// The index of the step whose mesh is the result.
    pub closed spec fn output_step(&self) -> int {
        self.output as int
    }

    /// The step whose result is the recipe's.
    pub closed spec fn out(&self) -> usize {
        self.output
    }

    /// Build and check, with a chosen output step.
    pub fn with_output(ops: Vec<RecipeOp>, output: usize) -> (r: Result<Self, FamilyError>)
        ensures
            match r {
                Ok(g) => recipe_fault(ops@, output) is None && g.steps() == ops@ && g.out() == output,
                Err(e) => recipe_fault(ops@, output) == Some(e@),
            },
    {
        if ops.len() == 0 {
            return Err(FamilyError::EmptyRecipe);
        }
        let mut index: usize = 0;
        while index < ops.len()
            invariant
                index <= ops.len(),
                first_bad(ops@, 0) == first_bad(ops@, index as int),
            decreases ops.len() - index,
        {
            let rs = references(&ops[index]);
            let mut k: usize = 0;
            while k < rs.len()
                invariant
                    k <= rs.len(),
                    rs@ == refs(ops@[index as int]),
                    index < ops.len(),
                    first_bad(ops@, 0) == first_bad(ops@, index as int),
                    forall|q: int| 0 <= q < k ==> rs@[q] < index,
                decreases rs.len() - k,
            {
                if rs[k] >= index {
                    return Err(FamilyError::BadRecipeReference { index, referenced: rs[k] });
                }
                k += 1;
            }
            index += 1;
        }
        if output >= ops.len() {
            return Err(FamilyError::BadRecipeOutput(output));
        }
        proof {
            lemma_no_bad_from(ops@, 0);
        }
        Ok(GeometryRecipe { ops, output })
    }

    /// Build and check. The output is the last step.
    pub fn new(ops: Vec<RecipeOp>) -> (r: Result<Self, FamilyError>)
        ensures
            ops@.len() == 0 ==> (r matches Err(e) && e@ == FamilyErrorView::EmptyRecipe),
            ops@.len() > 0 ==> match r {
                Ok(g) => recipe_fault(ops@, (ops@.len() - 1) as usize) is None && g.steps() == ops@
                    && g.out() == ops@.len() - 1,
                Err(e) => recipe_fault(ops@, (ops@.len() - 1) as usize) == Some(e@),
            },
    {
        if ops.len() == 0 {
            return Err(FamilyError::EmptyRecipe);
        }
        let output = ops.len() - 1;
        Self::with_output(ops, output)
    }

    /// A single extrusion, the overwhelmingly common case.
    pub fn single_extrusion(profile: ProfileSpec, direction: [u64; 3], depth: Expr) -> (r: Result<Self, FamilyError>)
        ensures
            r matches Ok(g) && g.steps() == seq![RecipeOp::Extrude { profile, direction, depth }] && g.out() == 0,
    {
        let mut ops: Vec<RecipeOp> = Vec::new();
        ops.push(RecipeOp::Extrude { profile, direction, depth });
        proof {
            reveal_with_fuel(first_bad, 2);
        }
        Self::with_output(ops, 0)
    }

    /// The steps: never empty, each reading only steps before it.
    pub fn ops(&self) -> (r: &[RecipeOp])
        ensures
            r@ == self.steps(),
            r@.len() > 0,
            acyclic(r@),
    {
        proof { use_type_invariant(self); }
        self.ops.as_slice()
    }

    /// The output step, always one of the steps.
    pub fn output(&self) -> (r: usize)
        ensures
            r == self.out(),
            r < self.steps().len(),
    {
        proof { use_type_invariant(self); }
        self.output
    }

    /// Whether this recipe exports as native parametric IFC or has to degrade: a single
    /// extrusion maps exactly onto `IfcExtrudedAreaSolid`, anything else is tessellated.
    pub fn representation_kind(&self) -> (r: RepresentationKind)
        ensures
            r == (if self.steps().len() == 1 && self.steps()[0] is Extrude {
                RepresentationKind::NativeParametric
            } else {
                RepresentationKind::Tessellated
            }),
    {
        if self.ops.len() == 1 {
            match &self.ops[0] {
                RecipeOp::Extrude { .. } => RepresentationKind::NativeParametric,
                _ => RepresentationKind::Tessellated,
            }
        } else {
            RepresentationKind::Tessellated
        }
    }

    /// Every parameter any step reads, each once, in name order.
    pub fn referenced_params(&self) -> (r: Vec<String>)
        ensures
            strictly_sorted(texts(r@)),
            texts(r@).to_set() == all_params(self.steps()).to_set(),
    {
        let mut raw: Vec<String> = Vec::new();
        let mut i: usize = 0;
        while i < self.ops.len()
            invariant
                i <= self.ops.len(),
                texts(raw@) == all_params(self.ops@.take(i as int)),
            decreases self.ops.len() - i,
        {
            let ghost before = texts(raw@);
            step_params(&self.ops[i], &mut raw);
            proof {
                assert(self.ops@.take(i + 1).drop_last() =~= self.ops@.take(i as int));
            }
            i += 1;
        }
        proof {
            assert(self.ops@.take(self.ops.len() as int) =~= self.ops@);
        }
        let mut names: TextMap<bool> = TextMap::new();
        let mut j: usize = 0;
        while j < raw.len()
            invariant
                j <= raw.len(),
                names@.dom() == texts(raw@.take(j as int)).to_set(),
            decreases raw.len() - j,
        {
            names.insert(raw[j].clone(), true);
            proof {
                assert(texts(raw@.take(j + 1)) =~= texts(raw@.take(j as int)).push(raw@[j as int]@));
                texts(raw@.take(j as int)).lemma_push_to_set_commute(raw@[j as int]@);
                assert(names@.dom() =~= texts(raw@.take(j + 1)).to_set());
            }
            j += 1;
        }
        proof {
            assert(raw@.take(raw.len() as int) =~= raw@);
        }
        let entries = names.as_slice();
        let mut out: Vec<String> = Vec::new();
        let mut k: usize = 0;
        while k < entries.len()
            invariant
                k <= entries.len(),
                entries@ == names.items(),
                texts(out@) == keys_of(entries@.take(k as int)),
            decreases entries.len() - k,
        {
            let ghost before = out@;
            let name = entries[k].0.clone();
            out.push(name);
            proof {
                assert(entries@.take(k + 1) =~= entries@.take(k as int).push(entries@[k as int]));
                assert(keys_of(entries@.take(k + 1)) =~= keys_of(entries@.take(k as int)).push(entries@[k as int].0@));
                assert(texts(out@) =~= texts(before).push(name@));
            }
            k += 1;
        }
        proof {
            assert(entries@.take(entries.len() as int) =~= entries@);
            assert(texts(out@) == keys_of(names.items()));
            let ks = keys_of(names.items());
            assert forall|x: Seq<char>| ks.to_set().contains(x) <==> names@.dom().contains(x) by {
                if ks.to_set().contains(x) {
                    let q = choose|q: int| 0 <= q < ks.len() && ks[q] == x;
                    assert(names.items()[q].0@ == x);
                }
                if names@.dom().contains(x) {
                    let q = choose|q: int| 0 <= q < names.items().len() && #[trigger] names.items()[q].0@ == x;
                    assert(ks[q] == x);
                }
            }
            assert(ks.to_set() =~= names@.dom());
        }
        out
    }
}

impl Clone for GeometryRecipe {
    fn clone(&self) -> (r: Self)
        ensures
            same_steps(r.steps(), self.steps()),
            r.out() == self.out(),
    {
        proof { use_type_invariant(self); }
        let mut ops: Vec<RecipeOp> = Vec::new();
        let mut i: usize = 0;
        while i < self.ops.len()
            invariant
                i <= self.ops.len(),
                ops@.len() == i,
                forall|q: int| 0 <= q < i ==> same_op(#[trigger] ops@[q], self.ops@[q]),
            decreases self.ops.len() - i,
        {
            ops.push(self.ops[i].clone());
            i += 1;
        }
        proof {
            assert forall|q: int, j: int| 0 <= q < ops@.len() && 0 <= j < refs(ops@[q]).len() implies
                #[trigger] refs(ops@[q])[j] < q by {
                assert(same_op(ops@[q], self.ops@[q]));
                assert(refs(ops@[q]) == refs(self.ops@[q]));
            }
        }
        GeometryRecipe { ops, output: self.output }
    }
}

/// A copy of a list of points.
fn copy_points(v: &Vec<[u64; 2]>) -> (r: Vec<[u64; 2]>)
    ensures
        r@ == v@,
{
    let mut r: Vec<[u64; 2]> = Vec::new();
    let mut i: usize = 0;
    while i < v.len()
        invariant
            i <= v.len(),
            r@ == v@.take(i as int),
        decreases v.len() - i,
    {
        r.push(v[i]);
        proof {
            assert(r@ =~= v@.take(i + 1));
        }
        i += 1;
    }
    assert(r@ =~= v@);
    r
}

/// The earlier steps a step reads.
fn references(op: &RecipeOp) -> (r: Vec<usize>)
    ensures
        r@ == refs(*op),
{
    match op {
        RecipeOp::Extrude { .. } => {
            let r: Vec<usize> = Vec::new();
            assert(r@ =~= refs(*op));
            r
        },
        RecipeOp::Translate { source, .. } => {
            let mut r: Vec<usize> = Vec::new();
            r.push(*source);
            assert(r@ =~= refs(*op));
            r
        },
        RecipeOp::Union { a, b } | RecipeOp::Difference { a, b } => {
            let mut r: Vec<usize> = Vec::new();
            r.push(*a);
            r.push(*b);
            assert(r@ =~= refs(*op));
            r
        },
    }
}

/// Append every parameter one step reads to `out`.
fn step_params(op: &RecipeOp, out: &mut Vec<String>)
    ensures
        texts(final(out)@) == texts(old(out)@) + op_params(*op),
{
    match op {
        RecipeOp::Extrude { profile, depth, .. } => {
            depth.referenced_params(out);
            match profile {
                ProfileSpec::Rectangle { width, depth: d } => {
                    width.referenced_params(out);
                    d.referenced_params(out);
                },
                ProfileSpec::Circle { radius } => {
                    radius.referenced_params(out);
                },
                ProfileSpec::Polygon { .. } => {},
            }
            assert(texts(out@) =~= texts(old(out)@) + op_params(*op));
        },
        RecipeOp::Translate { offset, .. } => {
            offset[0].referenced_params(out);
            offset[1].referenced_params(out);
            offset[2].referenced_params(out);
            assert(texts(out@) =~= texts(old(out)@) + op_params(*op));
        },
        _ => {
            assert(texts(out@) =~= texts(old(out)@) + op_params(*op));
        },
    }
}


/// The floating-point side of evaluating a recipe: building profiles, sweeping them, and
/// moving meshes.
pub trait RecipeGeometry {
    /// A built profile.
    type Profile;

    /// The profile a specification makes for some parameters.
    fn build(&self, spec: &ProfileSpec, params: &ParamBag) -> Result<Self::Profile, FamilyError>;

    /// A profile's outer boundary, counter-clockwise, without a repeated closing point.
    fn outer(&self, profile: &Self::Profile) -> Vec<[u64; 2]>;

    /// How many holes a profile has.
    fn holes(&self, profile: &Self::Profile) -> usize;

    /// A profile swept along `direction` by `depth`.
    fn extrude(&self, profile: &Self::Profile, direction: [u64; 3], depth: u64) -> Result<IndexedMesh, GeometryError>;

    /// A mesh moved by `delta`.
    fn translate(&self, mesh: &IndexedMesh, delta: [u64; 3]) -> IndexedMesh;
}

/// The parameter expressions a step evaluates: an extrusion's depth, a translation's offset.
pub open spec fn step_exprs(op: RecipeOp) -> Seq<Expr> {
    match op {
        RecipeOp::Extrude { depth, .. } => seq![depth],
        RecipeOp::Translate { offset, .. } => seq![offset[0], offset[1], offset[2]],
        _ => Seq::empty(),
    }
}

/// Every expression of the steps evaluates for these parameters: no parameter it names is
/// absent or not a number.
pub open spec fn exprs_resolve(steps: Seq<RecipeOp>, params: Map<Seq<char>, ParamValue>) -> bool {
    forall|i: int, j: int|
        #![trigger step_exprs(steps[i])[j]]
        0 <= i < steps.len() && 0 <= j < step_exprs(steps[i]).len() ==> first_fault(eval_order(step_exprs(steps[i])[j]), params) is None
}

/// A recipe of one extrusion, which maps onto `IfcExtrudedAreaSolid` directly.
pub open spec fn single_sweep(steps: Seq<RecipeOp>) -> bool {
    steps.len() == 1 && steps[0] is Extrude
}

/// The swept solid of a profile's outer boundary along `direction` by an evaluated `depth`:
/// refused with the depth when it is zero or not finite; otherwise the profile and depth go
/// into the representation as they are, a negative depth folded into the direction.
pub fn sweep_of(outer: Vec<[u64; 2]>, direction: [u64; 3], depth: u64) -> (r: Result<Representation, FamilyError>)
    ensures
        zero(depth) || !finite(depth) ==> r == Err::<Representation, FamilyError>(
            FamilyError::Geometry(GeometryError::InvalidDepth(depth)),
        ),
        !zero(depth) && finite(depth) ==> (r matches Ok(Representation::ExtrudedAreaSolid { profile, direction: d, depth: h })
            && (profile@, d, h) == extrusion_of(outer@, direction, depth)),
{
    if !is_finite(depth) || is_zero(depth) {
        return Err(FamilyError::Geometry(GeometryError::InvalidDepth(depth)));
    }
    Ok(Representation::extrusion(outer, direction, depth))
}

/// `r` is what a single extrusion gives for a profile's outer boundary, a direction, and what
/// evaluating its depth gave: the evaluation's error as it is; the depth refused when it is
/// zero or not finite; otherwise the extrusion of those points by that depth.
pub open spec fn sweeps_to(
    outer: Seq<[u64; 2]>,
    direction: [u64; 3],
    depth: Result<u64, FamilyError>,
    r: Result<Representation, FamilyError>,
) -> bool {
    match depth {
        Err(e) => r == Err::<Representation, FamilyError>(e),
        Ok(d) => if zero(d) || !finite(d) {
            r == Err::<Representation, FamilyError>(FamilyError::Geometry(GeometryError::InvalidDepth(d)))
        } else {
            r matches Ok(Representation::ExtrudedAreaSolid { profile, direction: dd, depth: h }) && (profile@, dd, h)
                == extrusion_of(outer, direction, d)
        },
    }
}

/// A single extrusion, from the built profile's outer boundary and the evaluated depth.
pub fn sweep_from(outer: Vec<[u64; 2]>, direction: [u64; 3], depth: Result<u64, FamilyError>) -> (r: Result<
    Representation,
    FamilyError,
>)
    ensures
        sweeps_to(outer@, direction, depth, r),
{
    match depth {
        Ok(d) => sweep_of(outer, direction, d),
        Err(e) => Err(e),
    }
}

/// `m` is a mesh step `op` can make, the steps before it having made `earlier`: an extrusion
/// sweeps the profile the geometry builds along its direction by its depth's value; a
/// translation moves the mesh of its source by its offset's values; a union or a difference
/// is what the backend gives for the mesh of step `a` and the mesh of step `b`, in that order.
pub open spec fn step_made<A: Arithmetic, G: RecipeGeometry, C: CsgBackend>(
    arith: &A,
    geometry: &G,
    csg: &C,
    params: &ParamBag,
    op: RecipeOp,
    earlier: Seq<IndexedMesh>,
    m: IndexedMesh,
) -> bool {
    match op {
        RecipeOp::Extrude { profile, direction, depth } => exists|built: G::Profile, d: u64|
            #![trigger call_ensures(G::build, (geometry, &profile, params), Ok::<G::Profile, FamilyError>(built)), evaluates_to(arith, depth, params@, d)]
            call_ensures(G::build, (geometry, &profile, params), Ok::<G::Profile, FamilyError>(built)) && evaluates_to(
                arith,
                depth,
                params@,
                d,
            ) && call_ensures(G::extrude, (geometry, &built, direction, d), Ok::<IndexedMesh, GeometryError>(m)),
        RecipeOp::Translate { source, offset } => exists|x: u64, y: u64, z: u64|
            #![trigger evaluates_to(arith, offset[0], params@, x), evaluates_to(arith, offset[1], params@, y), evaluates_to(arith, offset[2], params@, z)]
            evaluates_to(arith, offset[0], params@, x) && evaluates_to(arith, offset[1], params@, y) && evaluates_to(
                arith,
                offset[2],
                params@,
                z,
            ) && call_ensures(G::translate, (geometry, &earlier[source as int], [x, y, z]), m),
        RecipeOp::Union { a, b } => call_ensures(
            C::union,
            (csg, &earlier[a as int], &earlier[b as int]),
            Ok::<IndexedMesh, GeometryError>(m),
        ),
        RecipeOp::Difference { a, b } => call_ensures(
            C::difference,
            (csg, &earlier[a as int], &earlier[b as int]),
            Ok::<IndexedMesh, GeometryError>(m),
        ),
    }
}

/// `meshes` are meshes the steps `ops` can make in turn, one for each.
pub open spec fn meshes_made<A: Arithmetic, G: RecipeGeometry, C: CsgBackend>(
    arith: &A,
    geometry: &G,
    csg: &C,
    params: &ParamBag,
    ops: Seq<RecipeOp>,
    meshes: Seq<IndexedMesh>,
) -> bool {
    &&& meshes.len() == ops.len()
    &&& forall|i: int| 0 <= i < ops.len() ==> step_made(arith, geometry, csg, params, ops[i], meshes.take(i), #[trigger] meshes[i])
}

/// Each step of an evaluation is made from the steps it names, in the order it names them: a
/// difference is what the backend gives for the mesh of its first step less the mesh of its
/// second, never the other way round; a union likewise takes them in order; a translation
/// moves its source's mesh; an extrusion sweeps its own profile by its own depth.
pub proof fn lemma_steps_use_their_operands_in_order<A: Arithmetic, G: RecipeGeometry, C: CsgBackend>(
    arith: &A,
    geometry: &G,
    csg: &C,
    params: &ParamBag,
    ops: Seq<RecipeOp>,
    meshes: Seq<IndexedMesh>,
    i: int,
)
    requires
        meshes_made(arith, geometry, csg, params, ops, meshes),
        acyclic(ops),
        0 <= i < ops.len(),
    ensures
        ops[i] matches RecipeOp::Difference { a, b } ==> call_ensures(
            C::difference,
            (csg, &meshes[a as int], &meshes[b as int]),
            Ok::<IndexedMesh, GeometryError>(meshes[i]),
        ),
        ops[i] matches RecipeOp::Union { a, b } ==> call_ensures(
            C::union,
            (csg, &meshes[a as int], &meshes[b as int]),
            Ok::<IndexedMesh, GeometryError>(meshes[i]),
        ),
        ops[i] matches RecipeOp::Translate { source, offset } ==> exists|x: u64, y: u64, z: u64|
            #![trigger evaluates_to(arith, offset[0], params@, x), evaluates_to(arith, offset[1], params@, y), evaluates_to(arith, offset[2], params@, z)]
            evaluates_to(arith, offset[0], params@, x) && evaluates_to(arith, offset[1], params@, y) && evaluates_to(
                arith,
                offset[2],
                params@,
                z,
            ) && call_ensures(G::translate, (geometry, &meshes[source as int], [x, y, z]), meshes[i]),
        ops[i] matches RecipeOp::Extrude { profile, direction, depth } ==> exists|built: G::Profile, d: u64|
            #![trigger call_ensures(G::build, (geometry, &profile, params), Ok::<G::Profile, FamilyError>(built)), evaluates_to(arith, depth, params@, d)]
            call_ensures(G::build, (geometry, &profile, params), Ok::<G::Profile, FamilyError>(built)) && evaluates_to(
                arith,
                depth,
                params@,
                d,
            ) && call_ensures(G::extrude, (geometry, &built, direction, d), Ok::<IndexedMesh, GeometryError>(meshes[i])),
{
    assert(step_made(arith, geometry, csg, params, ops[i], meshes.take(i), meshes[i]));
    match ops[i] {
        RecipeOp::Difference { a, b } => {
            assert(refs(ops[i])[0] < i && refs(ops[i])[1] < i);
            assert(meshes.take(i)[a as int] == meshes[a as int]);
            assert(meshes.take(i)[b as int] == meshes[b as int]);
        },
        RecipeOp::Union { a, b } => {
            assert(refs(ops[i])[0] < i && refs(ops[i])[1] < i);
            assert(meshes.take(i)[a as int] == meshes[a as int]);
            assert(meshes.take(i)[b as int] == meshes[b as int]);
        },
        RecipeOp::Translate { source, offset } => {
            assert(refs(ops[i])[0] < i);
            assert(meshes.take(i)[source as int] == meshes[source as int]);
        },
        _ => {},
    }
}

impl GeometryRecipe {
    /// Evaluate to a mesh: one forward pass, step `i` reading only steps before it, and the
    /// first failing step's error as the result.
    pub fn evaluate<A: Arithmetic, G: RecipeGeometry, C: CsgBackend>(
        &self,
        params: &ParamBag,
        arith: &A,
        geometry: &G,
        csg: &C,
    ) -> (r: Result<IndexedMesh, FamilyError>)
        ensures
            r is Ok ==> exprs_resolve(self.steps(), params@),
            r matches Ok(m) ==> exists|meshes: Seq<IndexedMesh>|
                #[trigger] meshes_made(arith, geometry, csg, params, self.steps(), meshes) && m == meshes[self.output_step()],
    {
        proof {
            use_type_invariant(self);
        }
        let mut results: Vec<IndexedMesh> = Vec::new();
        let mut i: usize = 0;
        while i < self.ops.len()
            invariant
                i <= self.ops.len(),
                results@.len() == i,
                acyclic(self.ops@),
                exprs_resolve(self.ops@.take(i as int), params@),
                meshes_made(arith, geometry, csg, params, self.ops@.take(i as int), results@),
            decreases self.ops.len() - i,
        {
            assert(forall|j: int| 0 <= j < refs(self.ops@[i as int]).len() ==> #[trigger] refs(self.ops@[i as int])[j] < i);
            let mesh = match &self.ops[i] {
                RecipeOp::Extrude { profile, direction, depth } => {
                    let built = match geometry.build(profile, params) {
                        Ok(b) => b,
                        Err(e) => {
                            return Err(e);
                        },
                    };
                    let d = match depth.eval(params, arith) {
                        Ok(d) => d,
                        Err(e) => {
                            return Err(e);
                        },
                    };
                    match geometry.extrude(&built, *direction, d) {
                        Ok(m) => {
                            proof {
                                assert(evaluates_to(arith, *depth, params@, d));
                                assert(step_made(arith, geometry, csg, params, self.ops@[i as int], results@, m));
                            }
                            m
                        },
                        Err(g) => {
                            return Err(FamilyError::Geometry(g));
                        },
                    }
                },
                RecipeOp::Translate { source, offset } => {
                    assert(refs(self.ops@[i as int])[0] == *source);
                    let x = match offset[0].eval(params, arith) {
                        Ok(v) => v,
                        Err(e) => {
                            return Err(e);
                        },
                    };
                    let y = match offset[1].eval(params, arith) {
                        Ok(v) => v,
                        Err(e) => {
                            return Err(e);
                        },
                    };
                    let z = match offset[2].eval(params, arith) {
                        Ok(v) => v,
                        Err(e) => {
                            return Err(e);
                        },
                    };
                    let m = geometry.translate(&results[*source], [x, y, z]);
                    proof {
                        assert(evaluates_to(arith, offset[0], params@, x));
                        assert(evaluates_to(arith, offset[1], params@, y));
                        assert(evaluates_to(arith, offset[2], params@, z));
                        assert(step_made(arith, geometry, csg, params, self.ops@[i as int], results@, m));
                    }
                    m
                },
                RecipeOp::Union { a, b } => {
                    assert(refs(self.ops@[i as int])[0] == *a && refs(self.ops@[i as int])[1] == *b);
                    match csg.union(&results[*a], &results[*b]) {
                        Ok(m) => {
                            proof {
                                assert(step_made(arith, geometry, csg, params, self.ops@[i as int], results@, m));
                            }
                            m
                        },
                        Err(g) => {
                            return Err(FamilyError::Geometry(g));
                        },
                    }
                },
                RecipeOp::Difference { a, b } => {
                    assert(refs(self.ops@[i as int])[0] == *a && refs(self.ops@[i as int])[1] == *b);
                    match csg.difference(&results[*a], &results[*b]) {
                        Ok(m) => {
                            proof {
                                assert(step_made(arith, geometry, csg, params, self.ops@[i as int], results@, m));
                            }
                            m
                        },
                        Err(g) => {
                            return Err(FamilyError::Geometry(g));
                        },
                    }
                },
            };
            let ghost before = results@;
            results.push(mesh);
            proof {
                let s2 = self.ops@.take(i + 1);
                assert forall|k: int| 0 <= k < s2.len() implies step_made(
                    arith,
                    geometry,
                    csg,
                    params,
                    s2[k],
                    results@.take(k),
                    #[trigger] results@[k],
                ) by {
                    if k < i {
                        assert(results@.take(k) =~= before.take(k));
                        assert(s2[k] == self.ops@.take(i as int)[k]);
                        assert(results@[k] == before[k]);
                    } else {
                        assert(results@.take(k) =~= before);
                    }
                }
            }
            proof {
                let s = self.ops@.take(i + 1);
                assert forall|a: int, b: int|
                    #![trigger step_exprs(s[a])[b]]
                    0 <= a < s.len() && 0 <= b < step_exprs(s[a]).len() implies first_fault(eval_order(step_exprs(s[a])[b]), params@) is None by {
                    if a < i {
                        assert(s[a] == self.ops@.take(i as int)[a]);
                    }
                }
            }
            i += 1;
        }
        assert(self.ops@.take(self.ops@.len() as int) =~= self.ops@);
        let ghost all = results@;
        proof {
            assert(meshes_made(arith, geometry, csg, params, self.steps(), all));
        }
        Ok(results.swap_remove(self.output))
    }

    /// Evaluate to an IFC-ready representation.
    ///
    /// A single extrusion goes straight to a swept solid without tessellating at all: the
    /// profile and the depth go into the file. A profile with holes, or a depth that is zero or
    /// not finite, is refused rather than written. Anything else degrades to a triangle set,
    /// visibly, in the variant returned.
    pub fn to_representation<A: Arithmetic, G: RecipeGeometry, C: CsgBackend>(
        &self,
        params: &ParamBag,
        arith: &A,
        geometry: &G,
        csg: &C,
    ) -> (r: Result<Representation, FamilyError>)
        ensures
            r matches Ok(rep) ==> (rep is ExtrudedAreaSolid <==> single_sweep(self.steps())),
            single_sweep(self.steps()) ==> (r matches Ok(rep) ==> (rep matches Representation::ExtrudedAreaSolid {
                direction,
                depth,
                ..
            } && finite(depth) && !zero(depth) && !negative(depth) && (direction == self.steps()[0]->Extrude_direction
                || direction == neg3(self.steps()[0]->Extrude_direction)))),
            single_sweep(self.steps()) && (self.steps()[0]->Extrude_depth matches Expr::Const(v) && (zero(v)
                || !finite(v))) ==> r is Err,
            single_sweep(self.steps()) && !(r matches Err(FamilyError::Geometry(GeometryError::HolesNotSupported(_))))
                ==> (r is Err || exists|outer: Seq<[u64; 2]>, depth: Result<u64, FamilyError>|
                #![trigger sweeps_to(outer, self.steps()[0]->Extrude_direction, depth, r)]
                sweeps_to(outer, self.steps()[0]->Extrude_direction, depth, r) && (self.steps()[0]->Extrude_depth is Const
                    ==> depth == Ok::<u64, FamilyError>(self.steps()[0]->Extrude_depth->Const_0))),
            single_sweep(self.steps()) && self.steps()[0]->Extrude_depth is Const ==> (r matches Ok(
                Representation::ExtrudedAreaSolid { depth, .. },
            ) ==> depth == (if negative(self.steps()[0]->Extrude_depth->Const_0) {
                neg(self.steps()[0]->Extrude_depth->Const_0)
            } else {
                self.steps()[0]->Extrude_depth->Const_0
            })),
            single_sweep(self.steps()) && r is Ok ==> exists|built: G::Profile, outer: Vec<[u64; 2]>, d: u64|
                #![trigger call_ensures(G::build, (geometry, &self.steps()[0]->Extrude_profile, params), Ok::<G::Profile, FamilyError>(built)), call_ensures(G::outer, (geometry, &built), outer), evaluates_to(arith, self.steps()[0]->Extrude_depth, params@, d)]
                call_ensures(
                    G::build,
                    (geometry, &self.steps()[0]->Extrude_profile, params),
                    Ok::<G::Profile, FamilyError>(built),
                ) && call_ensures(G::outer, (geometry, &built), outer) && evaluates_to(
                    arith,
                    self.steps()[0]->Extrude_depth,
                    params@,
                    d,
                ) && sweeps_to(outer@, self.steps()[0]->Extrude_direction, Ok::<u64, FamilyError>(d), r),
            !single_sweep(self.steps()) ==> (r matches Ok(rep) ==> exists|meshes: Seq<IndexedMesh>|
                #[trigger] meshes_made(arith, geometry, csg, params, self.steps(), meshes) && (rep matches Representation::TriangulatedFaceSet {
                    vertices,
                    ..
                } && vertices == meshes[self.output_step()].positions)),
    {
        proof {
            use_type_invariant(self);
        }
        if self.ops.len() == 1 {
            match &self.ops[0] {
                RecipeOp::Extrude { profile, direction, depth } => {
                    let built = match geometry.build(profile, params) {
                        Ok(b) => b,
                        Err(e) => {
                            return Err(e);
                        },
                    };
                    let holes = geometry.holes(&built);
                    if holes > 0 {
                        return Err(FamilyError::Geometry(GeometryError::HolesNotSupported(holes)));
                    }
                    let d = depth.eval(params, arith);
                    proof {
                        if d is Ok {
                            lemma_neg_facts(d->Ok_0);
                        }
                    }
                    let outer = match d {
                        Ok(_) => geometry.outer(&built),
                        Err(_) => Vec::new(),
                    };
                    let ghost kept = outer;
                    let r = sweep_from(outer, *direction, d);
                    proof {
                        if r is Ok {
                            assert(d is Ok);
                            assert(call_ensures(G::outer, (geometry, &built), kept));
                            assert(evaluates_to(arith, self.steps()[0]->Extrude_depth, params@, d->Ok_0));
                        }
                    }
                    return r;
                },
                _ => {},
            }
        }
        let mesh = match self.evaluate(params, arith, geometry, csg) {
            Ok(m) => m,
            Err(e) => {
                return Err(e);
            },
        };
        let mut faces: Vec<[u32; 3]> = Vec::new();
        let mut t: usize = 0;
        while t < mesh.indices.len() / 3
            invariant
                t <= mesh.indices.len() / 3,
            decreases mesh.indices.len() / 3 - t,
        {
            faces.push([mesh.indices[3 * t], mesh.indices[3 * t + 1], mesh.indices[3 * t + 2]]);
            t += 1;
        }
        Ok(Representation::TriangulatedFaceSet { vertices: mesh.positions, faces })
    }
}

}
