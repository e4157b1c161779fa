use cadforge::backend::{BackendCapabilities, IfcBackend, IfcError, ImportReport, ImportWarning, UnimplementedBackend};
use cadforge::element::IfcClass;
use cadforge::id::GlobalId;
use cadforge::model::Model;
use cadforge::reader::class_of;
use cadforge::schema::IfcSchema;
use cadforge::spf::{civil_from_days, fnv1a, iso8601_at, text, ExportContext, SpfBackend, Writer};

const HEADER: &str = "ISO-10303-21;\n\
HEADER;\n\
FILE_DESCRIPTION(('ViewDefinition [CoordinationView]'),'2;1');\n\
FILE_NAME('example.ifc','2026-08-25T09:00:00',(''),(''),'','','');\n\
FILE_SCHEMA(('IFC4'));\n\
ENDSEC;\n";

// ---- schema ----------------------------------------------------------------------------

#[test]
fn detects_a_normal_header() {
    assert_eq!(IfcSchema::detect(HEADER).unwrap(), IfcSchema::Ifc4);
}

#[test]
fn ifc4x3_is_not_mistaken_for_ifc4() {
    let header = HEADER.replace("IFC4", "IFC4X3_ADD2");
    assert_eq!(IfcSchema::detect(&header).unwrap(), IfcSchema::Ifc4x3);
}

#[test]
fn real_world_schema_variants_are_tolerated() {
    assert_eq!(IfcSchema::from_identifier("'IFC2X3_TC1'"), Some(IfcSchema::Ifc2x3));
    assert_eq!(IfcSchema::from_identifier(" ifc4 "), Some(IfcSchema::Ifc4));
    assert_eq!(IfcSchema::from_identifier("IFC4X3_ADD2"), Some(IfcSchema::Ifc4x3));
    assert_eq!(IfcSchema::from_identifier("STEP"), None);
}

#[test]
fn a_missing_or_broken_header_is_an_error_not_a_guess() {
    assert_eq!(IfcSchema::detect("not an ifc file"), Err(IfcError::UnknownSchema));
    assert_eq!(
        IfcSchema::detect("FILE_SCHEMA(('SOMETHING_ELSE'));"),
        Err(IfcError::UnknownSchema)
    );
    assert_eq!(IfcSchema::detect("FILE_SCHEMA(('IFC4'"), Err(IfcError::UnknownSchema));
}

#[test]
fn detection_is_case_insensitive() {
    assert_eq!(IfcSchema::detect("file_schema(('ifc4'));").unwrap(), IfcSchema::Ifc4);
}

#[test]
fn ifc5_serialises_as_ifcx_not_step() {
    assert!(IfcSchema::Ifc4.is_step());
    assert_eq!(IfcSchema::Ifc4.extension(), "ifc");
    assert!(!IfcSchema::Ifc5.is_step());
    assert_eq!(IfcSchema::Ifc5.extension(), "ifcx");
}

#[test]
fn the_first_schema_in_the_list_wins() {
    assert_eq!(IfcSchema::detect("FILE_SCHEMA(('STEP','IFC2X3'));").unwrap(), IfcSchema::Ifc2x3);
    assert_eq!(IfcSchema::detect("FILE_SCHEMA(('IFC5','IFC4'));").unwrap(), IfcSchema::Ifc5);
    assert_eq!(IfcSchema::from_identifier("(\u{a0}\"ifc5\")"), Some(IfcSchema::Ifc5));
    assert_eq!(IfcSchema::Ifc4x3.header_name(), "IFC4X3");
}

// ---- backend ---------------------------------------------------------------------------

struct ReadOnly;

impl IfcBackend for ReadOnly {
    fn name(&self) -> &'static str {
        "read-only"
    }

    fn capabilities(&self) -> BackendCapabilities {
        BackendCapabilities {
            reads: vec![IfcSchema::Ifc2x3, IfcSchema::Ifc4],
            writes: Vec::new(),
            geometry: true,
            mobile: true,
        }
    }

    fn read(&self, _bytes: &[u8], _model: &mut Model) -> Result<ImportReport, IfcError> {
        Ok(ImportReport {
            schema: IfcSchema::Ifc4,
            elements: 0,
            warnings: Vec::new(),
            geometry_failures: 0,
        })
    }

    fn write(&self, _model: &Model, schema: IfcSchema) -> Result<Vec<u8>, IfcError> {
        self.check_can_write(schema)?;
        unreachable!("the guard above always rejects")
    }
}

#[test]
fn the_default_backend_refuses_rather_than_pretending() {
    let mut model = Model::new();
    assert_eq!(UnimplementedBackend.read(b"", &mut model), Err(IfcError::NoBackend));
    assert_eq!(UnimplementedBackend.write(&model, IfcSchema::Ifc4), Err(IfcError::NoBackend));
    assert!(model.is_empty(), "a failed read must not half-populate the model");
}

#[test]
fn a_read_only_backend_reports_itself_as_read_only() {
    let backend = ReadOnly;
    assert_eq!(
        backend.write(&Model::new(), IfcSchema::Ifc4),
        Err(IfcError::ReadOnlyBackend { backend: "read-only" })
    );
}

#[test]
fn capabilities_are_queryable_before_an_operation_is_offered() {
    let caps = ReadOnly.capabilities();
    assert!(caps.can_read(IfcSchema::Ifc4));
    assert!(!caps.can_read(IfcSchema::Ifc5));
    assert!(!caps.can_write(IfcSchema::Ifc4));
    assert!(caps.mobile);
}

#[test]
fn an_import_report_distinguishes_clean_from_survivable() {
    let clean = ImportReport {
        schema: IfcSchema::Ifc4,
        elements: 12,
        warnings: Vec::new(),
        geometry_failures: 0,
    };
    assert!(clean.is_clean());

    let messy = ImportReport {
        schema: IfcSchema::Ifc2x3,
        elements: 12,
        warnings: vec![ImportWarning::DuplicateGlobalId(GlobalId::new())],
        geometry_failures: 1,
    };
    assert!(!messy.is_clean(), "a duplicate GlobalId must not pass silently");
}

#[test]
fn a_writer_that_writes_another_schema_is_refused_by_schema() {
    let caps = BackendCapabilities {
        reads: Vec::new(),
        writes: vec![IfcSchema::Ifc4],
        geometry: false,
        mobile: false,
    };
    assert_eq!(cadforge::backend::check_write(&caps, "w", IfcSchema::Ifc4), Ok(()));
    assert_eq!(
        cadforge::backend::check_write(&caps, "w", IfcSchema::Ifc2x3),
        Err(IfcError::UnsupportedSchema { backend: "w", schema: IfcSchema::Ifc2x3 })
    );
    assert_eq!(
        cadforge::backend::check_write(&BackendCapabilities::none(), "w", IfcSchema::Ifc4),
        Err(IfcError::ReadOnlyBackend { backend: "w" })
    );
}

// ---- reader ----------------------------------------------------------------------------

#[test]
fn an_unmodelled_class_keeps_its_entity_name() {
    assert_eq!(class_of("IFCWALL"), IfcClass::Wall);
    assert_eq!(class_of("IFCWALLSTANDARDCASE"), IfcClass::Wall);

    let IfcClass::Other(name) = class_of("IFCGEOGRAPHICELEMENT") else {
        panic!("expected Other");
    };
    assert_eq!(name, "IfcGeographicElement", "casing should be canonical");

    let IfcClass::Other(name) = class_of("IFCTOTALLYMADEUPTHING") else {
        panic!("expected Other");
    };
    assert_eq!(name, "IFCTOTALLYMADEUPTHING", "unknown names stay verbatim");
}

// ---- writer ----------------------------------------------------------------------------

#[test]
fn synthesised_identities_are_derived_not_random() {
    let context = ExportContext::named("Stable");
    let a = Writer::new(&context).synthetic("project");
    let b = Writer::new(&context).synthetic("project");
    assert_eq!(a, b);

    let mut writer = Writer::new(&context);
    let first = writer.synthetic("project");
    let second = writer.synthetic("project");
    assert_ne!(first, second);
    assert_ne!(
        Writer::new(&context).synthetic("project"),
        Writer::new(&ExportContext::named("Other")).synthetic("project")
    );
}

#[test]
fn strings_are_escaped_to_the_step_rules() {
    assert_eq!(text("plain"), "'plain'");
    assert_eq!(text("it's"), "'it''s'");
    assert_eq!(text("a\\b"), "'a\\\\b'");
    assert_eq!(text("café"), "'caf\\X2\\00E9\\X0\\'");
    assert_eq!(text(""), "''");
}

#[test]
fn runs_of_escaped_characters_share_one_escape_and_astral_characters_use_surrogates() {
    assert_eq!(text("ÅÄ"), "'\\X2\\00C500C4\\X0\\'");
    assert_eq!(text("a\u{1F600}b"), "'a\\X2\\D83DDE00\\X0\\b'");
    assert_eq!(text("tab\there"), "'tab\\X2\\0009\\X0\\here'");
}

#[test]
fn the_civil_calendar_conversion_is_correct() {
    assert_eq!(civil_from_days(0), (1970, 1, 1));
    assert_eq!(civil_from_days(19_000), (2022, 1, 8));
    assert_eq!(civil_from_days(18_321), (2020, 2, 29));
    assert_eq!(civil_from_days(-1), (1969, 12, 31));
}

#[test]
fn timestamps_are_formatted_to_the_second() {
    assert_eq!(iso8601_at(0), "1970-01-01T00:00:00");
    assert_eq!(iso8601_at(1_641_600_000 + 3_723), "2022-01-08T01:02:03");
    assert_eq!(iso8601_at(-1), "1969-12-31T23:59:59");
}

#[test]
fn fnv1a_matches_the_published_values() {
    assert_eq!(fnv1a(b""), 0xcbf2_9ce4_8422_2325);
    assert_eq!(fnv1a(b"a"), 0xaf63_dc4c_8601_ec8c);
    assert_eq!(fnv1a(b"foobar"), 0x8594_4171_f739_67e8);
}

#[test]
fn entities_are_numbered_in_order_and_identical_primitives_shared() {
    let context = ExportContext::named("P").at("2026-01-01T00:00:00");
    let mut writer = Writer::new(&context);
    assert_eq!(writer.add("IFCSIUNIT(*,.LENGTHUNIT.,$,.METRE.)".to_string()), 1);
    assert_eq!(writer.intern("IFCDIRECTION((0.,0.,1.))".to_string()), 2);
    assert_eq!(writer.intern("IFCDIRECTION((0.,0.,1.))".to_string()), 2);
    assert_eq!(writer.add("IFCDIRECTION((0.,0.,1.))".to_string()), 3);
    let file = writer.finish();
    assert!(file.starts_with("ISO-10303-21;\nHEADER;\n"));
    assert!(file.contains("FILE_NAME('P.ifc','2026-01-01T00:00:00',(''),(''),'CADForge 0.1.0','CADForge','');\n"));
    assert!(file.contains("FILE_SCHEMA(('IFC4'));\nENDSEC;\nDATA;\n#1=IFCSIUNIT(*,.LENGTHUNIT.,$,.METRE.);\n#2=IFCDIRECTION((0.,0.,1.));\n#3="));
    assert!(file.ends_with("ENDSEC;\nEND-ISO-10303-21;\n"));
}

#[test]
fn the_writer_refuses_to_read() {
    let mut model = Model::new();
    let backend = SpfBackend::default();
    assert_eq!(
        backend.read(b"anything", &mut model),
        Err(IfcError::WriteOnlyBackend { backend: "spf-writer" })
    );
    assert!(!backend.capabilities().can_read(IfcSchema::Ifc4));
    assert!(backend.capabilities().can_write(IfcSchema::Ifc4));
}
