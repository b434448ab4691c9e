use data_compactor::columnar::{Cell, FieldType};
use data_compactor::efficient_compactor::{CompressionStats, EfficientCompactor};
use data_compactor::error::{CompactError, DecodeError};
use data_compactor::fields::FieldAbbreviator;
use data_compactor::json::datum_from_text;
use data_compactor::value::Datum;

fn s(t: &str) -> String {
    t.to_string()
}

fn parse(text: &str) -> Datum {
    datum_from_text(text).expect("test input is JSON")
}

fn field<'a>(record: &'a Datum, key: &str) -> Option<&'a Datum> {
    record.get(key)
}

fn same_value(a: &Datum, b: &Datum) -> bool {
    match (a, b) {
        (Datum::Array(x), Datum::Array(y)) => {
            x.len() == y.len() && x.iter().zip(y.iter()).all(|(p, q)| same_value(p, q))
        }
        (Datum::Object(x), Datum::Object(y)) => {
            x.len() == y.len()
                && x.iter().all(|(k, v)| match b.get(k) {
                    Some(w) => same_value(v, w),
                    None => false,
                })
        }
        _ => a == b,
    }
}

fn assert_same_records(a: &Datum, b: &Datum) {
    let (x, y) = (records_of(a), records_of(b));
    assert_eq!(x.len(), y.len());
    for record in x {
        assert!(y.iter().any(|other| same_value(record, other)), "{:?} is missing", record);
    }
}

fn records_of(data: &Datum) -> &Vec<Datum> {
    match data.get("subresources") {
        Some(Datum::Array(items)) => items,
        _ => panic!("no subresources"),
    }
}

fn redundant_input() -> Datum {
    parse(
        r#"{
            "subresources": [
                {
                    "url": "https://common.terraphim.io/01k2cxga1cqmqsgvqk0enxq8a5",
                    "resource_type": "https://common.terraphim.io/01jxw2jx8qze6yakh4fz24mnhy/class/company-information-and-history-step",
                    "json_format": "{\"@id\": \"https://common.terraphim.io/01k2cxga1cqmqsgvqk0enxq8a5\", \"https://common.terraphim.io/01jxw2jx8qze6yakh4fz24mnhy/property/company-name\": \"EcoBright Solutions Uganda Limited\"}",
                    "https://common.terraphim.io/01jxw2jx8qze6yakh4fz24mnhy/property/company-name": "EcoBright Solutions Uganda Limited",
                    "https://common.terraphim.io/01jxw2jx8qze6yakh4fz24mnhy/property/year-of-incorporation": 2020,
                    "https://atomicdata.dev/properties/isA": ["https://common.terraphim.io/01jxw2jx8qze6yakh4fz24mnhy/class/company-information-and-history-step"]
                },
                {
                    "url": "https://common.terraphim.io/01k2cxga6pywwjg8yc2m6b1jzz",
                    "resource_type": "https://common.terraphim.io/01jxw2jx8qze6yakh4fz24mnhy/class/management-governance-and-ownership",
                    "json_format": "{\"@id\": \"https://common.terraphim.io/01k2cxga6pywwjg8yc2m6b1jzz\", \"https://common.terraphim.io/01jxw2jx8qze6yakh4fz24mnhy/property/company-name\": \"EcoBright Solutions Uganda Limited\"}",
                    "https://common.terraphim.io/01jxw2jx8qze6yakh4fz24mnhy/property/company-name": "EcoBright Solutions Uganda Limited",
                    "https://common.terraphim.io/01jxw2jx8qze6yakh4fz24mnhy/property/year-of-incorporation": 2020,
                    "https://atomicdata.dev/properties/isA": ["https://common.terraphim.io/01jxw2jx8qze6yakh4fz24mnhy/class/management-governance-and-ownership"]
                }
            ]
        }"#,
    )
}

#[test]
fn run_on_two_groups_counts_what_it_interned() {
    let mut compactor = EfficientCompactor::new();
    let test_data = redundant_input();

    let result = compactor.compact_comprehensive_data(&test_data).unwrap();

    assert_eq!(result.stats.original_size, 1496);
    assert_eq!(
        result.stats.compression_ratio_ppm() > 0,
        result.stats.compacted_size < result.stats.original_size
    );

    assert!(result.stats.urls_deduplicated > 0, "Should deduplicate URLs");
    assert!(result.stats.strings_deduplicated > 0, "Should deduplicate strings");
    assert!(result.stats.properties_abbreviated > 0, "Should abbreviate properties");
    assert_eq!(result.stats.urls_deduplicated, 4);
    assert_eq!(result.stats.resources_processed, 2);

    assert!(!result.schema.resource_types.is_empty(), "Should have resource type schemas");
    assert!(!result.dictionaries.urls.is_empty(), "Should have URL dictionary");
    assert!(!result.dictionaries.strings.is_empty(), "Should have string dictionary");
}

#[test]
fn test_data_reconstruction() {
    let mut compactor = EfficientCompactor::new();

    let original_data = parse(
        r#"{
            "subresources": [
                {
                    "url": "https://example.com/1",
                    "resource_type": "https://common.terraphim.io/01jxw2jx8qze6yakh4fz24mnhy/class/company-information-and-history-step",
                    "https://common.terraphim.io/01jxw2jx8qze6yakh4fz24mnhy/property/company-name": "Test Company",
                    "https://common.terraphim.io/01jxw2jx8qze6yakh4fz24mnhy/property/year-of-incorporation": 2020
                }
            ]
        }"#,
    );

    let compacted = compactor.compact_comprehensive_data(&original_data).unwrap();
    let reconstructed = EfficientCompactor::reconstruct_data(&compacted).unwrap();

    let original_resources = records_of(&original_data);
    let reconstructed_resources = records_of(&reconstructed);

    assert_eq!(original_resources.len(), reconstructed_resources.len());

    let recon_resource = &reconstructed_resources[0];

    assert!(
        field(
            recon_resource,
            "https://common.terraphim.io/01jxw2jx8qze6yakh4fz24mnhy/property/company-name"
        )
        .is_some()
            || field(recon_resource, "cn").is_some(),
        "Company name should be preserved"
    );

    assert!(
        field(
            recon_resource,
            "https://common.terraphim.io/01jxw2jx8qze6yakh4fz24mnhy/property/year-of-incorporation"
        )
        .is_some()
            || field(recon_resource, "yi").is_some(),
        "Year should be preserved"
    );
}

fn check_property_abbreviation() {
    let compactor = EfficientCompactor::new();
    let mut stats = CompressionStats {
        original_size: 0,
        compacted_size: 0,
        urls_deduplicated: 0,
        strings_deduplicated: 0,
        properties_abbreviated: 0,
        resources_processed: 0,
    };

    let abbreviated =
        compactor.abbreviate_property("https://atomicdata.dev/properties/isA", &mut stats);

    assert_eq!(abbreviated, "t");
    assert_eq!(stats.properties_abbreviated, 1);
}

#[test]
fn efficient_compactor_test_property_abbreviation() {
    check_property_abbreviation();
}

#[test]
fn efficient_compactor_test_test_property_abbreviation() {
    check_property_abbreviation();
}

fn check_field_type_inference() {
    let compactor = EfficientCompactor::new();

    assert!(matches!(
        compactor.infer_field_type(&parse("\"https://example.com\"")),
        FieldType::Url
    ));
    assert!(matches!(compactor.infer_field_type(&parse("\"regular string\"")), FieldType::Str));
    assert!(matches!(compactor.infer_field_type(&parse("42")), FieldType::Int));
    assert!(matches!(compactor.infer_field_type(&parse("3.14")), FieldType::Float));
    assert!(matches!(compactor.infer_field_type(&parse("true")), FieldType::Bool));
    assert!(matches!(compactor.infer_field_type(&parse("{\"key\": \"value\"}")), FieldType::Json));
    assert!(matches!(compactor.infer_field_type(&parse("[1, 2, 3]")), FieldType::Json));
}

#[test]
fn efficient_compactor_test_field_type_inference() {
    check_field_type_inference();
}

#[test]
fn efficient_compactor_test_test_field_type_inference() {
    check_field_type_inference();
}

#[test]
fn type_classification_of_each_shape() {
    let compactor = EfficientCompactor::new();
    assert_eq!(compactor.infer_field_type(&Datum::Str(s("https://x"))), FieldType::Url);
    assert_eq!(compactor.infer_field_type(&Datum::Str(s("http://x"))), FieldType::Url);
    assert_eq!(compactor.infer_field_type(&Datum::Str(s("plain text"))), FieldType::Str);
    assert_eq!(compactor.infer_field_type(&Datum::Int(42)), FieldType::Int);
    assert_eq!(compactor.infer_field_type(&Datum::Float(s("3.14"))), FieldType::Float);
    assert_eq!(compactor.infer_field_type(&Datum::Bool(true)), FieldType::Bool);
    assert_eq!(compactor.infer_field_type(&Datum::Bool(false)), FieldType::Bool);
    assert_eq!(compactor.infer_field_type(&parse("[1,2,3]")), FieldType::Json);
    assert_eq!(compactor.infer_field_type(&parse("{\"a\":1}")), FieldType::Json);
    assert_eq!(compactor.infer_field_type(&Datum::Null), FieldType::Str);
    assert_eq!(compactor.infer_field_type(&Datum::Str(s("httpx"))), FieldType::Str);
}

fn two_linked_records(type_id: &str) -> Datum {
    let record = || {
        Datum::Object(vec![
            (s("resource_type"), Datum::Str(s(type_id))),
            (s("p"), Datum::Str(s("https://u1"))),
        ])
    };
    Datum::Object(vec![(s("subresources"), Datum::Array(vec![record(), record()]))])
}

#[test]
fn long_type_identifier_is_written_once_and_saves_space() {
    let type_id = format!("https://example.org/{}/class/a-step", "segment/".repeat(80));
    let data = two_linked_records(&type_id);
    let mut compactor = EfficientCompactor::new();
    let artifact = compactor.compact_comprehensive_data(&data).unwrap();
    assert_eq!(artifact.data.resources.len(), 1);
    assert_eq!(artifact.data.resources[0].0, "a");
    assert_eq!(artifact.dictionaries.urls, vec![type_id.clone(), s("https://u1")]);
    assert!(artifact.stats.compacted_size < artifact.stats.original_size);
    assert!(artifact.stats.compression_ratio_ppm() > 0);
    let back = EfficientCompactor::reconstruct_data(&artifact).unwrap();
    let records = records_of(&back);
    assert_eq!(records.len(), 2);
    for record in records {
        assert_eq!(field(record, "p"), Some(&Datum::Str(s("https://u1"))));
        assert_eq!(field(record, "resource_type"), Some(&Datum::Str(type_id.clone())));
    }
}

#[test]
fn two_records_share_one_url_entry() {
    let data = two_linked_records(
        "https://common.terraphim.io/01jxw2jx8qze6yakh4fz24mnhy/class/a-step",
    );
    let mut compactor = EfficientCompactor::new();
    let artifact = compactor.compact_comprehensive_data(&data).unwrap();
    assert_eq!(artifact.data.resources.len(), 1);
    assert_eq!(artifact.data.resources[0].0, "a");
    assert_eq!(artifact.data.resources[0].1.count, 2);
    let u1_entries =
        artifact.dictionaries.urls.iter().filter(|u| u.as_str() == "https://u1").count();
    assert_eq!(u1_entries, 1);
    assert_eq!(
        artifact.dictionaries.urls,
        vec![
            s("https://common.terraphim.io/01jxw2jx8qze6yakh4fz24mnhy/class/a-step"),
            s("https://u1")
        ]
    );
    assert_eq!(artifact.stats.urls_deduplicated, 2);
    assert_eq!(artifact.stats.resources_processed, 2);
    println!("{} -> {}", artifact.stats.original_size, artifact.stats.compacted_size);
    let back = EfficientCompactor::reconstruct_data(&artifact).unwrap();
    let records = records_of(&back);
    assert_eq!(records.len(), 2);
    for record in records {
        assert_eq!(field(record, "p"), Some(&Datum::Str(s("https://u1"))));
    }
    assert_same_records(&back, &data);
}

#[test]
fn every_column_has_the_length_of_its_group() {
    let mut compactor = EfficientCompactor::new();
    let artifact = compactor.compact_comprehensive_data(&redundant_input()).unwrap();
    assert_eq!(artifact.data.resources.len(), 2);
    for (_, group) in &artifact.data.resources {
        assert_eq!(group.count, 1);
        for column in &group.columns {
            assert_eq!(column.cells.len(), group.count);
        }
    }
}

#[test]
fn identical_long_text_is_counted_once() {
    let long = "a long text that is repeated in two records of the same group, word for word";
    let data = Datum::Object(vec![(
        s("subresources"),
        Datum::Array(vec![
            Datum::Object(vec![
                (s("resource_type"), Datum::Str(s("x/report"))),
                (s("body"), Datum::Str(s(long))),
            ]),
            Datum::Object(vec![
                (s("resource_type"), Datum::Str(s("x/report"))),
                (s("body"), Datum::Str(s(long))),
            ]),
        ]),
    )]);
    let mut compactor = EfficientCompactor::new();
    let artifact = compactor.compact_comprehensive_data(&data).unwrap();
    assert_eq!(artifact.dictionaries.strings, vec![s("x/report"), s(long)]);
    assert_eq!(artifact.stats.strings_deduplicated, 2);
    assert_eq!(artifact.stats.urls_deduplicated, 0);
    let body = &artifact.data.resources[0].1.columns[1];
    assert_eq!(body.name, "body");
    assert_eq!(body.cells, vec![Cell::Code(2), Cell::Code(2)]);
}

#[test]
fn optional_field_stays_missing() {
    let data = parse(
        r#"{"subresources":[
            {"resource_type":"x/thing","name":"one","extra":7},
            {"resource_type":"x/thing","name":"two"}
        ]}"#,
    );
    let mut compactor = EfficientCompactor::new();
    let artifact = compactor.compact_comprehensive_data(&data).unwrap();
    let schema = &artifact.schema.resource_types[0].1;
    assert_eq!(schema.required, vec![s("name"), s("resource_type")]);
    assert_eq!(schema.optional, vec![s("extra")]);
    let back = EfficientCompactor::reconstruct_data(&artifact).unwrap();
    let records = records_of(&back);
    assert_eq!(field(&records[0], "extra"), Some(&Datum::Int(7)));
    assert_eq!(field(&records[1], "extra"), None);
    assert_same_records(&back, &data);
}

#[test]
fn missing_truth_value_reads_false() {
    let data = parse(
        r#"{"subresources":[
            {"resource_type":"x/thing","done":true},
            {"resource_type":"x/thing"}
        ]}"#,
    );
    let mut compactor = EfficientCompactor::new();
    let artifact = compactor.compact_comprehensive_data(&data).unwrap();
    let done = &artifact.data.resources[0].1.columns[0];
    assert_eq!(done.name, "done");
    assert_eq!(done.field_type, FieldType::Bool);
    assert_eq!(done.cells, vec![Cell::Bool(true), Cell::Bool(false)]);
    let back = EfficientCompactor::reconstruct_data(&artifact).unwrap();
    assert_eq!(field(&records_of(&back)[1], "done"), Some(&Datum::Bool(false)));
}

#[test]
fn first_record_fixes_the_column_type() {
    let data = parse(
        r#"{"subresources":[
            {"resource_type":"x/thing","n":1},
            {"resource_type":"x/thing","n":"text"},
            {"resource_type":"x/thing","n":2.5}
        ]}"#,
    );
    let mut compactor = EfficientCompactor::new();
    let artifact = compactor.compact_comprehensive_data(&data).unwrap();
    let n = &artifact.data.resources[0].1.columns[0];
    assert_eq!(n.field_type, FieldType::Int);
    assert_eq!(n.cells, vec![Cell::Int(1), Cell::Null, Cell::Null]);
}

#[test]
fn record_without_type_is_left_out() {
    let data = parse(r#"{"subresources":[{"name":"no type"},{"resource_type":"x/a","name":"typed"}, 5]}"#);
    let mut compactor = EfficientCompactor::new();
    let artifact = compactor.compact_comprehensive_data(&data).unwrap();
    assert_eq!(artifact.stats.resources_processed, 1);
    assert_eq!(artifact.data.resources.len(), 1);
    assert_eq!(artifact.data.resources[0].1.count, 1);
}

#[test]
fn input_without_records_gives_empty_artifact() {
    let mut compactor = EfficientCompactor::new();
    let artifact = compactor.compact_comprehensive_data(&parse("{\"other\":1}")).unwrap();
    assert!(artifact.data.resources.is_empty());
    assert_eq!(artifact.stats.original_size, 11);
    assert!(artifact.stats.compacted_size >= artifact.stats.original_size);
    assert!(artifact.stats.compression_ratio_ppm() <= 0);
    let back = EfficientCompactor::reconstruct_data(&artifact).unwrap();
    assert_eq!(back, parse("{\"subresources\":[]}"));
}

#[test]
fn abbreviated_keys_are_given_back() {
    let data = parse(
        r#"{"subresources":[
            {"resource_type":"https://x.io/class/company-step",
             "https://atomicdata.dev/properties/parent":"https://x.io/p",
             "https://common.terraphim.io/01jxw2jx8qze6yakh4fz24mnhy/property/company-name":"Acme",
             "tags":["a",{"b":1.5}],
             "size":-3,
             "rate":0.25}
        ]}"#,
    );
    let mut compactor = EfficientCompactor::new();
    let artifact = compactor.compact_comprehensive_data(&data).unwrap();
    let names: Vec<&str> =
        artifact.data.resources[0].1.columns.iter().map(|c| c.name.as_str()).collect();
    assert_eq!(names, vec!["p", "cn", "rate", "resource_type", "size", "tags"]);
    assert_eq!(
        artifact.dictionaries.properties,
        vec![
            (s("p"), s("https://atomicdata.dev/properties/parent")),
            (
                s("cn"),
                s("https://common.terraphim.io/01jxw2jx8qze6yakh4fz24mnhy/property/company-name")
            ),
        ]
    );
    assert_eq!(artifact.stats.properties_abbreviated, 2);
    assert_eq!(artifact.data.resources[0].0, "company");
    let back = EfficientCompactor::reconstruct_data(&artifact).unwrap();
    assert_same_records(&back, &data);
}

#[test]
fn dictionary_exhaustion_is_reported() {
    let mut records = Vec::new();
    for i in 0..65_536u32 {
        records.push(Datum::Object(vec![
            (s("resource_type"), Datum::Str(s("t"))),
            (s("v"), Datum::Str(format!("text {}", i))),
        ]));
    }
    let data = Datum::Object(vec![(s("subresources"), Datum::Array(records))]);
    let mut compactor = EfficientCompactor::new();
    assert_eq!(
        compactor.compact_comprehensive_data(&data),
        Err(CompactError::DictionaryExhausted)
    );
}

#[test]
fn input_with_a_number_that_is_none_is_rejected() {
    let data = Datum::Object(vec![(s("n"), Datum::Float(s("not a number")))]);
    let mut compactor = EfficientCompactor::new();
    assert_eq!(compactor.compact_comprehensive_data(&data), Err(CompactError::Serialization));
}

#[test]
fn broken_artifacts_are_rejected() {
    let data = parse(r#"{"subresources":[{"resource_type":"x/thing","name":"one","n":1}]}"#);
    let mut compactor = EfficientCompactor::new();

    let mut short = compactor.compact_comprehensive_data(&data).unwrap();
    short.data.resources[0].1.columns[0].cells.clear();
    assert_eq!(EfficientCompactor::reconstruct_data(&short), Err(DecodeError::ColumnLength));

    let mut mistyped = compactor.compact_comprehensive_data(&data).unwrap();
    mistyped.data.resources[0].1.columns[0].cells[0] = Cell::Bool(true);
    assert_eq!(EfficientCompactor::reconstruct_data(&mistyped), Err(DecodeError::CellType));

    let mut dangling = compactor.compact_comprehensive_data(&data).unwrap();
    assert_eq!(dangling.data.resources[0].1.columns[1].name, "name");
    dangling.data.resources[0].1.columns[1].cells[0] = Cell::Code(99);
    assert_eq!(EfficientCompactor::reconstruct_data(&dangling), Err(DecodeError::UnknownCode));
}

#[test]
fn written_form_names_its_parts() {
    let data = parse(r#"{"subresources":[{"resource_type":"x/thing","https://atomicdata.dev/properties/isA":"y"}]}"#);
    let mut compactor = EfficientCompactor::new();
    let artifact = compactor.compact_comprehensive_data(&data).unwrap();
    let written = artifact.to_datum();
    for key in ["schema", "data", "dictionaries", "field_name_table", "stats", "fidelity"] {
        assert!(written.get(key).is_some(), "{} is missing", key);
    }
    assert_eq!(written.get("fidelity"), Some(&Datum::Str(s("columnar"))));
    assert_eq!(
        written.get("field_name_table"),
        Some(&Datum::Object(vec![(
            s("t"),
            Datum::Str(s("https://atomicdata.dev/properties/isA"))
        )]))
    );
}

#[test]
fn type_tag_is_the_last_segment_without_its_step_suffix() {
    let compactor = EfficientCompactor::new();
    assert_eq!(
        compactor.extract_type_name(
            "https://common.terraphim.io/01jxw2jx8qze6yakh4fz24mnhy/class/company-information-and-history-step"
        ),
        "company_information_and_history"
    );
    assert_eq!(compactor.extract_type_name("x/class/a-step"), "a");
    assert_eq!(compactor.extract_type_name("no-slash"), "no_slash");
    assert_eq!(compactor.extract_type_name("a/b/"), "");
    assert_eq!(compactor.extract_type_name(""), "");
    assert_eq!(compactor.extract_type_name("x/-step"), "");
    // Only a suffix is taken off, and only once.
    assert_eq!(compactor.extract_type_name("x/two-step-form"), "two_step_form");
    assert_eq!(compactor.extract_type_name("x/a-step-step"), "a_step");
    assert_eq!(compactor.extract_type_name("x/step"), "step");
}

#[test]
fn abbreviations_of_the_caller_are_used_and_written_down() {
    let mut table = FieldAbbreviator::new();
    assert!(table.add("https://example.org/property/long-key", "lk"));
    assert!(!table.add("https://example.org/property/long-key", "other"));
    assert!(!table.add("https://example.org/property/second", "lk"));
    let mut compactor = EfficientCompactor::with_abbreviations(table);
    let data = parse(
        r#"{"subresources":[
            {"resource_type":"https://example.org/class/thing",
             "https://example.org/property/long-key":"plain",
             "https://atomicdata.dev/properties/parent":"https://example.org/up"}]}"#,
    );
    let artifact = compactor.compact_comprehensive_data(&data).unwrap();
    assert_eq!(artifact.data.resources.len(), 1);
    let names: Vec<&str> =
        artifact.data.resources[0].1.columns.iter().map(|c| c.name.as_str()).collect();
    assert!(names.contains(&"lk"));
    // The table of the caller stands in place of the built-in one.
    assert!(names.contains(&"https://atomicdata.dev/properties/parent"));
    assert!(artifact
        .dictionaries
        .properties
        .contains(&(s("lk"), s("https://example.org/property/long-key"))));
    assert_eq!(artifact.stats.properties_abbreviated, 1);

    let back = EfficientCompactor::reconstruct_data(&artifact).unwrap();
    let records = records_of(&back);
    assert_eq!(records.len(), 1);
    assert_eq!(
        field(&records[0], "https://example.org/property/long-key"),
        Some(&Datum::Str(s("plain")))
    );
    assert_eq!(
        field(&records[0], "https://atomicdata.dev/properties/parent"),
        Some(&Datum::Str(s("https://example.org/up")))
    );
}
