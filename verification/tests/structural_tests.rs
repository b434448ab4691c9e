use data_compactor::json::{datum_from_text, datum_to_text};
use data_compactor::structural::DataCompactor;
use data_compactor::value::Datum;
use data_compactor::FidelityMode;

fn word(t: &str) -> String {
    t.to_string()
}

fn read(input: &str) -> Datum {
    datum_from_text(input).expect("test input is JSON")
}

#[test]
fn test_url_compression() {
    let mut compactor = DataCompactor::new();
    let data = read(
        r#"{
            "id": "https://common.terraphim.io/01k2cxga1cqmqsgvqk0enxq8a5",
            "parent": "https://common.terraphim.io/01k2cxg9ndzyyfd357hz7npa38"
        }"#,
    );

    let compacted = compactor.compact_comprehensive_data(&data).unwrap();
    assert!(compacted.stats.urls_compressed > 0);
    assert!(compacted.stats.compression_ratio_ppm() > 0);
}

#[test]
fn sizes_are_those_of_the_input_and_of_the_rewritten_value() {
    let mut compactor = DataCompactor::new();
    let data = read(
        r#"{
            "id": "https://common.terraphim.io/01k2cxga1cqmqsgvqk0enxq8a5",
            "parent": "https://common.terraphim.io/01k2cxg9ndzyyfd357hz7npa38"
        }"#,
    );

    let compacted = compactor.compact_comprehensive_data(&data).unwrap();
    assert_eq!(compacted.stats.urls_compressed, 2);
    assert_eq!(datum_to_text(&data).unwrap().len(), compacted.stats.original_size);
    assert_eq!(datum_to_text(&compacted.data).unwrap(), r#"{"id":1,"parent":2}"#);
    assert_eq!(compacted.stats.compacted_size, 19);
    assert_eq!(compacted.stats.original_size, 129);
    assert_eq!(compacted.stats.compression_ratio_ppm(), 852713);
}

#[test]
fn lib_test_property_abbreviation() {
    let mut compactor = DataCompactor::new();
    let data = read(
        r#"{
            "https://common.terraphim.io/01jxw2jx8qze6yakh4fz24mnhy/property/company-name": "Test Company"
        }"#,
    );

    let compacted = compactor.compact_comprehensive_data(&data).unwrap();
    assert!(compacted.stats.properties_abbreviated > 0);
}

#[test]
fn test_boolean_compression() {
    let mut compactor = DataCompactor::new();
    let data = read(
        r#"{
            "active": true,
            "verified": false
        }"#,
    );

    let compacted = compactor.compact_comprehensive_data(&data).unwrap();
    if let Datum::Object(_) = &compacted.data {
        assert_eq!(compacted.data.get("active"), Some(&Datum::Str("T".to_string())));
        assert_eq!(compacted.data.get("verified"), Some(&Datum::Str("F".to_string())));
    } else {
        panic!("the rewritten value is no object");
    }
}

#[test]
fn records_are_grouped_and_rewritten() {
    let mut compactor = DataCompactor::new();
    let long = "x".repeat(51);
    let data = Datum::Object(vec![
        (word("title"), Datum::Str(word("short"))),
        (
            word("subresources"),
            Datum::Array(vec![
                Datum::Object(vec![
                    (word("resource_type"), Datum::Str(word("https://x.io/class/note-step"))),
                    (
                        word("https://atomicdata.dev/properties/parent"),
                        Datum::Str(word("https://x.io/p")),
                    ),
                    (word("body"), Datum::Str(long.clone())),
                    (word("n"), Datum::Int(3)),
                ]),
                Datum::Object(vec![(word("no_type"), Datum::Null)]),
                Datum::Object(vec![
                    (word("resource_type"), Datum::Str(word("https://x.io/class/note-step"))),
                    (word("body"), Datum::Str(long.clone())),
                ]),
            ]),
        ),
    ]);
    let artifact = compactor.compact_comprehensive_data(&data).unwrap();
    assert_eq!(artifact.fidelity, FidelityMode::Substitution);
    assert_eq!(
        artifact.data,
        Datum::Object(vec![
            (word("title"), Datum::Str(word("short"))),
            (
                word("subresources_grouped"),
                Datum::Object(vec![(
                    word("note"),
                    Datum::Array(vec![
                        Datum::Object(vec![
                            (word("resource_type"), Datum::Int(1)),
                            (word("parent"), Datum::Int(2)),
                            (word("body"), Datum::Int(3)),
                            (word("n"), Datum::Int(3)),
                        ]),
                        Datum::Object(vec![
                            (word("resource_type"), Datum::Int(1)),
                            (word("body"), Datum::Int(3)),
                        ]),
                    ])
                )])
            ),
        ])
    );
    assert_eq!(
        artifact.url_lookup,
        vec![(1, word("https://x.io/class/note-step")), (2, word("https://x.io/p"))]
    );
    assert_eq!(artifact.string_lookup, vec![(3, long.clone())]);
    assert_eq!(artifact.stats.urls_compressed, 2);
    assert_eq!(artifact.stats.strings_compressed, 1);
    assert_eq!(artifact.stats.properties_abbreviated, 1);
    assert_eq!(artifact.property_lookup.len(), 20);

    let back = compactor.decompress(&artifact).unwrap();
    let note = back.get("subresources_grouped").and_then(|g| g.get("note")).unwrap();
    match note {
        Datum::Array(rows) => {
            assert_eq!(rows.len(), 2);
            assert_eq!(
                rows[0].get("https://atomicdata.dev/properties/parent"),
                Some(&Datum::Str(word("https://x.io/p")))
            );
            assert_eq!(rows[0].get("body"), Some(&Datum::Str(long.clone())));
            // The number 3 is taken for the code of the long text.
            assert_eq!(rows[0].get("n"), Some(&Datum::Str(long.clone())));
            assert_eq!(
                rows[1].get("resource_type"),
                Some(&Datum::Str(word("https://x.io/class/note-step")))
            );
        }
        other => panic!("rows are {:?}", other),
    }
    assert_eq!(back.get("subresources"), None);
}

#[test]
fn truth_letters_read_as_truth_values() {
    let compactor = DataCompactor::new();
    let mut writer = DataCompactor::new();
    let artifact =
        writer.compact_comprehensive_data(&read(r#"{"a":true,"b":"T","c":"F","d":[false]}"#)).unwrap();
    let back = compactor.decompress(&artifact).unwrap();
    assert_eq!(back, read(r#"{"a":true,"b":true,"c":false,"d":[false]}"#));
}

#[test]
fn url_test_is_by_scheme() {
    let compactor = DataCompactor::new();
    assert!(compactor.is_url("http://a"));
    assert!(compactor.is_url("https://a"));
    assert!(!compactor.is_url("ftp://a"));
    assert!(!compactor.is_url("http"));
    assert!(!compactor.is_url(""));
}
