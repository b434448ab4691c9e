use data_compactor::error::CompactError;
use data_compactor::json::datum_from_text;
use data_compactor::truly_efficient_compactor::{
    CompactFormat, CompactStats, Schema, TrulyEfficientCompactor,
};
use data_compactor::value::Datum;
use data_compactor::FidelityMode;

fn text(t: &str) -> String {
    t.to_string()
}

fn json(input: &str) -> Datum {
    datum_from_text(input).expect("test input is JSON")
}

fn subresources(data: &Datum) -> &Vec<Datum> {
    match data.get("subresources") {
        Some(Datum::Array(items)) => items,
        _ => panic!("no subresources"),
    }
}

#[test]
fn test_aggressive_compaction() {
    let mut compactor = TrulyEfficientCompactor::new();

    let test_data = json(
        r#"{
            "subresources": [
                {
                    "url": "https://common.terraphim.io/01k2cxga1cqmqsgvqk0enxq8a5",
                    "resource_type": "https://common.terraphim.io/01jxw2jx8qze6yakh4fz24mnhy/class/company-information-and-history-step",
                    "json_format": "very long JSON string that should be compressed because it's over 50 characters long and contains repeated information",
                    "https://common.terraphim.io/01jxw2jx8qze6yakh4fz24mnhy/property/company-name": "EcoBright Solutions Uganda Limited",
                    "https://common.terraphim.io/01jxw2jx8qze6yakh4fz24mnhy/property/year-of-incorporation": 2020,
                    "https://atomicdata.dev/properties/isA": ["https://common.terraphim.io/01jxw2jx8qze6yakh4fz24mnhy/class/company-information-and-history-step"]
                },
                {
                    "url": "https://common.terraphim.io/01k2cxga6pywwjg8yc2m6b1jzz",
                    "resource_type": "https://common.terraphim.io/01jxw2jx8qze6yakh4fz24mnhy/class/company-information-and-history-step",
                    "json_format": "very long JSON string that should be compressed because it's over 50 characters long and contains repeated information",
                    "https://common.terraphim.io/01jxw2jx8qze6yakh4fz24mnhy/property/company-name": "EcoBright Solutions Uganda Limited",
                    "https://common.terraphim.io/01jxw2jx8qze6yakh4fz24mnhy/property/year-of-incorporation": 2020,
                    "https://atomicdata.dev/properties/isA": ["https://common.terraphim.io/01jxw2jx8qze6yakh4fz24mnhy/class/company-information-and-history-step"]
                }
            ]
        }"#,
    );

    let result = compactor.compact(&test_data).unwrap();

    println!("Original size: {} bytes", result.stats.orig);
    println!("Compacted size: {} bytes", result.stats.comp);
    println!("Compression ratio: {} ppm", result.stats.ratio_ppm());

    assert!(result.stats.ratio_ppm() > 0, "Should have positive compression ratio");
    assert!(result.stats.comp < result.stats.orig, "Compacted should be smaller than original");

    let reconstructed = TrulyEfficientCompactor::reconstruct(&result).unwrap();
    let reconstructed_resources = subresources(&reconstructed);
    let original_resources = subresources(&test_data);

    assert_eq!(reconstructed_resources.len(), original_resources.len());
}

#[test]
fn test_field_abbreviation() {
    let compactor = TrulyEfficientCompactor::new();

    assert_eq!(compactor.abbreviate_field("https://atomicdata.dev/properties/isA"), "t");
    assert_eq!(compactor.abbreviate_field("url"), "u");
    assert_eq!(compactor.abbreviate_field("resource_type"), "rt");
    assert_eq!(
        compactor.abbreviate_field(
            "https://common.terraphim.io/01jxw2jx8qze6yakh4fz24mnhy/property/company-name"
        ),
        "cn"
    );
}

#[test]
fn test_round_trip() {
    let mut compactor = TrulyEfficientCompactor::new();

    let original = json(
        r#"{
            "subresources": [{
                "url": "https://example.com",
                "https://atomicdata.dev/properties/isA": ["test"],
                "https://common.terraphim.io/01jxw2jx8qze6yakh4fz24mnhy/property/company-name": "Test Company"
            }]
        }"#,
    );

    let compacted = compactor.compact(&original).unwrap();
    let reconstructed = TrulyEfficientCompactor::reconstruct(&compacted).unwrap();

    let original_len = subresources(&original).len();
    let reconstructed_len = subresources(&reconstructed).len();

    // The one record of this input has no type, and a record without a
    // type is left out of every group.
    assert_eq!(original_len, 1);
    assert_eq!(reconstructed_len, 0);
}

#[test]
fn typed_record_makes_the_round_trip() {
    let mut compactor = TrulyEfficientCompactor::new();
    let original = json(
        r#"{
            "subresources": [{
                "resource_type": "https://common.terraphim.io/01jxw2jx8qze6yakh4fz24mnhy/class/note-step",
                "url": "https://example.com",
                "https://atomicdata.dev/properties/isA": ["test", "https://example.com"],
                "https://common.terraphim.io/01jxw2jx8qze6yakh4fz24mnhy/property/company-name": "Test Company",
                "year": 2020
            }]
        }"#,
    );
    let compacted = compactor.compact(&original).unwrap();
    assert_eq!(compacted.fidelity, FidelityMode::AggressiveColumnar);
    assert_eq!(compacted.d.len(), 1);
    assert_eq!(compacted.d[0].0, "note");
    assert_eq!(compacted.d[0].1.n, 1);
    let names: Vec<&str> = compacted.d[0].1.c.iter().map(|c| c.0.as_str()).collect();
    assert_eq!(names, vec!["t", "cn", "rt", "u", "year"]);
    assert_eq!(
        compacted.u,
        Some(vec![
            text("https://example.com"),
            text("https://common.terraphim.io/01jxw2jx8qze6yakh4fz24mnhy/class/note-step"),
        ])
    );
    assert_eq!(compacted.t, None);
    assert_eq!(
        compacted.d[0].1.c[0].1,
        Datum::Array(vec![Datum::Array(vec![Datum::Str(text("test")), Datum::Int(1)])])
    );
    assert_eq!(compacted.s.order, vec![text("t"), text("cn"), text("rt"), text("u"), text("year")]);
    assert_eq!(
        compacted.s.types,
        vec![
            (text("t"), 'j'),
            (text("cn"), 's'),
            (text("rt"), 'u'),
            (text("u"), 'u'),
            (text("year"), 'i')
        ]
    );
    let reconstructed = TrulyEfficientCompactor::reconstruct(&compacted).unwrap();
    let record = &subresources(&reconstructed)[0];
    let expected = &subresources(&original)[0];
    for key in [
        "resource_type",
        "url",
        "https://atomicdata.dev/properties/isA",
        "https://common.terraphim.io/01jxw2jx8qze6yakh4fz24mnhy/property/company-name",
        "year",
    ] {
        assert_eq!(record.get(key), expected.get(key), "{}", key);
    }
}

#[test]
fn type_tags_are_not_cut() {
    let compactor = TrulyEfficientCompactor::new();
    assert_eq!(
        compactor.shorten_resource_type(
            "https://common.terraphim.io/01jxw2jx8qze6yakh4fz24mnhy/class/company-information-and-history-step"
        ),
        "company_information_and_history"
    );
    assert_eq!(compactor.shorten_resource_type("x/company-information-step"), "company_information");
    assert_eq!(compactor.shorten_resource_type("a-step"), "a");
    assert_eq!(compactor.shorten_resource_type(""), "");
}

#[test]
fn types_that_begin_alike_keep_their_own_groups() {
    let mut compactor = TrulyEfficientCompactor::new();
    let data = json(
        r#"{"subresources":[
            {"resource_type":"https://common.terraphim.io/01jxw2jx8qze6yakh4fz24mnhy/class/company-information-step","url":"https://example.org/1"},
            {"resource_type":"https://common.terraphim.io/01jxw2jx8qze6yakh4fz24mnhy/class/company-history-step","url":"https://example.org/2"}
        ]}"#,
    );
    let artifact = compactor.compact(&data).unwrap();
    let tags: Vec<&str> = artifact.d.iter().map(|(tag, _)| tag.as_str()).collect();
    assert_eq!(tags, vec!["company_information", "company_history"]);
    let back = TrulyEfficientCompactor::reconstruct(&artifact).unwrap();
    let records = subresources(&back);
    assert_eq!(records.len(), 2);
    assert_eq!(
        records[0].get("resource_type"),
        Some(&Datum::Str(text(
            "https://common.terraphim.io/01jxw2jx8qze6yakh4fz24mnhy/class/company-information-step"
        )))
    );
    assert_eq!(
        records[1].get("resource_type"),
        Some(&Datum::Str(text(
            "https://common.terraphim.io/01jxw2jx8qze6yakh4fz24mnhy/class/company-history-step"
        )))
    );
}

#[test]
fn keys_are_shortened_by_rule() {
    let compactor = TrulyEfficientCompactor::new();
    assert_eq!(compactor.abbreviate_field("https://atomicdata.dev/properties/parent"), "p");
    assert_eq!(compactor.abbreviate_field("json_ad_format"), "jaf");
    assert_eq!(compactor.abbreviate_field("https://x.io/property/board-of-directors"), "bod");
    assert_eq!(
        compactor.abbreviate_field("https://x.io/property/key-management-personnel-and-more"),
        "kmpa"
    );
    assert_eq!(compactor.abbreviate_field("https://x.io/property/-odd--"), "xoxx");
    assert_eq!(compactor.abbreviate_field("https://x.io/property/company-registration-number"), "rn");
    assert_eq!(compactor.abbreviate_field("name"), "name");
    assert_eq!(compactor.abbreviate_field("names"), "name");
    assert_eq!(compactor.abbreviate_field("äöü"), "äöü");
    assert_eq!(compactor.abbreviate_field("xy"), "xy");
}

#[test]
fn short_keys_expand_to_the_well_known_keys() {
    assert_eq!(
        TrulyEfficientCompactor::expand_field_name("t"),
        "https://atomicdata.dev/properties/isA"
    );
    assert_eq!(TrulyEfficientCompactor::expand_field_name("rt"), "resource_type");
    assert_eq!(TrulyEfficientCompactor::expand_field_name("bod"), "bod");
}

#[test]
fn type_letters() {
    let compactor = TrulyEfficientCompactor::new();
    assert_eq!(compactor.infer_compact_type(&Datum::Str(text("httpx"))), 'u');
    assert_eq!(compactor.infer_compact_type(&Datum::Str(text("plain"))), 's');
    assert_eq!(compactor.infer_compact_type(&Datum::Int(1)), 'i');
    assert_eq!(compactor.infer_compact_type(&Datum::Float(text("1.5"))), 'f');
    assert_eq!(compactor.infer_compact_type(&Datum::Bool(true)), 'b');
    assert_eq!(compactor.infer_compact_type(&Datum::Array(vec![])), 'j');
    assert_eq!(compactor.infer_compact_type(&Datum::Null), 's');
}

#[test]
fn eight_bit_dictionary_reports_exhaustion() {
    let mut records = Vec::new();
    for i in 0..256u32 {
        records.push(Datum::Object(vec![
            (text("resource_type"), Datum::Str(text("t"))),
            (text("link"), Datum::Str(format!("https://example.com/{}", i))),
        ]));
    }
    let data = Datum::Object(vec![(text("subresources"), Datum::Array(records))]);
    let mut compactor = TrulyEfficientCompactor::new();
    assert_eq!(compactor.compact(&data), Err(CompactError::DictionaryExhausted));

    let mut fewer = Vec::new();
    for i in 0..255u32 {
        fewer.push(Datum::Object(vec![
            (text("resource_type"), Datum::Str(text("t"))),
            (text("link"), Datum::Str(format!("https://example.com/{}", i))),
        ]));
    }
    let data = Datum::Object(vec![(text("subresources"), Datum::Array(fewer))]);
    let mut compactor = TrulyEfficientCompactor::new();
    let artifact = compactor.compact(&data).unwrap();
    assert_eq!(artifact.u.as_ref().map(|u| u.len()), Some(255));
    for column in &artifact.d[0].1.c {
        match &column.1 {
            Datum::Array(cells) => assert_eq!(cells.len(), artifact.d[0].1.n),
            other => panic!("column is {:?}", other),
        }
    }
}

#[test]
fn a_number_may_be_taken_for_a_code() {
    let mut compactor = TrulyEfficientCompactor::new();
    let data = json(r#"{"subresources":[{"resource_type":"x/a","link":"https://l","n":1,"m":257,"k":7}]}"#);
    let artifact = compactor.compact(&data).unwrap();
    let back = TrulyEfficientCompactor::reconstruct(&artifact).unwrap();
    let record = &subresources(&back)[0];
    assert_eq!(record.get("n"), Some(&Datum::Str(text("https://l"))));
    assert_eq!(record.get("m"), Some(&Datum::Str(text("https://l"))));
    assert_eq!(record.get("k"), Some(&Datum::Int(7)));
    assert_eq!(record.get("link"), Some(&Datum::Str(text("https://l"))));
}

#[test]
fn value_is_compressed_text_by_text() {
    let mut compactor = TrulyEfficientCompactor::new();
    let long = "a text of more than fifty bytes, which is long enough for the dictionary";

    assert_eq!(
        compactor.compress_value(&Datum::Str(text("https://example.org/a"))).unwrap(),
        Datum::Int(1)
    );
    assert_eq!(
        compactor.compress_value(&Datum::Str(text("https://example.org/b"))).unwrap(),
        Datum::Int(2)
    );
    assert_eq!(
        compactor.compress_value(&Datum::Str(text("https://example.org/a"))).unwrap(),
        Datum::Int(1)
    );
    assert_eq!(compactor.compress_value(&Datum::Str(text(long))).unwrap(), Datum::Int(1));
    assert_eq!(
        compactor.compress_value(&Datum::Str(text("short"))).unwrap(),
        Datum::Str(text("short"))
    );
    assert_eq!(compactor.compress_value(&Datum::Int(7)).unwrap(), Datum::Int(7));
    assert_eq!(compactor.compress_value(&Datum::Null).unwrap(), Datum::Null);
    assert_eq!(
        compactor
            .compress_value(&Datum::Array(vec![
                Datum::Str(text("https://example.org/b")),
                Datum::Str(text("short")),
                Datum::Array(vec![Datum::Str(text("https://example.org/c"))]),
                Datum::Bool(true),
            ]))
            .unwrap(),
        Datum::Array(vec![
            Datum::Int(2),
            Datum::Str(text("short")),
            Datum::Array(vec![Datum::Int(3)]),
            Datum::Bool(true),
        ])
    );
    let object = json(r#"{"k":"https://example.org/a"}"#);
    assert_eq!(compactor.compress_value(&object).unwrap(), object);
}

#[test]
fn value_that_fills_the_dictionary_is_refused() {
    let mut compactor = TrulyEfficientCompactor::new();
    let mut items = Vec::new();
    for i in 0..300 {
        items.push(Datum::Str(format!("https://example.org/{}", i)));
    }
    assert_eq!(
        compactor.compress_value(&Datum::Array(items)),
        Err(CompactError::DictionaryExhausted)
    );
}

#[test]
fn empty_dictionary_is_written_as_one_that_is_not_there() {
    let artifact = |u: Option<Vec<String>>| CompactFormat {
        s: Schema { types: Vec::new(), order: Vec::new() },
        d: Vec::new(),
        u,
        t: None,
        stats: CompactStats { orig: 0, comp: 0 },
        fidelity: FidelityMode::AggressiveColumnar,
    };
    assert_eq!(artifact(Some(Vec::new())).to_datum(), artifact(None).to_datum());
    assert_eq!(artifact(None).to_datum().get("u"), Some(&Datum::Null));
    assert_eq!(
        artifact(Some(vec![text("https://a")])).to_datum().get("u"),
        Some(&Datum::Array(vec![Datum::Str(text("https://a"))]))
    );
}
