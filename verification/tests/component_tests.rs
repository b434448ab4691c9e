use data_compactor::classify::{classify, expand_tag, extract_tag, tag_of_record};
use data_compactor::dictionary::{CodeWidth, ValueDictionary};
use data_compactor::error::{CompactError, DecodeError};
use data_compactor::fields::FieldAbbreviator;
use data_compactor::json::{datum_from_text, datum_to_text, from_json, to_json};
use data_compactor::stats::{bump, bump_by, compression_ratio_ppm};
use data_compactor::text::{
    byte_len, chars_of, decimal_text, same_text, signed_decimal_text, string_of, text_contains,
    text_starts_with,
};
use data_compactor::value::{clone_datum, Datum};

fn t(x: &str) -> String {
    x.to_string()
}

#[test]
fn interning_twice_gives_the_same_code() {
    let mut d = ValueDictionary::new(CodeWidth::Bits16);
    assert_eq!(d.intern("a"), Ok(1));
    assert_eq!(d.intern("b"), Ok(2));
    assert_eq!(d.intern("a"), Ok(1));
    assert_eq!(d.len(), 2);
    assert_eq!(d.lookup("b"), Some(2));
    assert_eq!(d.lookup("c"), None);
    assert_eq!(d.resolve(2).map(|s| s.as_str()), Ok("b"));
    assert_eq!(d.resolve(0), Err(DecodeError::UnknownCode));
    assert_eq!(d.resolve(3), Err(DecodeError::UnknownCode));
    assert_eq!(d.entries(), &vec![t("a"), t("b")]);
}

#[test]
fn distinct_texts_get_distinct_codes_up_to_the_width() {
    let mut d = ValueDictionary::new(CodeWidth::Bits8);
    assert_eq!(d.code_width(), CodeWidth::Bits8);
    assert_eq!(CodeWidth::Bits8.max_code(), 255);
    assert_eq!(CodeWidth::Bits16.max_code(), 65_535);
    assert_eq!(CodeWidth::Bits32.max_code(), 4_294_967_295);
    for i in 0..255u32 {
        assert_eq!(d.intern(&format!("text {}", i)), Ok(i + 1));
    }
    assert_eq!(d.len(), 255);
    assert_eq!(d.intern("one too many"), Err(CompactError::DictionaryExhausted));
    assert_eq!(d.len(), 255);
    assert_eq!(d.intern("text 7"), Ok(8));
}

#[test]
fn table_keeps_the_first_use_of_a_key() {
    let mut table = FieldAbbreviator::new();
    assert!(table.add("canonical", "c"));
    assert!(!table.add("canonical", "other"));
    assert!(!table.add("another", "c"));
    assert!(table.add("another", "a"));
    assert_eq!(table.abbreviate("canonical"), "c");
    assert_eq!(table.abbreviate("unknown"), "unknown");
    assert_eq!(table.expand("a"), "another");
    assert_eq!(table.expand("zz"), "zz");
    assert_eq!(table.short_for("another"), Some(&t("a")));
    assert_eq!(table.canonical_for("x"), None);
    assert_eq!(table.pairs(), &vec![(t("canonical"), t("c")), (t("another"), t("a"))]);
}

#[test]
fn type_tags() {
    assert_eq!(extract_tag("https://x.io/class/company-information-and-history-step"), "company_information_and_history");
    assert_eq!(extract_tag("a-step"), "a");
    assert_eq!(extract_tag("no-slash"), "no_slash");
    assert_eq!(extract_tag("x/"), "");
    assert_eq!(extract_tag("x/-step-step-a-stepb"), "_step_step_a_stepb");
    assert_eq!(extract_tag("x/a-step-b-step"), "a_step_b");
    assert_eq!(
        expand_tag("company_information"),
        "https://common.terraphim.io/01jxw2jx8qze6yakh4fz24mnhy/class/company-information-step"
    );
}

#[test]
fn grouping_keeps_the_order_of_the_input() {
    let record = |ty: &str| Datum::Object(vec![(t("resource_type"), Datum::Str(t(ty)))]);
    let records = vec![
        record("x/b-step"),
        Datum::Object(vec![(t("resource_type"), Datum::Int(1))]),
        record("x/a"),
        Datum::Null,
        record("y/b"),
    ];
    let (groups, typed) = classify(&records);
    assert_eq!(typed, 3);
    assert_eq!(groups.len(), 2);
    assert_eq!(groups[0].tag, "b");
    assert_eq!(groups[0].rows, vec![0, 4]);
    assert_eq!(groups[1].tag, "a");
    assert_eq!(groups[1].rows, vec![2]);
    assert_eq!(tag_of_record(&records[1]), None);
    assert_eq!(tag_of_record(&record("x/long-tag-name")), Some(t("long_tag_name")));
}

#[test]
fn ratio_never_fails() {
    assert_eq!(compression_ratio_ppm(1000, 250), 750_000);
    assert_eq!(compression_ratio_ppm(3, 2), 333_333);
    assert_eq!(compression_ratio_ppm(1000, 1000), 0);
    assert_eq!(compression_ratio_ppm(1000, 1500), -500_000);
    assert_eq!(compression_ratio_ppm(3, 4), -333_333);
    assert_eq!(compression_ratio_ppm(0, 0), 0);
    assert_eq!(compression_ratio_ppm(0, 17), 0);
    assert_eq!(compression_ratio_ppm(1, usize::MAX), -((usize::MAX as i128 - 1) * 1_000_000));
    assert_eq!(compression_ratio_ppm(usize::MAX, 0), 1_000_000);
}

#[test]
fn counters_stop_at_the_largest_number() {
    assert_eq!(bump(0), 1);
    assert_eq!(bump(u32::MAX), u32::MAX);
    assert_eq!(bump_by(5, 7), 12);
    assert_eq!(bump_by(u32::MAX - 1, 7), u32::MAX);
    assert_eq!(bump_by(0, usize::MAX), u32::MAX);
}

#[test]
fn text_helpers() {
    assert!(same_text("abc", "abc"));
    assert!(!same_text("abc", "abd"));
    assert!(!same_text("abc", "ab"));
    assert_eq!(chars_of("aé"), vec!['a', 'é']);
    assert_eq!(string_of(&vec!['x', 'ß', 'y']), "xßy");
    assert!(text_starts_with("https://x", "https://"));
    assert!(!text_starts_with("http", "https://"));
    assert!(text_starts_with("anything", ""));
    assert!(text_contains("a/property/b", "/property/"));
    assert!(!text_contains("a/propert/b", "/property/"));
    assert!(text_contains("abc", ""));
    assert_eq!(byte_len("aé"), 3);
    assert_eq!(decimal_text(0), "0");
    assert_eq!(decimal_text(9), "9");
    assert_eq!(decimal_text(10), "10");
    assert_eq!(decimal_text(4_294_967_295), "4294967295");
    assert_eq!(decimal_text(u128::MAX), "340282366920938463463374607431768211455");
    assert_eq!(signed_decimal_text(-1), "-1");
    assert_eq!(signed_decimal_text(i128::MIN), "-170141183460469231731687303715884105728");
    assert_eq!(signed_decimal_text(1205), "1205");
}

#[test]
fn json_text_is_what_serde_json_prints() {
    let value = Datum::Object(vec![
        (t("b"), Datum::Array(vec![Datum::Null, Datum::Bool(false), Datum::Int(-7)])),
        (t("a"), Datum::Str(t("quote \" and \\ and \n"))),
        (t("f"), Datum::Float(t("1.50"))),
        (t("a"), Datum::Int(2)),
    ]);
    assert_eq!(
        datum_to_text(&value).unwrap(),
        "{\"a\":2,\"b\":[null,false,-7],\"f\":1.5}"
    );
    assert_eq!(datum_to_text(&Datum::Int(i64::MIN)).unwrap(), "-9223372036854775808");
    assert_eq!(datum_to_text(&Datum::Float(t("1e400"))), None);
    assert_eq!(datum_to_text(&Datum::Array(vec![Datum::Float(t("x"))])), None);
    assert_eq!(datum_to_text(&Datum::Str(t("é"))).unwrap(), "\"é\"");
}

#[test]
fn json_text_is_read_as_serde_json_reads_it() {
    assert_eq!(datum_from_text("[1, 2.0, \"x\", {\"k\": null}]"), Some(Datum::Array(vec![
        Datum::Int(1),
        Datum::Float(t("2.0")),
        Datum::Str(t("x")),
        Datum::Object(vec![(t("k"), Datum::Null)]),
    ])));
    assert_eq!(datum_from_text("9223372036854775808"), Some(Datum::Float(t("9223372036854775808"))));
    assert_eq!(datum_from_text("{\"z\":1,\"a\":2,\"z\":3}"), Some(Datum::Object(vec![
        (t("a"), Datum::Int(2)),
        (t("z"), Datum::Int(3)),
    ])));
    assert_eq!(datum_from_text("not json"), None);
    assert_eq!(datum_from_text(""), None);
    assert_eq!(datum_from_text("[1,]"), None);
}

#[test]
fn values_pass_through_serde_json_and_back() {
    let value = Datum::Array(vec![
        Datum::Int(5),
        Datum::Str(t("s")),
        Datum::Object(vec![(t("k"), Datum::Array(vec![Datum::Bool(true)]))]),
        Datum::Float(t("0.5")),
    ]);
    let json = to_json(&value).unwrap();
    assert_eq!(json.to_string(), "[5,\"s\",{\"k\":[true]},0.5]");
    assert_eq!(from_json(json), value);
    assert_eq!(to_json(&Datum::Float(t("?"))), None);
    assert_eq!(clone_datum(&value), value);
}
