use slimp::json::{company_object, encode_array, encode_company, encode_lines, encode_tax_record, ArrayWriter};
use slimp::record::{read_tax_record, Company, TaxRecord};

fn sample(cvr: u32, income: Option<i64>) -> TaxRecord {
    TaxRecord {
        cvr,
        se: 20304050,
        company_name: "Acme \"A/S\"".to_string(),
        company_type: "A/S".to_string(),
        year: 2022,
        taxable_income: income,
        deficit: None,
        corporate_tax: Some(-220000),
    }
}

#[test]
fn company_object_text() {
    assert_eq!(company_object(42, "\"Foo\""), "{\"cvr\":42,\"name\":\"Foo\"}");
}

#[test]
fn company_name_is_escaped() {
    let c = Company { cvr: 7, name: "a\"b\\c".to_string() };
    assert_eq!(encode_company(&c).unwrap(), "{\"cvr\":7,\"name\":\"a\\\"b\\\\c\"}");
}

#[test]
fn tax_object_text_leaves_out_absent_amounts() {
    let t = encode_tax_record(&sample(1, None)).unwrap();
    assert_eq!(
        t,
        "{\"cvr\":1,\"se\":20304050,\"company_name\":\"Acme \\\"A/S\\\"\",\"company_type\":\"A/S\",\"year\":2022,\"corporate_tax\":-220000}"
    );
}

#[test]
fn json_round_trip_keeps_values() {
    let line = "10200345,Acme A/S,20304050,2022,,A/S,,,1000000,,-9223372036854775808";
    let r = read_tax_record(line).unwrap();
    let text = encode_tax_record(&r).unwrap();
    let v: serde_json::Value = serde_json::from_str(&text).unwrap();
    assert_eq!(v["cvr"].as_u64(), Some(10200345));
    assert_eq!(v["se"].as_u64(), Some(20304050));
    assert_eq!(v["company_name"].as_str(), Some("Acme A/S"));
    assert_eq!(v["company_type"].as_str(), Some("A/S"));
    assert_eq!(v["year"].as_u64(), Some(2022));
    assert_eq!(v["taxable_income"].as_i64(), Some(1000000));
    assert!(v.get("deficit").is_none());
    assert_eq!(v["corporate_tax"].as_i64(), Some(i64::MIN));
}

#[test]
fn array_is_well_formed_for_zero_one_and_many() {
    assert_eq!(encode_array(&vec![]), "[]");
    let one = vec![encode_tax_record(&sample(1, Some(5))).unwrap()];
    let a1 = encode_array(&one);
    let v: serde_json::Value = serde_json::from_str(&a1).unwrap();
    assert_eq!(v.as_array().unwrap().len(), 1);
    let many: Vec<String> = (1..4).map(|i| encode_tax_record(&sample(i, None)).unwrap()).collect();
    let a3 = encode_array(&many);
    let v: serde_json::Value = serde_json::from_str(&a3).unwrap();
    let arr = v.as_array().unwrap();
    assert_eq!(arr.len(), 3);
    assert_eq!(arr[2]["cvr"].as_u64(), Some(3));
    assert!(arr[0].get("taxable_income").is_none());
    assert_eq!(encode_array(&vec!["1".to_string(), "2".to_string()]), "[1,2]");
}

#[test]
fn array_writer_streams_pieces() {
    let mut w = ArrayWriter::new();
    let mut out = String::new();
    out.push_str(&w.element("{}"));
    out.push_str(&w.element("{\"a\":1}"));
    out.push_str(&w.finish());
    assert_eq!(out, "[{},{\"a\":1}]");
    let w = ArrayWriter::new();
    assert_eq!(w.finish(), "[]");
}

#[test]
fn lines_body_has_one_object_per_line() {
    let body = encode_lines(&vec!["{\"a\":1}".to_string(), "{\"b\":2}".to_string()]);
    assert_eq!(body, "{\"a\":1}\n{\"b\":2}\n");
    assert_eq!(encode_lines(&vec![]), "");
}

#[test]
fn control_characters_are_escaped() {
    let c = Company { cvr: 1, name: "a\u{1}\t\u{1f}\u{7f}é".to_string() };
    assert_eq!(encode_company(&c).unwrap(), "{\"cvr\":1,\"name\":\"a\\u0001\\t\\u001f\u{7f}é\"}");
}
