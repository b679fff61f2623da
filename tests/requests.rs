use slimp::client::{Typesense, API_KEY_HEADER, COMPANY_SCHEMA};
use slimp::record::{read_company, read_tax_record};

#[test]
fn collection_request() {
    let t = Typesense::new("http://localhost:8108", "SECRET-REDACTED");
    let r = t.create_collection();
    assert_eq!(r.url, "http://localhost:8108/collections");
    assert_eq!(r.api_key, "SECRET-REDACTED");
    assert_eq!(r.body, COMPANY_SCHEMA);
    let v: serde_json::Value = serde_json::from_str(&r.body).unwrap();
    assert_eq!(v["name"].as_str(), Some("companies"));
    assert_eq!(v["default_sorting_field"].as_str(), Some("cvr"));
    assert_eq!(API_KEY_HEADER, "X-TYPESENSE-API-KEY");
    let r = t.create_tax_collection();
    let v: serde_json::Value = serde_json::from_str(&r.body).unwrap();
    assert_eq!(v["fields"].as_array().unwrap().len(), 8);
}

#[test]
fn import_request_is_newline_delimited() {
    let t = Typesense::new("http://h", "k");
    let cs = vec![read_company("1,A").unwrap(), read_company("2,B \"x\"").unwrap()];
    let r = t.import(&cs);
    assert_eq!(r.url, "http://h/collections/companies/documents/import?action=upsert");
    assert_eq!(r.body, "{\"cvr\":1,\"name\":\"A\"}\n{\"cvr\":2,\"name\":\"B \\\"x\\\"\"}\n");
    let rs = vec![read_tax_record("1,A,2,2020,,ApS,,,,,").unwrap()];
    let r = t.import_tax_records(&rs);
    assert_eq!(r.url, "http://h/collections/taxes/documents/import?action=upsert");
    assert_eq!(
        r.body,
        "{\"cvr\":1,\"se\":2,\"company_name\":\"A\",\"company_type\":\"ApS\",\"year\":2020}\n"
    );
}

#[test]
fn import_of_no_companies_is_empty() {
    let t = Typesense::new("http://h", "k");
    assert_eq!(t.import(&[]).body, "");
}

#[test]
fn import_in_batches_of_two() {
    let t = Typesense::new("http://h", "k");
    let cs: Vec<_> = (1..6).map(|i| read_company(&format!("{},C{}", i, i)).unwrap()).collect();
    let reqs = t.import_in_batches(cs, 2);
    assert_eq!(reqs.len(), 3);
    assert_eq!(reqs[0].body, "{\"cvr\":1,\"name\":\"C1\"}\n{\"cvr\":2,\"name\":\"C2\"}\n");
    assert_eq!(reqs[2].body, "{\"cvr\":5,\"name\":\"C5\"}\n");
    assert!(reqs.iter().all(|r| r.url == "http://h/collections/companies/documents/import?action=upsert"));
}
