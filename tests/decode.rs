use slimp::coerce::{parse_i64, parse_u16, parse_u32};
use slimp::record::{read_company, read_tax_record};

#[test]
fn tax_line_decodes_every_column() {
    let r = read_tax_record("10200345,Acme A/S,20304050,2022,,A/S,,,1000000,0,220000").unwrap();
    assert_eq!(r.cvr, 10200345);
    assert_eq!(r.se, 20304050);
    assert_eq!(r.company_name, "Acme A/S");
    assert_eq!(r.company_type, "A/S");
    assert_eq!(r.year, 2022);
    assert_eq!(r.taxable_income, Some(1000000));
    assert_eq!(r.deficit, Some(0));
    assert_eq!(r.corporate_tax, Some(220000));
}

#[test]
fn optional_amounts_absent_when_missing_or_malformed() {
    let r = read_tax_record("1,Beta ApS,2,2021,,ApS,,,abc,").unwrap();
    assert_eq!(r.taxable_income, None);
    assert_eq!(r.deficit, None);
    assert_eq!(r.corporate_tax, None);
    let r = read_tax_record("1,Beta ApS,2,2021,,ApS,,,-5, 7 ,x").unwrap();
    assert_eq!(r.taxable_income, Some(-5));
    assert_eq!(r.deficit, Some(7));
    assert_eq!(r.corporate_tax, None);
}

#[test]
fn tax_line_missing_required_column_is_dropped() {
    assert!(read_tax_record("10200345,Acme A/S,20304050,2022").is_none());
    assert!(read_tax_record("10200345,Acme A/S,x,2022,,A/S").is_none());
    assert!(read_tax_record("10200345,Acme A/S,1,70000,,A/S").is_none());
    assert!(read_tax_record("10200345,Acme A/S,1,2022,,A/S").is_some());
}

#[test]
fn non_numeric_cvr_line_dropped_and_later_lines_kept() {
    let lines = [
        "10200345,Acme A/S,20304050,2022,,A/S,,,1000000,0,220000",
        "ABC,Bad A/S,20304050,2022,,A/S,,,1,0,2",
        "10200346,Next A/S,20304051,2022,,A/S,,,5,,",
    ];
    let kept: Vec<_> = lines.iter().filter_map(|l| read_tax_record(l)).collect();
    assert_eq!(kept.len(), 2);
    assert_eq!(kept[0].cvr, 10200345);
    assert_eq!(kept[1].cvr, 10200346);
    assert_eq!(kept[1].taxable_income, Some(5));
    assert_eq!(kept[1].deficit, None);
}

#[test]
fn company_line_decodes() {
    let c = read_company(" 42 ,  Foo Bar  ,extra").unwrap();
    assert_eq!(c.cvr, 42);
    assert_eq!(c.name, "Foo Bar");
    let c = read_company("7,").unwrap();
    assert_eq!(c.cvr, 7);
    assert_eq!(c.name, "");
}

#[test]
fn company_line_without_name_or_number_is_dropped() {
    assert!(read_company("42").is_none());
    assert!(read_company("x,Foo").is_none());
    assert!(read_company(",Foo").is_none());
    assert!(read_company("").is_none());
}

#[test]
fn coercion_follows_integer_parsing() {
    assert_eq!(parse_u32("4294967295"), Some(u32::MAX));
    assert_eq!(parse_u32("4294967296"), None);
    assert_eq!(parse_u32("+12"), Some(12));
    assert_eq!(parse_u32("-0"), None);
    assert_eq!(parse_u32("+"), None);
    assert_eq!(parse_u32("  \t9 "), Some(9));
    assert_eq!(parse_u32("1 2"), None);
    assert_eq!(parse_u32("00012"), Some(12));
    assert_eq!(parse_u16("65535"), Some(65535));
    assert_eq!(parse_u16("65536"), None);
    assert_eq!(parse_i64("-9223372036854775808"), Some(i64::MIN));
    assert_eq!(parse_i64("9223372036854775807"), Some(i64::MAX));
    assert_eq!(parse_i64("9223372036854775808"), None);
    assert_eq!(parse_i64("-9223372036854775809"), None);
    assert_eq!(parse_i64("-"), None);
    assert_eq!(parse_i64("+-3"), None);
    assert_eq!(parse_i64(""), None);
}

#[test]
fn coercion_trims_unicode_white_space() {
    assert_eq!(parse_u32("\u{3000}15\u{a0}"), Some(15));
    assert_eq!(parse_u32("\u{200b}15"), None);
}
