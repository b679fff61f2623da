//! The two record shapes and their decoders. A line is split at every comma
//! and each field is read from a fixed column. A record comes out only when
//! every required field reads; an optional field that does not read is absent.

use vstd::prelude::*;
use vstd::string::*;
use crate::coerce::{coerce_i64, coerce_u16, coerce_u32, i64_in, u16_in, u32_in};
use crate::text::{chars_of, split, split_bounds, trim, trim_bounds};

verus! {

/// Column of the business registration number.
pub const CVR: usize = 0;

/// Column of the company name.
pub const NAME: usize = 1;

/// Column of the secondary tax number.
pub const SE: usize = 2;

/// Column of the fiscal year.
pub const YEAR: usize = 3;

/// Column of the company type.
pub const COMPANY_TYPE: usize = 5;

/// Column of the taxable income.
pub const TAXABLE_INCOME: usize = 8;

/// Column of the deficit.
pub const DEFICIT: usize = 9;

/// Column of the corporate tax.
pub const CORPORATE_TAX: usize = 10;

/// A company: registration number and name.
pub struct Company {
    pub cvr: u32,
    pub name: String,
}

/// What a `Company` holds.
pub struct CompanyRow {
    pub cvr: u32,
    pub name: Seq<char>,
}

impl View for Company {
    type V = CompanyRow;

    open spec fn view(&self) -> CompanyRow {
        CompanyRow { cvr: self.cvr, name: self.name@ }
    }
}

/// One year of corporate tax figures for a company. The three amounts are
/// optional.
pub struct TaxRecord {
    pub cvr: u32,
    pub se: u32,
    pub company_name: String,
    pub company_type: String,
    pub year: u16,
    pub taxable_income: Option<i64>,
    pub deficit: Option<i64>,
    pub corporate_tax: Option<i64>,
}

/// What a `TaxRecord` holds.
pub struct TaxRow {
    pub cvr: u32,
    pub se: u32,
    pub company_name: Seq<char>,
    pub company_type: Seq<char>,
    pub year: u16,
    pub taxable_income: Option<i64>,
    pub deficit: Option<i64>,
    pub corporate_tax: Option<i64>,
}

impl View for TaxRecord {
    type V = TaxRow;

    open spec fn view(&self) -> TaxRow {
        TaxRow {
            cvr: self.cvr,
            se: self.se,
            company_name: self.company_name@,
            company_type: self.company_type@,
            year: self.year,
            taxable_income: self.taxable_income,
            deficit: self.deficit,
            corporate_tax: self.corporate_tax,
        }
    }
}

/// Cell `k` of a line, if the line has that many cells.
pub open spec fn cell(line: Seq<char>, k: int) -> Option<Seq<char>> {
    if 0 <= k < split(line).len() {
        Some(split(line)[k])
    } else {
        None
    }
}

/// Cell `k` read as text: trimmed, present whenever the cell is.
pub open spec fn text_cell(line: Seq<char>, k: int) -> Option<Seq<char>> {
    match cell(line, k) {
        Some(c) => Some(trim(c)),
        None => None,
    }
}

/// Cell `k` read as a `u32`.
pub open spec fn u32_cell(line: Seq<char>, k: int) -> Option<u32> {
    match cell(line, k) {
        Some(c) => coerce_u32(c),
        None => None,
    }
}

/// Cell `k` read as a `u16`.
pub open spec fn u16_cell(line: Seq<char>, k: int) -> Option<u16> {
    match cell(line, k) {
        Some(c) => coerce_u16(c),
        None => None,
    }
}

/// Cell `k` read as an `i64`.
pub open spec fn i64_cell(line: Seq<char>, k: int) -> Option<i64> {
    match cell(line, k) {
        Some(c) => coerce_i64(c),
        None => None,
    }
}

/// The company that a line describes, if its required fields read.
pub open spec fn decode_company(line: Seq<char>) -> Option<CompanyRow> {
    match (u32_cell(line, CVR as int), text_cell(line, NAME as int)) {
        (Some(cvr), Some(name)) => Some(CompanyRow { cvr, name }),
        _ => None,
    }
}

/// The tax record that a line describes, if its required fields read.
pub open spec fn decode_tax_record(line: Seq<char>) -> Option<TaxRow> {
    let cvr = u32_cell(line, CVR as int);
    let se = u32_cell(line, SE as int);
    let name = text_cell(line, NAME as int);
    let kind = text_cell(line, COMPANY_TYPE as int);
    let year = u16_cell(line, YEAR as int);
    if cvr is Some && se is Some && name is Some && kind is Some && year is Some {
        Some(
            TaxRow {
                cvr: cvr->0,
                se: se->0,
                company_name: name->0,
                company_type: kind->0,
                year: year->0,
                taxable_income: i64_cell(line, TAXABLE_INCOME as int),
                deficit: i64_cell(line, DEFICIT as int),
                corporate_tax: i64_cell(line, CORPORATE_TAX as int),
            },
        )
    } else {
        None
    }
}

/// The records that a sequence of lines gives, in order, with the lines that
/// give none left out.
pub open spec fn decode_all<R>(lines: Seq<Seq<char>>, decode: spec_fn(Seq<char>) -> Option<R>) -> Seq<R> {
    lines.filter_map(decode)
}

proof fn lemma_decode_all_append<R>(
    a: Seq<Seq<char>>,
    b: Seq<Seq<char>>,
    decode: spec_fn(Seq<char>) -> Option<R>,
)
    ensures
        decode_all(a + b, decode) == decode_all(a, decode) + decode_all(b, decode),
    decreases b.len(),
{
    if b.len() == 0 {
        assert(a + b =~= a);
        assert(decode_all(a, decode) + decode_all(b, decode) =~= decode_all(a, decode));
    } else {
        assert((a + b).drop_last() =~= a + b.drop_last());
        assert((a + b).last() == b.last());
        lemma_decode_all_append(a, b.drop_last(), decode);
        match decode(b.last()) {
            Some(r) => {
                assert(decode_all(a + b, decode) =~= decode_all(a, decode) + decode_all(b, decode));
            },
            None => {},
        }
    }
}

/// A line that does not decode into a company is dropped: the lines around
/// it give the same records as they would without it, and where each of
/// them decodes there is one record fewer than there are lines.
pub proof fn lemma_bad_company_line_dropped(
    before: Seq<Seq<char>>,
    line: Seq<char>,
    after: Seq<Seq<char>>,
)
    requires
        decode_company(line) is None,
    ensures
        decode_all(before.push(line) + after, |l| decode_company(l)) == decode_all(
            before + after,
            |l| decode_company(l),
        ),
        (forall|i: int| 0 <= i < before.len() ==> #[trigger] decode_company(before[i]) is Some)
            && (forall|i: int| 0 <= i < after.len() ==> #[trigger] decode_company(after[i]) is Some)
            ==> decode_all(before.push(line) + after, |l| decode_company(l)).len() == before.len()
            + after.len(),
{
    let f = |l| decode_company(l);
    lemma_bad_line_dropped(before, line, after, f);
    if (forall|i: int| 0 <= i < before.len() ==> #[trigger] decode_company(before[i]) is Some)
        && (forall|i: int| 0 <= i < after.len() ==> #[trigger] decode_company(after[i]) is Some) {
        lemma_decode_all_full(before + after, f);
    }
}

/// A line that does not decode into a tax record is dropped: the lines
/// around it give the same records as they would without it, and where each
/// of them decodes there is one record fewer than there are lines.
pub proof fn lemma_bad_tax_line_dropped(before: Seq<Seq<char>>, line: Seq<char>, after: Seq<Seq<char>>)
    requires
        decode_tax_record(line) is None,
    ensures
        decode_all(before.push(line) + after, |l| decode_tax_record(l)) == decode_all(
            before + after,
            |l| decode_tax_record(l),
        ),
        (forall|i: int| 0 <= i < before.len() ==> #[trigger] decode_tax_record(before[i]) is Some)
            && (forall|i: int|
            0 <= i < after.len() ==> #[trigger] decode_tax_record(after[i]) is Some)
            ==> decode_all(before.push(line) + after, |l| decode_tax_record(l)).len()
            == before.len() + after.len(),
{
    let f = |l| decode_tax_record(l);
    lemma_bad_line_dropped(before, line, after, f);
    if (forall|i: int| 0 <= i < before.len() ==> #[trigger] decode_tax_record(before[i]) is Some)
        && (forall|i: int|
        0 <= i < after.len() ==> #[trigger] decode_tax_record(after[i]) is Some) {
        lemma_decode_all_full(before + after, f);
    }
}

proof fn lemma_bad_line_dropped<R>(
    before: Seq<Seq<char>>,
    line: Seq<char>,
    after: Seq<Seq<char>>,
    decode: spec_fn(Seq<char>) -> Option<R>,
)
    requires
        decode(line) is None,
    ensures
        decode_all(before.push(line) + after, decode) == decode_all(before + after, decode),
{
    lemma_decode_all_append(before.push(line), after, decode);
    lemma_decode_all_append(before, after, decode);
    assert(before.push(line).drop_last() =~= before);
}

proof fn lemma_decode_all_full<R>(lines: Seq<Seq<char>>, decode: spec_fn(Seq<char>) -> Option<R>)
    requires
        forall|i: int| 0 <= i < lines.len() ==> #[trigger] decode(lines[i]) is Some,
    ensures
        decode_all(lines, decode).len() == lines.len(),
    decreases lines.len(),
{
    if lines.len() > 0 {
        let d = lines.drop_last();
        assert forall|i: int| 0 <= i < d.len() implies #[trigger] decode(d[i]) is Some by {
            assert(d[i] == lines[i]);
        }
        lemma_decode_all_full(d, decode);
        assert(decode(lines[lines.len() - 1]) is Some);
    }
}

/// The number of lines that give no record.
pub open spec fn bad_lines<R>(lines: Seq<Seq<char>>, decode: spec_fn(Seq<char>) -> Option<R>) -> nat
    decreases lines.len(),
{
    if lines.len() == 0 {
        0
    } else {
        bad_lines(lines.drop_last(), decode) + if decode(lines.last()) is None {
            1nat
        } else {
            0nat
        }
    }
}

proof fn lemma_records_and_bad_lines<R>(
    lines: Seq<Seq<char>>,
    decode: spec_fn(Seq<char>) -> Option<R>,
)
    ensures
        decode_all(lines, decode).len() + bad_lines(lines, decode) == lines.len(),
    decreases lines.len(),
{
    if lines.len() > 0 {
        lemma_records_and_bad_lines(lines.drop_last(), decode);
    }
}

/// There are as many companies as lines, less one for each line that does
/// not decode into a company.
pub proof fn lemma_company_count(lines: Seq<Seq<char>>)
    ensures
        decode_all(lines, |l| decode_company(l)).len() == lines.len() - bad_lines(
            lines,
            |l| decode_company(l),
        ),
{
    lemma_records_and_bad_lines(lines, |l| decode_company(l));
}

/// There are as many tax records as lines, less one for each line that does
/// not decode into a tax record.
pub proof fn lemma_tax_record_count(lines: Seq<Seq<char>>)
    ensures
        decode_all(lines, |l| decode_tax_record(l)).len() == lines.len() - bad_lines(
            lines,
            |l| decode_tax_record(l),
        ),
{
    lemma_records_and_bad_lines(lines, |l| decode_tax_record(l));
}

/// Cell `k` of `v` as bounds into `v`, where `cells` are the bounds of its
/// cells.
fn cell_bounds(v: &Vec<char>, cells: &Vec<(usize, usize)>, k: usize) -> (r: Option<(usize, usize)>)
    requires
        cells.len() == split(v@).len(),
        forall|j: int| 0 <= j < cells.len() ==> (#[trigger] cells[j]).0 <= cells[j].1 && cells[j].1 <= v.len(),
        forall|j: int| 0 <= j < cells.len() ==> #[trigger] split(v@)[j] == v@.subrange(cells[j].0 as int, cells[j].1 as int),
    ensures
        r is Some <==> cell(v@, k as int) is Some,
        match r {
            Some((lo, hi)) => lo <= hi <= v.len() && cell(v@, k as int)->0 == v@.subrange(
                lo as int,
                hi as int,
            ),
            None => true,
        },
{
    if k < cells.len() {
        assert(split(v@)[k as int] == v@.subrange(cells[k as int].0 as int, cells[k as int].1 as int));
        Some(cells[k])
    } else {
        None
    }
}

/// The trimmed text of `line[lo..hi]`, where `v` holds the characters of `line`.
fn text_at(line: &str, v: &Vec<char>, lo: usize, hi: usize) -> (r: String)
    requires
        v@ == line@,
        lo <= hi <= v.len(),
    ensures
        r@ == trim(v@.subrange(lo as int, hi as int)),
{
    let (a, b) = trim_bounds(v, lo, hi);
    line.substring_char(a, b).to_owned()
}

/// Decodes a company from one line: the registration number from the first
/// column and the name from the second.
pub fn read_company(csv: &str) -> (r: Option<Company>)
    ensures
        r is Some <==> decode_company(csv@) is Some,
        r is Some ==> r->0@ == decode_company(csv@)->0,
{
    let v = chars_of(csv);
    let cells = split_bounds(&v);
    let cvr = match cell_bounds(&v, &cells, CVR) {
        Some((lo, hi)) => u32_in(&v, lo, hi),
        None => None,
    };
    let name = match cell_bounds(&v, &cells, NAME) {
        Some((lo, hi)) => Some(text_at(csv, &v, lo, hi)),
        None => None,
    };
    match (cvr, name) {
        (Some(cvr), Some(name)) => Some(Company { cvr, name }),
        _ => None,
    }
}

/// Decodes a tax record from one line, with the columns that the `const`
/// items of this module name.
pub fn read_tax_record(csv: &str) -> (r: Option<TaxRecord>)
    ensures
        r is Some <==> decode_tax_record(csv@) is Some,
        r is Some ==> r->0@ == decode_tax_record(csv@)->0,
{
    let v = chars_of(csv);
    let cells = split_bounds(&v);
    let cvr = match cell_bounds(&v, &cells, CVR) {
        Some((lo, hi)) => u32_in(&v, lo, hi),
        None => None,
    };
    let se = match cell_bounds(&v, &cells, SE) {
        Some((lo, hi)) => u32_in(&v, lo, hi),
        None => None,
    };
    let year = match cell_bounds(&v, &cells, YEAR) {
        Some((lo, hi)) => u16_in(&v, lo, hi),
        None => None,
    };
    let name = match cell_bounds(&v, &cells, NAME) {
        Some((lo, hi)) => Some(text_at(csv, &v, lo, hi)),
        None => None,
    };
    let kind = match cell_bounds(&v, &cells, COMPANY_TYPE) {
        Some((lo, hi)) => Some(text_at(csv, &v, lo, hi)),
        None => None,
    };
    let taxable_income = match cell_bounds(&v, &cells, TAXABLE_INCOME) {
        Some((lo, hi)) => i64_in(&v, lo, hi),
        None => None,
    };
    let deficit = match cell_bounds(&v, &cells, DEFICIT) {
        Some((lo, hi)) => i64_in(&v, lo, hi),
        None => None,
    };
    let corporate_tax = match cell_bounds(&v, &cells, CORPORATE_TAX) {
        Some((lo, hi)) => i64_in(&v, lo, hi),
        None => None,
    };
    match (cvr, se, year, name, kind) {
        (Some(cvr), Some(se), Some(year), Some(company_name), Some(company_type)) => Some(
            TaxRecord {
                cvr,
                se,
                company_name,
                company_type,
                year,
                taxable_income,
                deficit,
                corporate_tax,
            },
        ),
        _ => None,
    }
}

} // verus!
