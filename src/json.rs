//! JSON text of records: one object per record, arrays of objects written
//! piece by piece, and newline-delimited bodies for bulk import. An absent
//! optional field is left out of its object, never written as `null`.

use vstd::prelude::*;
use vstd::string::*;
use crate::coerce::{
    all_digits, coerce_i64, coerce_u16, coerce_u32, digit_value, digits_value, is_digit,
};
use crate::record::{Company, TaxRecord, TaxRow};
use crate::text::{trim, white};

verus! {

#[verifier::external_type_specification]
#[verifier::external_body]
pub struct ExJsonError(serde_json::Error);

/// A hexadecimal digit, lower case, for `d` below 16.
pub open spec fn hex_digit(d: nat) -> char {
    if d < 10 {
        (48 + d) as char
    } else {
        (87 + d) as char
    }
}

/// How one character is written inside a JSON string: `"` and `\` after
/// a backslash; backspace, tab, line feed, form feed and carriage return as
/// `\b`, `\t`, `\n`, `\f`, `\r`; other characters below 0x20 as `\u00`
/// and two lower-case hex digits; every other character as itself.
pub open spec fn escaped_char(c: char) -> Seq<char> {
    let u = c as u32;
    if c == '"' {
        seq!['\\', '"']
    } else if c == '\\' {
        seq!['\\', '\\']
    } else if u == 0x8 {
        seq!['\\', 'b']
    } else if u == 0x9 {
        seq!['\\', 't']
    } else if u == 0xa {
        seq!['\\', 'n']
    } else if u == 0xc {
        seq!['\\', 'f']
    } else if u == 0xd {
        seq!['\\', 'r']
    } else if u < 0x20 {
        seq!['\\', 'u', '0', '0', hex_digit((u / 16) as nat), hex_digit((u % 16) as nat)]
    } else {
        seq![c]
    }
}

/// The characters of `s`, each escaped.
pub open spec fn escaped(s: Seq<char>) -> Seq<char>
    decreases s.len(),
{
    if s.len() == 0 {
        Seq::empty()
    } else {
        escaped(s.drop_last()) + escaped_char(s.last())
    }
}

/// The JSON string literal for the text `s`: its escaped characters between
/// double quotes.
pub open spec fn json_quoted(s: Seq<char>) -> Seq<char> {
    seq!['"'] + escaped(s) + seq!['"']
}

/// The value of a hexadecimal digit.
pub open spec fn hex_value(c: char) -> nat {
    if (c as u32) < 58 {
        (c as u32 - 48) as nat
    } else if (c as u32) < 71 {
        (c as u32 - 55) as nat
    } else {
        (c as u32 - 87) as nat
    }
}

/// The text that the inside of a JSON string literal stands for: each
/// escape sequence read back as its character, every other character as
/// itself.
pub open spec fn unescaped(s: Seq<char>) -> Seq<char>
    decreases s.len(),
{
    if s.len() == 0 {
        Seq::empty()
    } else if s[0] == '\\' && s.len() >= 2 {
        let e = s[1];
        if e == 'u' && s.len() >= 6 {
            let u = hex_value(s[2]) * 4096 + hex_value(s[3]) * 256 + hex_value(s[4]) * 16
                + hex_value(s[5]);
            seq![(u as u32) as char] + unescaped(s.skip(6))
        } else {
            let c = if e == 'b' {
                0x8u32 as char
            } else if e == 't' {
                0x9u32 as char
            } else if e == 'n' {
                0xau32 as char
            } else if e == 'f' {
                0xcu32 as char
            } else if e == 'r' {
                0xdu32 as char
            } else {
                e
            };
            seq![c] + unescaped(s.skip(2))
        }
    } else {
        seq![s[0]] + unescaped(s.skip(1))
    }
}

proof fn lemma_escaped_front(s: Seq<char>)
    requires
        s.len() > 0,
    ensures
        escaped(s) == escaped_char(s[0]) + escaped(s.drop_first()),
    decreases s.len(),
{
    if s.len() == 1 {
        assert(s.drop_last() =~= Seq::<char>::empty());
        assert(s.drop_first() =~= Seq::<char>::empty());
        assert(escaped(s) =~= escaped_char(s[0]) + escaped(s.drop_first()));
    } else {
        lemma_escaped_front(s.drop_last());
        assert(s.drop_last().drop_first() =~= s.drop_first().drop_last());
        assert(s.drop_first().last() == s.last());
        assert(escaped(s) =~= escaped_char(s[0]) + escaped(s.drop_first()));
    }
}

proof fn lemma_unescape_char(c: char, rest: Seq<char>)
    ensures
        unescaped(escaped_char(c) + rest) == seq![c] + unescaped(rest),
{
    let e = escaped_char(c) + rest;
    let u = c as u32;
    if escaped_char(c).len() == 1 {
        assert(e.skip(1) =~= rest);
    } else if escaped_char(c).len() == 2 {
        assert(e.skip(2) =~= rest);
        if u == 0x8 || u == 0x9 || u == 0xa || u == 0xc || u == 0xd {
            assert((u as char) == c);
        }
    } else {
        assert(e.skip(6) =~= rest);
        let hi = (u / 16) as nat;
        let lo = (u % 16) as nat;
        assert(hex_value(hex_digit(hi)) == hi);
        assert(hex_value(hex_digit(lo)) == lo);
        assert(hex_value('0') == 0);
        assert(hi * 16 + lo == u);
        assert((u as char) == c);
    }
}

/// Reading back the JSON string literal of a text gives the text: the text
/// fields of an object come back unchanged.
pub proof fn lemma_text_round_trip(s: Seq<char>)
    ensures
        unescaped(json_quoted(s).drop_first().drop_last()) == s,
{
    assert(json_quoted(s).drop_first().drop_last() =~= escaped(s));
    lemma_unescape_escaped(s);
}

proof fn lemma_unescape_escaped(s: Seq<char>)
    ensures
        unescaped(escaped(s)) == s,
    decreases s.len(),
{
    if s.len() > 0 {
        lemma_escaped_front(s);
        lemma_unescape_escaped(s.drop_first());
        lemma_unescape_char(s[0], escaped(s.drop_first()));
        assert(seq![s[0]] + s.drop_first() =~= s);
    }
}

/// Relies on serde_json::to_string, on a string slice: it writes the text
/// between double quotes, escaping the characters of its `ESCAPE` table as
/// `write_char_escape` does. Its only errors come from the writer, a `Vec`,
/// which never fails.
#[verifier::external_body]
fn quote(s: &str) -> (r: Result<String, serde_json::Error>)
    ensures
        r is Ok,
        r->Ok_0@ == json_quoted(s@),
{
    serde_json::to_string(s)
}

/// Relies on String::push: the character is appended at the end.
#[verifier::external_body]
fn push_char(s: &mut String, c: char)
    ensures
        final(s)@ == old(s)@.push(c),
{
    s.push(c)
}

/// The decimal digit for `d`.
pub open spec fn digit_char(d: nat) -> char {
    (48 + d) as char
}

/// The decimal text of `n`, without leading zeros.
pub open spec fn nat_text(n: nat) -> Seq<char>
    decreases n,
{
    if n < 10 {
        seq![digit_char(n)]
    } else {
        nat_text(n / 10).push(digit_char(n % 10))
    }
}

/// The decimal text of `n`, with a `-` before a negative number.
pub open spec fn int_text(n: int) -> Seq<char> {
    if n < 0 {
        seq!['-'] + nat_text((-n) as nat)
    } else {
        nat_text(n as nat)
    }
}

/// Appends the decimal text of `n`.
fn push_u64(out: &mut String, n: u64)
    ensures
        final(out)@ == old(out)@ + nat_text(n as nat),
    decreases n,
{
    if n >= 10 {
        push_u64(out, n / 10);
    }
    let d = (n % 10) as u8;
    push_char(out, (48u8 + d) as char);
    assert(final(out)@ =~= old(out)@ + nat_text(n as nat));
}

/// Appends the decimal text of `n`.
fn push_i64(out: &mut String, n: i64)
    ensures
        final(out)@ == old(out)@ + int_text(n as int),
{
    if n < 0 {
        push_char(out, '-');
        let m: u64 = if n == i64::MIN {
            0x8000_0000_0000_0000
        } else {
            (-n) as u64
        };
        push_u64(out, m);
        assert(final(out)@ =~= old(out)@ + int_text(n as int));
    } else {
        push_u64(out, n as u64);
    }
}

/// The object for a company whose name, as a JSON string, is `quoted_name`.
pub open spec fn company_json(cvr: u32, quoted_name: Seq<char>) -> Seq<char> {
    "{\"cvr\":"@ + nat_text(cvr as nat) + ",\"name\":"@ + quoted_name + "}"@
}

/// A member for an optional amount: `,"key":value` when present, nothing
/// when absent. `key_part` is the text `,"key":`.
pub open spec fn optional_member(key_part: Seq<char>, v: Option<i64>) -> Seq<char> {
    match v {
        Some(n) => key_part + int_text(n as int),
        None => Seq::empty(),
    }
}

/// The object for a tax record whose name and type, as JSON strings, are
/// `quoted_name` and `quoted_type`.
pub open spec fn tax_json(r: TaxRow, quoted_name: Seq<char>, quoted_type: Seq<char>) -> Seq<char> {
    "{\"cvr\":"@ + nat_text(r.cvr as nat) + ",\"se\":"@ + nat_text(r.se as nat)
        + ",\"company_name\":"@ + quoted_name + ",\"company_type\":"@ + quoted_type
        + ",\"year\":"@ + nat_text(r.year as nat) + optional_member(
        ",\"taxable_income\":"@,
        r.taxable_income,
    ) + optional_member(",\"deficit\":"@, r.deficit) + optional_member(
        ",\"corporate_tax\":"@,
        r.corporate_tax,
    ) + "}"@
}

/// The object for a company, given its name as a JSON string.
pub fn company_object(cvr: u32, quoted_name: &str) -> (r: String)
    ensures
        r@ == company_json(cvr, quoted_name@),
{
    let mut out = String::new();
    out.append("{\"cvr\":");
    push_u64(&mut out, cvr as u64);
    out.append(",\"name\":");
    out.append(quoted_name);
    out.append("}");
    assert(out@ =~= company_json(cvr, quoted_name@));
    out
}

/// Appends an optional amount member.
fn push_optional(out: &mut String, key_part: &str, v: Option<i64>)
    ensures
        final(out)@ == old(out)@ + optional_member(key_part@, v),
{
    match v {
        Some(n) => {
            out.append(key_part);
            push_i64(out, n);
            assert(final(out)@ =~= old(out)@ + optional_member(key_part@, v));
        },
        None => {
            assert(old(out)@ + optional_member(key_part@, v) =~= old(out)@);
        },
    }
}

/// The object for a tax record, given its name and type as JSON strings.
pub fn tax_object(rec: &TaxRecord, quoted_name: &str, quoted_type: &str) -> (r: String)
    ensures
        r@ == tax_json(rec@, quoted_name@, quoted_type@),
{
    let mut out = String::new();
    out.append("{\"cvr\":");
    push_u64(&mut out, rec.cvr as u64);
    out.append(",\"se\":");
    push_u64(&mut out, rec.se as u64);
    out.append(",\"company_name\":");
    out.append(quoted_name);
    out.append(",\"company_type\":");
    out.append(quoted_type);
    out.append(",\"year\":");
    push_u64(&mut out, rec.year as u64);
    push_optional(&mut out, ",\"taxable_income\":", rec.taxable_income);
    push_optional(&mut out, ",\"deficit\":", rec.deficit);
    push_optional(&mut out, ",\"corporate_tax\":", rec.corporate_tax);
    out.append("}");
    assert(out@ =~= tax_json(rec@, quoted_name@, quoted_type@));
    out
}

/// The JSON object for a company. `None` would stand for a name that
/// serde_json fails to write, which does not happen.
pub fn encode_company(c: &Company) -> (r: Option<String>)
    ensures
        r is Some,
        r->0@ == company_json(c.cvr, json_quoted(c.name@)),
{
    match quote(c.name.as_str()) {
        Ok(q) => Some(company_object(c.cvr, q.as_str())),
        Err(_) => None,
    }
}

/// The JSON object for a tax record. `None` would stand for a text that
/// serde_json fails to write, which does not happen.
pub fn encode_tax_record(rec: &TaxRecord) -> (r: Option<String>)
    ensures
        r is Some,
        r->0@ == tax_json(
            rec@,
            json_quoted(rec.company_name@),
            json_quoted(rec.company_type@),
        ),
{
    match (quote(rec.company_name.as_str()), quote(rec.company_type.as_str())) {
        (Ok(n), Ok(t)) => Some(tax_object(rec, n.as_str(), t.as_str())),
        _ => None,
    }
}

/// The texts of `items` joined with commas.
pub open spec fn join(items: Seq<Seq<char>>) -> Seq<char>
    decreases items.len(),
{
    if items.len() == 0 {
        Seq::empty()
    } else if items.len() == 1 {
        items[0]
    } else {
        join(items.drop_last()) + seq![','] + items.last()
    }
}

/// A JSON array of the values whose texts are `items`.
pub open spec fn json_array(items: Seq<Seq<char>>) -> Seq<char> {
    seq!['['] + join(items) + seq![']']
}

/// The text written for the element at `index` of an array: the opening
/// bracket before the first, a comma before each other.
pub open spec fn element_piece(index: nat, item: Seq<char>) -> Seq<char> {
    if index == 0 {
        seq!['['] + item
    } else {
        seq![','] + item
    }
}

/// The text written after `count` elements: it closes the array, and opens
/// it too when there were none.
pub open spec fn closing_piece(count: nat) -> Seq<char> {
    if count == 0 {
        seq!['[', ']']
    } else {
        seq![']']
    }
}

/// Everything written for the elements `items`, in order.
pub open spec fn element_pieces(items: Seq<Seq<char>>) -> Seq<char>
    decreases items.len(),
{
    if items.len() == 0 {
        Seq::empty()
    } else {
        element_pieces(items.drop_last()) + element_piece((items.len() - 1) as nat, items.last())
    }
}

/// Writing the elements one at a time and then closing gives one well-formed
/// array, whatever the number of elements: `[]`, `[a]`, `[a,b,...]`.
pub proof fn lemma_pieces_form_array(items: Seq<Seq<char>>)
    ensures
        element_pieces(items) + closing_piece(items.len()) == json_array(items),
{
    if items.len() == 0 {
        assert(element_pieces(items) + closing_piece(0) =~= json_array(items));
    } else {
        lemma_pieces_open_array(items);
        assert(element_pieces(items) + closing_piece(items.len()) =~= json_array(items));
    }
}

proof fn lemma_pieces_open_array(items: Seq<Seq<char>>)
    requires
        items.len() > 0,
    ensures
        element_pieces(items) == seq!['['] + join(items),
    decreases items.len(),
{
    if items.len() == 1 {
        assert(items.drop_last() =~= Seq::<Seq<char>>::empty());
        assert(element_pieces(items.drop_last()) == Seq::<char>::empty());
        assert(element_pieces(items) == Seq::<char>::empty() + (seq!['['] + items[0]));
        assert(element_pieces(items) =~= seq!['['] + join(items));
    } else {
        let d = items.drop_last();
        lemma_pieces_open_array(d);
        assert(element_pieces(items) == element_pieces(d) + (seq![','] + items.last()));
        assert(join(items) == join(d) + seq![','] + items.last());
        assert(element_pieces(items) =~= seq!['['] + join(items));
    }
}

/// Writes a JSON array one element at a time, so that only one element need
/// be held at once.
pub struct ArrayWriter {
    count: usize,
}

impl ArrayWriter {
    /// The number of elements written so far.
    pub closed spec fn written(&self) -> nat {
        self.count as nat
    }

    /// A writer that has written nothing.
    pub fn new() -> (r: ArrayWriter)
        ensures
            r.written() == 0,
    {
        ArrayWriter { count: 0 }
    }

    /// The text to write for the next element, whose JSON text is `item`.
    pub fn element(&mut self, item: &str) -> (r: String)
        requires
            old(self).written() < usize::MAX,
        ensures
            r@ == element_piece(old(self).written(), item@),
            final(self).written() == old(self).written() + 1,
    {
        let mut out = String::new();
        if self.count == 0 {
            out.append("[");
        } else {
            out.append(",");
        }
        out.append(item);
        proof {
            reveal_strlit("[");
            reveal_strlit(",");
        }
        assert(out@ =~= element_piece(self.count as nat, item@));
        self.count = self.count + 1;
        out
    }

    /// The text that closes the array.
    pub fn finish(&self) -> (r: String)
        ensures
            r@ == closing_piece(self.written()),
    {
        let mut out = String::new();
        if self.count == 0 {
            out.append("[]");
        } else {
            out.append("]");
        }
        proof {
            reveal_strlit("[]");
            reveal_strlit("]");
        }
        assert(out@ =~= closing_piece(self.count as nat));
        out
    }
}

/// The texts held by `v`.
pub open spec fn texts(v: Seq<String>) -> Seq<Seq<char>> {
    v.map_values(|s: String| s@)
}

/// The JSON array of the values whose texts are `items`.
pub fn encode_array(items: &Vec<String>) -> (r: String)
    ensures
        r@ == json_array(texts(items@)),
{
    let mut w = ArrayWriter::new();
    let mut out = String::new();
    let mut i: usize = 0;
    while i < items.len()
        invariant
            i <= items.len(),
            w.written() == i,
            out@ == element_pieces(texts(items@.take(i as int))),
        decreases items.len() - i,
    {
        let piece = w.element(items[i].as_str());
        out.append(piece.as_str());
        let ghost t = texts(items@.take(i + 1));
        assert(t.drop_last() =~= texts(items@.take(i as int)));
        assert(t.last() == items@[i as int]@);
        i = i + 1;
    }
    let end = w.finish();
    out.append(end.as_str());
    assert(items@.take(items.len() as int) =~= items@);
    proof {
        lemma_pieces_form_array(texts(items@));
    }
    out
}

/// The texts of `items`, each followed by a line break.
pub open spec fn lines_text(items: Seq<Seq<char>>) -> Seq<char>
    decreases items.len(),
{
    if items.len() == 0 {
        Seq::empty()
    } else {
        lines_text(items.drop_last()) + items.last() + seq!['\n']
    }
}

/// The texts of `items`, one per line: the body of a bulk import.
pub fn encode_lines(items: &Vec<String>) -> (r: String)
    ensures
        r@ == lines_text(texts(items@)),
{
    let mut out = String::new();
    let mut i: usize = 0;
    while i < items.len()
        invariant
            i <= items.len(),
            out@ == lines_text(texts(items@.take(i as int))),
        decreases items.len() - i,
    {
        out.append(items[i].as_str());
        push_char(&mut out, '\n');
        let ghost t = texts(items@.take(i + 1));
        assert(t.drop_last() =~= texts(items@.take(i as int)));
        assert(t.last() == items@[i as int]@);
        i = i + 1;
    }
    assert(items@.take(items.len() as int) =~= items@);
    out
}

proof fn lemma_nat_text_digits(n: nat)
    ensures
        nat_text(n).len() > 0,
        all_digits(nat_text(n)),
        digits_value(nat_text(n)) == n,
        nat_text(n)[0] != '+' && nat_text(n)[0] != '-',
        !white(nat_text(n)[0]),
        !white(nat_text(n).last()),
    decreases n,
{
    let t = nat_text(n);
    assert(digit_value(digit_char(n % 10)) == n % 10);
    if n < 10 {
        assert(t.drop_last() =~= Seq::<char>::empty());
        assert(digits_value(t.drop_last()) == 0);
        assert(n % 10 == n);
    } else {
        assert((n / 10) * 10 + n % 10 == n) by (nonlinear_arith);
        lemma_nat_text_digits(n / 10);
        let p = nat_text(n / 10);
        assert(t.drop_last() =~= p);
        assert forall|i: int| 0 <= i < t.len() implies is_digit(#[trigger] t[i]) by {
            if i < p.len() {
                assert(t[i] == p[i]);
            }
        }
        assert(t[0] == p[0]);
    }
}

proof fn lemma_nat_text_trimmed(n: nat)
    ensures
        trim(nat_text(n)) == nat_text(n),
{
    lemma_nat_text_digits(n);
}

/// The decimal text that an integer field is written with reads back, as a
/// cell, to the same value: a `u32` field.
pub proof fn lemma_u32_text_reads_back(n: u32)
    ensures
        coerce_u32(nat_text(n as nat)) == Some(n),
{
    lemma_nat_text_trimmed(n as nat);
    lemma_nat_text_digits(n as nat);
}

/// The decimal text that an integer field is written with reads back, as a
/// cell, to the same value: a `u16` field.
pub proof fn lemma_u16_text_reads_back(n: u16)
    ensures
        coerce_u16(nat_text(n as nat)) == Some(n),
{
    lemma_nat_text_trimmed(n as nat);
    lemma_nat_text_digits(n as nat);
}

/// The decimal text that an integer field is written with reads back, as a
/// cell, to the same value: an `i64` amount, negative ones included.
pub proof fn lemma_i64_text_reads_back(n: i64)
    ensures
        coerce_i64(int_text(n as int)) == Some(n),
{
    let m: nat = if n < 0 {
        (-n) as nat
    } else {
        n as nat
    };
    lemma_nat_text_digits(m);
    let t = int_text(n as int);
    if n < 0 {
        assert(t.drop_first() =~= nat_text(m));
        assert(t.last() == nat_text(m).last());
        assert(trim(t) == t);
    } else {
        lemma_nat_text_trimmed(m);
    }
}

} // verus!
