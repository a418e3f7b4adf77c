//! CSV encoding: fields quoted only where needed, quotes doubled, one line
//! feed per record.
use vstd::prelude::*;

use crate::text::{chars_of, push_char, push_str};

verus! {

/// A CSV field needs quotes when it holds a comma, a double quote, a carriage
/// return or a line feed.
pub open spec fn needs_quotes(field: Seq<char>) -> bool {
    exists|i: int|
        0 <= i < field.len() && (#[trigger] field[i] == ',' || field[i] == '"' || field[i] == '\r'
            || field[i] == '\n')
}

/// The field with every double quote doubled.
pub open spec fn doubled_quotes(field: Seq<char>) -> Seq<char>
    decreases field.len(),
{
    if field.len() == 0 {
        Seq::empty()
    } else {
        let rest = doubled_quotes(field.drop_last());
        if field.last() == '"' {
            rest + seq!['"', '"']
        } else {
            rest.push(field.last())
        }
    }
}

/// One CSV field as written: quoted (with doubled quotes) only when necessary.
pub open spec fn csv_field(field: Seq<char>) -> Seq<char> {
    if needs_quotes(field) {
        seq!['"'] + doubled_quotes(field) + seq!['"']
    } else {
        field
    }
}

/// The fields `0..k` joined by commas.
pub open spec fn csv_fields(fields: Seq<Seq<char>>, k: int) -> Seq<char>
    decreases k,
{
    if k <= 0 {
        Seq::empty()
    } else if k == 1 {
        csv_field(fields[0])
    } else {
        csv_fields(fields, k - 1) + seq![','] + csv_field(fields[k - 1])
    }
}

/// One CSV record: comma-separated fields and a line feed. A record whose
/// text would be empty is written as `""` so that it is not lost.
pub open spec fn csv_record(fields: Seq<Seq<char>>) -> Seq<char> {
    let body = csv_fields(fields, fields.len() as int);
    if body.len() == 0 {
        seq!['"', '"', '\n']
    } else {
        body.push('\n')
    }
}

pub open spec fn views_of(cells: Seq<String>) -> Seq<Seq<char>> {
    cells.map_values(|c: String| c@)
}

fn field_needs_quotes(v: &[char]) -> (b: bool)
    ensures
        b == needs_quotes(v@),
{
    let mut i: usize = 0;
    while i < v.len()
        invariant
            i <= v@.len(),
            forall|k: int|
                0 <= k < i ==> !(v@[k] == ',' || v@[k] == '"' || v@[k] == '\r' || v@[k] == '\n'),
        decreases v@.len() - i,
    {
        let c = v[i];
        if c == ',' || c == '"' || c == '\r' || c == '\n' {
            return true;
        }
        i += 1;
    }
    false
}

fn push_csv_field(out: &mut String, field: &str)
    ensures
        final(out)@ == old(out)@ + csv_field(field@),
{
    let v = chars_of(field);
    if !field_needs_quotes(v.as_slice()) {
        push_str(out, field);
        return ;
    }
    let ghost start = out@;
    push_char(out, '"');
    let mut i: usize = 0;
    while i < v.len()
        invariant
            i <= v@.len(),
            out@ == start + seq!['"'] + doubled_quotes(v@.take(i as int)),
        decreases v@.len() - i,
    {
        let c = v[i];
        push_char(out, c);
        if c == '"' {
            push_char(out, '"');
        }
        assert(v@.take(i + 1).drop_last() =~= v@.take(i as int));
        assert(out@ =~= start + seq!['"'] + doubled_quotes(v@.take(i + 1)));
        i += 1;
    }
    assert(v@.take(v@.len() as int) =~= v@);
    push_char(out, '"');
    assert(out@ =~= start + (seq!['"'] + doubled_quotes(v@) + seq!['"']));
}

/// Encodes one CSV record.
pub fn encode_csv_record(cells: &[String]) -> (s: String)
    ensures
        s@ == csv_record(views_of(cells@)),
{
    let ghost fs = views_of(cells@);
    let mut out = String::new();
    let mut k: usize = 0;
    while k < cells.len()
        invariant
            k <= cells@.len(),
            fs == views_of(cells@),
            out@ == csv_fields(fs, k as int),
        decreases cells@.len() - k,
    {
        if k > 0 {
            push_char(&mut out, ',');
        }
        push_csv_field(&mut out, cells[k].as_str());
        assert(out@ =~= csv_fields(fs, k + 1));
        k += 1;
    }
    if out.as_str().is_empty() {
        push_char(&mut out, '"');
        push_char(&mut out, '"');
    }
    push_char(&mut out, '\n');
    assert(out@ =~= csv_record(fs));
    out
}

} // verus!
