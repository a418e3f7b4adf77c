//! TXT encoding: one numbered block per record, one `field: value` line per
//! field, and multi-line values on lines of their own.
use vstd::prelude::*;

use crate::export::csv::views_of;
use crate::text::{chars_of, decimal, push_char, push_decimal, push_str};

verus! {

/// The text holds a carriage return or a line feed.
pub open spec fn has_line_break(s: Seq<char>) -> bool {
    exists|i: int| 0 <= i < s.len() && (#[trigger] s[i] == '\r' || s[i] == '\n')
}

/// The decimal spelling of `n`, left-padded with zeros to at least `width`
/// characters.
pub open spec fn zero_padded(n: nat, width: nat) -> Seq<char> {
    let d = decimal(n);
    if d.len() >= width {
        d
    } else {
        Seq::new((width - d.len()) as nat, |i: int| '0') + d
    }
}

/// The banner line that opens record `number`.
pub open spec fn txt_banner(number: nat) -> Seq<char> {
    "========== RECORD "@ + zero_padded(number, 6) + " ==========\n"@
}

/// The line (or lines) of one field: `field: value`, or `field:` followed by a
/// multi-line value that always ends with a line feed.
pub open spec fn txt_line(field: Seq<char>, cell: Seq<char>) -> Seq<char> {
    if has_line_break(cell) {
        field + seq![':', '\n'] + cell + (if cell.len() > 0 && cell.last() == '\n' {
            Seq::empty()
        } else {
            seq!['\n']
        })
    } else {
        field + seq![':', ' '] + cell + seq!['\n']
    }
}

/// The lines of the first `k` field/value pairs.
pub open spec fn txt_lines(fields: Seq<Seq<char>>, cells: Seq<Seq<char>>, k: int) -> Seq<char>
    decreases k,
{
    if k <= 0 {
        Seq::empty()
    } else {
        txt_lines(fields, cells, k - 1) + txt_line(fields[k - 1], cells[k - 1])
    }
}

/// One TXT record: the banner, one entry per field paired with a value, and
/// a blank line.
pub open spec fn txt_record(fields: Seq<Seq<char>>, cells: Seq<Seq<char>>, number: nat) -> Seq<
    char,
> {
    let n = if fields.len() <= cells.len() {
        fields.len()
    } else {
        cells.len()
    };
    txt_banner(number) + txt_lines(fields, cells, n as int) + seq!['\n']
}

/// Whether the characters hold a carriage return or a line feed.
pub fn has_line_break_exec(v: &[char]) -> (b: bool)
    ensures
        b == has_line_break(v@),
{
    let mut i: usize = 0;
    while i < v.len()
        invariant
            i <= v@.len(),
            forall|k: int| 0 <= k < i ==> !(v@[k] == '\r' || v@[k] == '\n'),
        decreases v@.len() - i,
    {
        if v[i] == '\r' || v[i] == '\n' {
            assert(v@[i as int] == '\r' || v@[i as int] == '\n');
            return true;
        }
        i += 1;
    }
    false
}

/// Appends `n` padded with zeros to six digits.
pub fn push_zero_padded(out: &mut String, n: u64)
    ensures
        final(out)@ == old(out)@ + zero_padded(n as nat, 6),
{
    let mut digits = String::new();
    push_decimal(&mut digits, n);
    assert(digits@ =~= decimal(n as nat));
    let len = chars_of(digits.as_str()).len();
    if len < 6 {
        let ghost start = out@;
        let mut k: usize = len;
        while k < 6
            invariant
                len <= k <= 6,
                len == decimal(n as nat).len(),
                out@ == start + Seq::new((k - len) as nat, |i: int| '0'),
            decreases 6 - k,
        {
            push_char(out, '0');
            assert(out@ =~= start + Seq::new((k + 1 - len) as nat, |i: int| '0'));
            k += 1;
        }
        push_str(out, digits.as_str());
        assert(out@ =~= start + zero_padded(n as nat, 6));
    } else {
        push_str(out, digits.as_str());
    }
}

fn push_txt_line(out: &mut String, field: &str, cell: &str)
    ensures
        final(out)@ == old(out)@ + txt_line(field@, cell@),
{
    let v = chars_of(cell);
    let ghost start = out@;
    push_str(out, field);
    if has_line_break_exec(v.as_slice()) {
        push_char(out, ':');
        push_char(out, '\n');
        push_str(out, cell);
        if !(v.len() > 0 && v[v.len() - 1] == '\n') {
            push_char(out, '\n');
        }
    } else {
        push_char(out, ':');
        push_char(out, ' ');
        push_str(out, cell);
        push_char(out, '\n');
    }
    assert(out@ =~= start + txt_line(field@, cell@));
}

/// Encodes one TXT record with the given record number.
pub fn encode_txt_record(fields: &[String], cells: &[String], number: u64) -> (s: String)
    ensures
        s@ == txt_record(views_of(fields@), views_of(cells@), number as nat),
{
    let ghost fs = views_of(fields@);
    let ghost cs = views_of(cells@);
    let mut out = String::new();
    push_str(&mut out, "========== RECORD ");
    push_zero_padded(&mut out, number);
    push_str(&mut out, " ==========\n");
    assert(out@ =~= txt_banner(number as nat));
    let n = if fields.len() <= cells.len() {
        fields.len()
    } else {
        cells.len()
    };
    let mut k: usize = 0;
    while k < n
        invariant
            k <= n,
            n <= fields@.len(),
            n <= cells@.len(),
            fs == views_of(fields@),
            cs == views_of(cells@),
            out@ == txt_banner(number as nat) + txt_lines(fs, cs, k as int),
        decreases n - k,
    {
        push_txt_line(&mut out, fields[k].as_str(), cells[k].as_str());
        assert(out@ =~= txt_banner(number as nat) + txt_lines(fs, cs, k + 1));
        k += 1;
    }
    push_char(&mut out, '\n');
    assert(out@ =~= txt_record(fs, cs, number as nat));
    out
}

} // verus!
