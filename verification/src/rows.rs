//! Pre-formatted display rows, as the render boundary consumes them: a
//! fixed-width name field, a right-aligned amount field, and for records a
//! trailing timestamp spaced out to the available width.

use vstd::prelude::*;

use crate::digits::{dec_text, format_i64, push_i64_text};
use crate::record::{record_wf, Record, RecordV};
use crate::text::{chars_string, extend_chars, extend_str, str_chars};
use crate::timefmt::{time_display, time_display_of};

verus! {

/// `n` spaces.
pub open spec fn spaces(n: int) -> Seq<char>
    decreases n,
{
    if n <= 0 {
        Seq::empty()
    } else {
        spaces(n - 1).push(' ')
    }
}

/// `s` padded on the right with spaces to at least `w` characters.
pub open spec fn pad_right(s: Seq<char>, w: int) -> Seq<char> {
    if s.len() >= w {
        s
    } else {
        s + spaces(w - s.len())
    }
}

/// `s` padded on the left with spaces to at least `w` characters.
pub open spec fn pad_left(s: Seq<char>, w: int) -> Seq<char> {
    if s.len() >= w {
        s
    } else {
        spaces(w - s.len()) + s
    }
}

/// Appends `n` spaces to `out`.
fn push_spaces(out: &mut Vec<char>, n: usize)
    ensures
        final(out)@ == old(out)@ + spaces(n as int),
{
    let mut i: usize = 0;
    while i < n
        invariant
            i <= n,
            out@ == old(out)@ + spaces(i as int),
        decreases n - i,
    {
        out.push(' ');
        i = i + 1;
    }
}

/// The display row of one aggregation entry: the recipient in a 30-character
/// field, a `: ` separator, the amount right-aligned in 10 characters, and a
/// trailing `/-`.
pub open spec fn total_row_text(name: Seq<char>, amount: int) -> Seq<char> {
    pad_right(name, 30) + ": "@ + pad_left(dec_text(amount), 10) + "/-"@
}

/// The display row of one record: the recipient in a 30-character field,
/// spacing computed from the render width, the amount right-aligned in 10
/// characters, `/-`, two spaces, and the display text of the timestamp.
pub open spec fn record_row_text(r: RecordV, width: u16) -> Seq<char> {
    let time = time_display_of(r.time);
    let gap = if width as int >= 46 + time.len() {
        width as int - 46 - time.len()
    } else {
        0
    };
    pad_right(r.recipient, 30) + spaces(gap) + pad_left(dec_text(r.amount as int), 10) + "/-"@
        + "  "@ + time
}

/// Builds the display row of one aggregation entry.  The render width plays
/// no part in this row.
pub fn build_total_item(total_item: &(String, i64), _width: u16) -> (r: String)
    ensures
        r@ == total_row_text(total_item.0@, total_item.1 as int),
{
    let mut out: Vec<char> = Vec::new();
    let name_chars = str_chars(total_item.0.as_str());
    extend_chars(&mut out, &name_chars);
    if name_chars.len() < 30 {
        push_spaces(&mut out, 30 - name_chars.len());
    }
    proof {
        assert(out@ =~= pad_right(total_item.0@, 30));
    }
    extend_str(&mut out, ": ");
    let digits = format_i64(total_item.1);
    if digits.len() < 10 {
        push_spaces(&mut out, 10 - digits.len());
    }
    extend_chars(&mut out, &digits);
    proof {
        assert(out@ =~= pad_right(total_item.0@, 30) + ": "@ + pad_left(
            dec_text(total_item.1 as int),
            10,
        ));
    }
    extend_str(&mut out, "/-");
    proof {
        assert(out@ =~= total_row_text(total_item.0@, total_item.1 as int));
    }
    chars_string(&out)
}

/// Builds the display row of one record for the given render width.
pub fn build_record(entry: &Record, width: u16) -> (r: String)
    requires
        record_wf(entry@),
    ensures
        r@ == record_row_text(entry@, width),
{
    let time = time_display(entry.time());
    let time_chars = str_chars(time.as_str());
    let used: usize = 46 + time_chars.len();
    let gap: usize = if width as usize >= used {
        width as usize - used
    } else {
        0
    };
    let mut out: Vec<char> = Vec::new();
    let name_chars = str_chars(entry.name());
    extend_chars(&mut out, &name_chars);
    if name_chars.len() < 30 {
        push_spaces(&mut out, 30 - name_chars.len());
    }
    proof {
        assert(out@ =~= pad_right(entry@.recipient, 30));
    }
    push_spaces(&mut out, gap);
    let digits = format_i64(entry.amount() as i64);
    if digits.len() < 10 {
        push_spaces(&mut out, 10 - digits.len());
    }
    extend_chars(&mut out, &digits);
    proof {
        assert(out@ =~= pad_right(entry@.recipient, 30) + spaces(gap as int) + pad_left(
            dec_text(entry@.amount as int),
            10,
        ));
    }
    extend_str(&mut out, "/-");
    extend_str(&mut out, "  ");
    extend_chars(&mut out, &time_chars);
    proof {
        assert(out@ =~= record_row_text(entry@, width));
    }
    chars_string(&out)
}

} // verus!
