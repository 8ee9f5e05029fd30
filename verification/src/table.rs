//! Laying out the text table of results.

use vstd::prelude::*;
use unicode_width::UnicodeWidthStr;

verus! {

/// Width of the `photo` column in the text table, in terminal columns.
pub const PHOTO_COLUMN: usize = 30;

/// How many terminal columns a text occupies when printed, as the
/// `unicode-width` crate measures it.
pub uninterp spec fn display_width(s: Seq<char>) -> usize;

/// Calls `unicode_width::UnicodeWidthStr::width`, whose result is named
/// `display_width`. Nothing further about its value is stated.
#[verifier::external_body]
fn str_display_width(s: &str) -> (w: usize)
    ensures
        w == display_width(s@),
{
    UnicodeWidthStr::width(s)
}

/// `s` followed by enough spaces to fill `width` columns, given that `s`
/// itself prints `printed` columns wide; an over-long `s` is left as it is.
pub open spec fn padded(s: Seq<char>, printed: int, width: int) -> Seq<char> {
    if printed >= width {
        s
    } else {
        s + Seq::new((width - printed) as nat, |i: int| ' ')
    }
}

/// Pads `s`, which prints `printed` columns wide, to `width` columns.
pub fn pad_to_printed_width(s: &str, printed: usize, width: usize) -> (out: String)
    ensures
        out@ == padded(s@, printed as int, width as int),
        printed >= width ==> out@ == s@,
        printed < width ==> out@.len() == s@.len() + (width - printed) && out@.subrange(
            0,
            s@.len() as int,
        ) == s@ && forall|i: int| s@.len() <= i < out@.len() ==> #[trigger] out@[i] == ' ',
{
    let mut out = String::from_str(s);
    if printed >= width {
        return out;
    }
    let fill = width - printed;
    let mut k: usize = 0;
    while k < fill
        invariant
            k <= fill,
            fill == width - printed,
            out@ == s@ + Seq::new(k as nat, |i: int| ' '),
        decreases fill - k,
    {
        out.append(" ");
        proof {
            reveal_strlit(" ");
            assert(s@ + Seq::new((k + 1) as nat, |i: int| ' ') =~= s@ + Seq::new(k as nat, |i: int| ' ')
                + " "@);
        }
        k = k + 1;
    }
    out
}

/// Pads `s` to `width` terminal columns, not to `width` characters, so a
/// name with wide (e.g. CJK) characters lines up with the columns after it.
/// Over-long names are left to overflow.
pub fn pad_to_width(s: &str, width: usize) -> (out: String)
    ensures
        out@ == padded(s@, display_width(s@) as int, width as int),
        display_width(s@) >= width ==> out@ == s@,
        display_width(s@) < width ==> out@.len() == s@.len() + (width - display_width(s@))
            && out@.subrange(0, s@.len() as int) == s@ && forall|i: int|
            s@.len() <= i < out@.len() ==> #[trigger] out@[i] == ' ',
{
    let printed = str_display_width(s);
    pad_to_printed_width(s, printed, width)
}

} // verus!
