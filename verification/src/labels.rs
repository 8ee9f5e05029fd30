//! The words-of-estimative-probability yardstick (the bands of ICD 203,
//! published by the Office of the Director of National Intelligence) that
//! puts a qualitative call beside a match percentage.

use vstd::prelude::*;

verus! {

/// The band a whole match percentage falls in, from 0 ("Almost no chance")
/// up to 6 ("Almost certain"). The yardstick's bands overlap at their edges;
/// these cutoffs (`>= 95`, `>= 80`, `>= 55`, `>= 45`, `>= 20`, `>= 5`) make
/// them disjoint.
pub open spec fn confidence_band(percent: int) -> int {
    if percent >= 95 {
        6
    } else if percent >= 80 {
        5
    } else if percent >= 55 {
        4
    } else if percent >= 45 {
        3
    } else if percent >= 20 {
        2
    } else if percent >= 5 {
        1
    } else {
        0
    }
}

/// The words for each band.
pub open spec fn band_label(band: int) -> Seq<char> {
    if band == 6 {
        "Almost certain"@
    } else if band == 5 {
        "Very likely"@
    } else if band == 4 {
        "Likely"@
    } else if band == 3 {
        "Even chance"@
    } else if band == 2 {
        "Unlikely"@
    } else if band == 1 {
        "Very unlikely"@
    } else {
        "Almost no chance"@
    }
}

/// Maps a match percentage onto the yardstick.
///
/// The cutoffs are whole numbers, so a percentage `p` lands in the same band
/// as its integer part: pass `p.floor()` (a NaN counts as the bottom band).
pub fn confidence_label(whole_percent: i64) -> (label: &'static str)
    ensures
        label@ == band_label(confidence_band(whole_percent as int)),
        95 <= whole_percent ==> label@ == "Almost certain"@,
        80 <= whole_percent < 95 ==> label@ == "Very likely"@,
        55 <= whole_percent < 80 ==> label@ == "Likely"@,
        45 <= whole_percent < 55 ==> label@ == "Even chance"@,
        20 <= whole_percent < 45 ==> label@ == "Unlikely"@,
        5 <= whole_percent < 20 ==> label@ == "Very unlikely"@,
        whole_percent < 5 ==> label@ == "Almost no chance"@,
{
    if whole_percent >= 95 {
        "Almost certain"
    } else if whole_percent >= 80 {
        "Very likely"
    } else if whole_percent >= 55 {
        "Likely"
    } else if whole_percent >= 45 {
        "Even chance"
    } else if whole_percent >= 20 {
        "Unlikely"
    } else if whole_percent >= 5 {
        "Very unlikely"
    } else {
        "Almost no chance"
    }
}

/// A higher percentage never gets a weaker label.
pub proof fn lemma_band_monotone(p: int, q: int)
    requires
        p <= q,
    ensures
        confidence_band(p) <= confidence_band(q),
{
}

/// Every percentage maps to exactly one label: the seven labels are
/// distinct, so the label a percentage gets names its band.
pub proof fn lemma_labels_distinct(a: int, b: int)
    requires
        0 <= a <= 6,
        0 <= b <= 6,
        a != b,
    ensures
        band_label(a) != band_label(b),
{
    reveal_strlit("Almost certain");
    reveal_strlit("Very likely");
    reveal_strlit("Likely");
    reveal_strlit("Even chance");
    reveal_strlit("Unlikely");
    reveal_strlit("Very unlikely");
    reveal_strlit("Almost no chance");
    let la = band_label(a);
    let lb = band_label(b);
    if la.len() == lb.len() {
        // Labels of one length differ in their first letter.
        assert(la[0] != lb[0]);
    }
}

} // verus!
