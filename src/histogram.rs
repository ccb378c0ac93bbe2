use vstd::prelude::*;

use crate::search::{decimal, push_decimal};
use crate::text::{push_str, string_of};

verus! {

/// The number of buckets a price histogram is drawn with.
pub const NUM_STEPS: u32 = 15;

/// The horizontal axis of a price histogram: the least and greatest price and
/// the width of one bucket.
#[derive(Debug, Clone, Copy, PartialEq, Eq, Structural)]
pub struct HistogramAxis {
    pub min: u32,
    pub max: u32,
    pub step: u32,
}

/// The axis for the prices `entries`: their least and greatest value (0 for
/// both when there are none), and a step that splits that range into
/// `NUM_STEPS` buckets, rounded down.
pub fn histogram_axis(entries: &Vec<u32>) -> (r: HistogramAxis)
    ensures
        entries.len() == 0 ==> r.min == 0 && r.max == 0,
        entries.len() > 0 ==> (exists|i: int| 0 <= i < entries.len() && entries@[i] == r.min)
            && (exists|i: int| 0 <= i < entries.len() && entries@[i] == r.max) && (forall|i: int|
            0 <= i < entries.len() ==> r.min <= #[trigger] entries@[i] <= r.max),
        r.step == (r.max - r.min) / (NUM_STEPS as int),
{
    if entries.len() == 0 {
        return HistogramAxis { min: 0, max: 0, step: 0 };
    }
    let mut lo: u32 = entries[0];
    let mut hi: u32 = entries[0];
    let mut i: usize = 1;
    while i < entries.len()
        invariant
            1 <= i <= entries.len(),
            exists|k: int| 0 <= k < i && entries@[k] == lo,
            exists|k: int| 0 <= k < i && entries@[k] == hi,
            forall|k: int| 0 <= k < i ==> lo <= #[trigger] entries@[k] <= hi,
        decreases entries.len() - i,
    {
        if entries[i] < lo {
            lo = entries[i];
        }
        if entries[i] > hi {
            hi = entries[i];
        }
        i = i + 1;
    }
    HistogramAxis { min: lo, max: hi, step: (hi - lo) / NUM_STEPS }
}

/// The label of a bucket centred on the price `center` (in minor units): the
/// whole złoty, rounded down, and the currency, as in `"1200 PLN"`.
pub fn price_label(center: u32) -> (r: String)
    ensures
        r@ == decimal((center / 100) as nat) + " PLN"@,
{
    let mut out: Vec<char> = Vec::new();
    push_decimal(&mut out, center / 100);
    push_str(&mut out, " PLN");
    string_of(out.as_slice())
}

} // verus!
