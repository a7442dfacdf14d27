//! Integer parts of the day timeline: the colour of an activity.
use vstd::prelude::*;
use vstd::arithmetic::div_mod::lemma_add_mod_noop_right;
use vstd::string::StringSliceAdditionalSpecFns;

verus! {

/// The sum, over the bytes of a name, of each byte scaled from 0..=255 to
/// 0..=360 (rounded down).
pub open spec fn hue_sum(bytes: Seq<u8>) -> int
    decreases bytes.len(),
{
    if bytes.len() == 0 {
        0
    } else {
        hue_sum(bytes.drop_last()) + bytes.last() as int * 360 / 255
    }
}

/// The hue (in degrees, below 360) that the timeline paints an activity
/// with: it depends on the bytes of the name alone, so an activity keeps its
/// colour.
pub fn activity_hue(name: &str) -> (r: u32)
    ensures
        r as int == hue_sum(name.spec_bytes()) % 360,
{
    let bytes = name.as_bytes();
    let ghost b = bytes@;
    let mut hue: u32 = 0;
    let mut i: usize = 0;
    while i < bytes.len()
        invariant
            b == bytes@,
            i <= b.len(),
            hue < 360,
            hue as int == hue_sum(b.take(i as int)) % 360,
        decreases b.len() - i,
    {
        let inc = bytes[i] as u32 * 360 / 255;
        assert(b.take(i + 1).drop_last() =~= b.take(i as int));
        assert(b.take(i + 1).last() == b[i as int]);
        proof {
            lemma_add_mod_noop_right(inc as int, hue_sum(b.take(i as int)), 360);
        }
        hue = (hue + inc) % 360;
        i = i + 1;
    }
    assert(b.take(i as int) =~= b);
    hue
}

} // verus!
