//! Colours for escape times.

use vstd::prelude::*;

verus! {

/// The grey value of an escape time: it falls from 128 to 16 in steps of 16
/// and starts over after every eighth iteration.
pub open spec fn color_value(iterations: i64) -> int {
    128 - (iterations * 16) % 128
}

/// The colour that shows `value` in each of its three channels.
pub open spec fn color_of(value: int) -> int {
    value + value * 256 + value * 65_536
}

/// The colours of four escape times.
pub fn iterations_to_color(iterations: [i64; 4]) -> (colors: [u32; 4])
    requires
        forall|lane: int| 0 <= lane < 4 ==> 0 <= #[trigger] iterations[lane] < 0x1000_0000,
    ensures
        forall|lane: int|
            0 <= lane < 4 ==> #[trigger] colors[lane] == color_of(color_value(iterations[lane])),
{
    let mut colors: [u32; 4] = [0;4];
    let mut i: usize = 0;
    while i < 4
        invariant
            i <= 4,
            forall|lane: int| 0 <= lane < 4 ==> 0 <= #[trigger] iterations[lane] < 0x1000_0000,
            forall|lane: int|
                0 <= lane < i ==> #[trigger] colors[lane] == color_of(
                    color_value(iterations[lane]),
                ),
        decreases 4 - i,
    {
        let count: u32 = iterations[i] as u32;
        let value: u32 = 128 - (count * 16) % 128;
        assert((value << 8) == value * 256 && (value << 16) == value * 65_536) by (bit_vector)
            requires
                value <= 128,
        ;
        colors[i] = value + (value << 8) + (value << 16);
        i = i + 1;
    }
    colors
}

} // verus!
