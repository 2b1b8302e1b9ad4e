//! The histogram of hits: one saturating counter for each pixel of the
//! screen, and the grey levels that a display shows for them.

use vstd::prelude::*;

verus! {

/// One step up, held at the largest value.
pub open spec fn saturating_incremented(value: u32) -> u32 {
    if value == u32::MAX {
        u32::MAX
    } else {
        (value + 1) as u32
    }
}

/// The largest value of `s`; 0 where `s` is empty.
pub open spec fn seq_max(s: Seq<u32>) -> u32
    decreases s.len(),
{
    if s.len() == 0 {
        0
    } else if s.last() > seq_max(s.drop_last()) {
        s.last()
    } else {
        seq_max(s.drop_last())
    }
}

/// How many values of `s` lie above `bound`.
pub open spec fn count_over(s: Seq<u32>, bound: u32) -> nat
    decreases s.len(),
{
    if s.len() == 0 {
        0
    } else if s.last() > bound {
        count_over(s.drop_last(), bound) + 1
    } else {
        count_over(s.drop_last(), bound)
    }
}

/// Fewer than one value in a thousand lies above `bound`.
pub open spec fn few_over(s: Seq<u32>, bound: u32) -> bool {
    count_over(s, bound) * 1_000 < s.len()
}

/// The bound that is reached from `from` by halving it as long as few
/// values lie above it and it is larger than 1.
pub open spec fn reduce_max(s: Seq<u32>, from: u32) -> u32
    decreases from,
{
    if few_over(s, from) && from > 1 {
        reduce_max(s, from / 2)
    } else {
        from
    }
}

/// The largest of the levels `0 ..= candidate` whose square, in units of
/// `reduced_max / 255²`, does not exceed `pixel`.
pub open spec fn square_level_from(candidate: nat, pixel: u32, reduced_max: u32) -> nat
    decreases candidate,
{
    if candidate == 0 || candidate * candidate * reduced_max <= pixel * 65_025 {
        candidate
    } else {
        square_level_from((candidate - 1) as nat, pixel, reduced_max)
    }
}

/// The grey level of a counter on the square-root scale on which
/// `reduced_max` is white: the root of `pixel * 255² / reduced_max`, rounded
/// down and held at 255. Without any hit everything is black.
pub open spec fn square_level(pixel: u32, reduced_max: u32) -> nat {
    if reduced_max == 0 {
        0
    } else {
        square_level_from(255, pixel, reduced_max)
    }
}

/// The grey level of a counter on the linear scale on which `max` is white:
/// `pixel * 255 / max`, rounded down and held at 255. Without any hit
/// everything is black.
pub open spec fn linear_level(pixel: u32, max: u32) -> nat {
    if max == 0 {
        0
    } else if pixel >= max {
        255
    } else {
        (pixel * 255 / (max as int)) as nat
    }
}

/// The colour that shows `level` in each of its three channels.
pub open spec fn grey(level: u32) -> u32 {
    level | (level << 8) | (level << 16)
}

/// The counters after the pixels `index[0]`, .., `index[lanes - 1]` were
/// hit, one after the other: each hit counts on the counters as the hit
/// before left them.
pub open spec fn quad_hits(pixels: Seq<u32>, index: [i64; 4], lanes: int) -> Seq<u32>
    decreases lanes,
{
    if lanes <= 0 {
        pixels
    } else {
        let before = quad_hits(pixels, index, lanes - 1);
        before.update(
            index[lanes - 1] as int,
            saturating_incremented(before[index[lanes - 1] as int]),
        )
    }
}

/// The counters of a screen, row by row.
pub struct Pixels {
    pub pixels: Vec<u32>,
}

impl Pixels {
    /// The counters.
    pub open spec fn view(&self) -> Seq<u32> {
        self.pixels@
    }

    pub fn new(width: usize, height: usize) -> (r: Self)
        requires
            width * height <= usize::MAX,
        ensures
            r@.len() == width * height,
            forall|i: int| 0 <= i < r@.len() ==> r@[i] == 0,
    {
        let len: usize = width * height;
        let mut pixels: Vec<u32> = Vec::new();
        let mut k: usize = 0;
        while k < len
            invariant
                k <= len,
                pixels@.len() == k,
                forall|i: int| 0 <= i < k ==> pixels@[i] == 0,
            decreases len - k,
        {
            pixels.push(0);
            k = k + 1;
        }
        Self { pixels }
    }

    /// Counts one hit of the pixel `index`.
    pub fn add_one(&mut self, index: usize)
        requires
            index < old(self)@.len(),
        ensures
            final(self)@ == old(self)@.update(
                index as int,
                saturating_incremented(old(self)@[index as int]),
            ),
    {
        let value: u32 = self.pixels[index].saturating_add(1);
        self.pixels[index] = value;
    }

    /// Counts one hit of each of four pixels, one after the other: a pixel
    /// that is named twice is counted twice.
    pub fn quad_add_one(&mut self, index: [i64; 4])
        requires
            forall|lane: int| 0 <= lane < 4 ==> 0 <= #[trigger] index[lane] < old(self)@.len(),
        ensures
            final(self)@ == quad_hits(old(self)@, index, 4),
            final(self)@.len() == old(self)@.len(),
    {
        assert(self@.len() == self.pixels.len());
        let mut lane: usize = 0;
        while lane < 4
            invariant
                lane <= 4,
                self@.len() == old(self)@.len(),
                self@.len() == self.pixels.len(),
                forall|k: int| 0 <= k < 4 ==> 0 <= #[trigger] index[k] < self@.len(),
                self@ == quad_hits(old(self)@, index, lane as int),
            decreases 4 - lane,
        {
            let pixel: usize = index[lane] as usize;
            self.add_one(pixel);
            lane = lane + 1;
        }
    }

    pub fn set(&mut self, index: usize, value: u32)
        requires
            index < old(self)@.len(),
        ensures
            final(self)@ == old(self)@.update(index as int, value),
    {
        self.pixels[index] = value;
    }

    /// The largest counter.
    pub fn max(&self) -> (max: u32)
        ensures
            max == seq_max(self@),
    {
        let mut max: u32 = 0;
        let mut k: usize = 0;
        while k < self.pixels.len()
            invariant
                k <= self@.len(),
                max == seq_max(self@.take(k as int)),
            decreases self@.len() - k,
        {
            assert(self@.take(k + 1).drop_last() =~= self@.take(k as int));
            if self.pixels[k] > max {
                max = self.pixels[k];
            }
            k = k + 1;
        }
        assert(self@.take(k as int) =~= self@);
        max
    }

    /// How many counters lie above `bound`.
    fn count_over(&self, bound: u32) -> (count: usize)
        ensures
            count == count_over(self@, bound),
            count <= self@.len(),
    {
        let mut count: usize = 0;
        let mut k: usize = 0;
        while k < self.pixels.len()
            invariant
                k <= self@.len(),
                count <= k,
                count == count_over(self@.take(k as int), bound),
            decreases self@.len() - k,
        {
            assert(self@.take(k + 1).drop_last() =~= self@.take(k as int));
            if self.pixels[k] > bound {
                count = count + 1;
            }
            k = k + 1;
        }
        assert(self@.take(k as int) =~= self@);
        count
    }

    /// The counter value that is shown as white: the largest counter,
    /// halved as long as fewer than one counter in a thousand lies above it
    /// and it is larger than 1. A few outliers do not darken the rest of
    /// the picture that way.
    pub fn reduced_max(&self) -> (reduced_max: u32)
        requires
            self@.len() * 1_000 <= usize::MAX,
        ensures
            reduced_max == reduce_max(self@, seq_max(self@)),
            reduced_max <= seq_max(self@),
            reduced_max == 0 <==> seq_max(self@) == 0,
    {
        let max: u32 = self.max();
        let mut reduced_max: u32 = max;
        loop
            invariant
                self@.len() * 1_000 <= usize::MAX,
                reduced_max <= max,
                reduced_max == 0 <==> max == 0,
                reduce_max(self@, reduced_max) == reduce_max(self@, max),
            ensures
                reduced_max <= max,
                reduced_max == 0 <==> max == 0,
                reduced_max == reduce_max(self@, max),
            decreases reduced_max,
        {
            let over: usize = self.count_over(reduced_max);
            assert(over * 1_000 <= self@.len() * 1_000) by (nonlinear_arith)
                requires
                    over <= self@.len(),
            ;
            if over * 1_000 < self.pixels.len() && reduced_max > 1 {
                reduced_max = reduced_max / 2;
            } else {
                break ;
            }
        }
        reduced_max
    }

    /// The picture on the square-root scale, as one grey colour for each
    /// pixel. The first counter is cleared before: it collects what falls
    /// beside the screen.
    pub fn squre_normalise(&mut self) -> (colors: Vec<u32>)
        requires
            0 < old(self)@.len(),
            old(self)@.len() * 1_000 <= usize::MAX,
        ensures
            final(self)@ == old(self)@.update(0, 0),
            colors@.len() == final(self)@.len(),
            forall|i: int|
                0 <= i < colors@.len() ==> colors@[i] == grey(
                    square_level(
                        #[trigger] final(self)@[i],
                        reduce_max(final(self)@, seq_max(final(self)@)),
                    ) as u32,
                ),
            forall|i: int|
                0 <= i < colors@.len() && #[trigger] final(self)@[i] == seq_max(final(self)@)
                    && seq_max(final(self)@) > 0 ==> colors@[i] == 0x00ff_ffff,
    {
        self.pixels[0] = 0;
        let reduced_max: u32 = self.reduced_max();
        proof {
            assert(grey(255) == 0x00ff_ffff) by {
                assert(255u32 | (255u32 << 8) | (255u32 << 16) == 0x00ff_ffffu32) by (bit_vector);
            }
            assert forall|i: int|
                0 <= i < self@.len() && #[trigger] self@[i] == seq_max(self@) && seq_max(self@)
                    > 0 implies square_level(self@[i], reduced_max) == 255 by {
                lemma_square_level_ends(self@[i], reduced_max);
            }
        }
        let mut colors: Vec<u32> = Vec::new();
        let mut k: usize = 0;
        while k < self.pixels.len()
            invariant
                k <= self@.len(),
                colors@.len() == k,
                forall|i: int|
                    0 <= i < k ==> colors@[i] == grey(
                        square_level(#[trigger] self@[i], reduced_max) as u32,
                    ),
            decreases self@.len() - k,
        {
            let color: u32 = get_square_level(self.pixels[k], reduced_max);
            colors.push(color | color << 8 | color << 16);
            k = k + 1;
        }
        colors
    }

    /// The level that shows the largest counter of a picture with hits:
    /// white, since what is shown as white is no more than that counter.
    pub proof fn lemma_max_is_white(&self)
        requires
            seq_max(self@) > 0,
        ensures
            0 < reduce_max(self@, seq_max(self@)) <= seq_max(self@),
            square_level(seq_max(self@), reduce_max(self@, seq_max(self@))) == 255,
    {
        lemma_reduce_max_le(self@, seq_max(self@));
        lemma_square_level_ends(seq_max(self@), reduce_max(self@, seq_max(self@)));
    }

    /// The picture on the linear scale, as one grey colour for each pixel.
    /// The first counter is cleared before: it collects what falls beside
    /// the screen.
    pub fn linear_normalise(&mut self) -> (colors: Vec<u32>)
        requires
            0 < old(self)@.len(),
        ensures
            final(self)@ == old(self)@.update(0, 0),
            colors@.len() == final(self)@.len(),
            forall|i: int|
                0 <= i < colors@.len() ==> colors@[i] == grey(
                    linear_level(#[trigger] final(self)@[i], seq_max(final(self)@)) as u32,
                ),
    {
        self.pixels[0] = 0;
        let max: u32 = self.max();
        let mut colors: Vec<u32> = Vec::new();
        let mut k: usize = 0;
        while k < self.pixels.len()
            invariant
                k <= self@.len(),
                colors@.len() == k,
                forall|i: int|
                    0 <= i < k ==> colors@[i] == grey(linear_level(#[trigger] self@[i], max) as u32),
            decreases self@.len() - k,
        {
            let color: u32 = get_linear_level(self.pixels[k], max);
            colors.push(color | color << 8 | color << 16);
            k = k + 1;
        }
        colors
    }

    /// Sets every counter back to 0.
    pub fn clear(&mut self)
        ensures
            final(self)@.len() == old(self)@.len(),
            forall|i: int| 0 <= i < final(self)@.len() ==> final(self)@[i] == 0,
    {
        let mut k: usize = 0;
        while k < self.pixels.len()
            invariant
                k <= self@.len(),
                self@.len() == old(self)@.len(),
                forall|i: int| 0 <= i < k ==> self@[i] == 0,
            decreases self@.len() - k,
        {
            self.pixels[k] = 0;
            k = k + 1;
        }
    }
}

/// The level of `pixel` on the linear scale on which `max` is white.
fn get_linear_level(pixel: u32, max: u32) -> (level: u32)
    ensures
        level == linear_level(pixel, max),
        level <= 255,
{
    if max == 0 {
        0
    } else if pixel >= max {
        255
    } else {
        let scaled: u64 = pixel as u64 * 255 / max as u64;
        assert(scaled <= 255) by {
            vstd::arithmetic::div_mod::lemma_div_is_ordered(
                pixel * 255,
                max * 255,
                max as int,
            );
            vstd::arithmetic::div_mod::lemma_div_multiples_vanish(255, max as int);
        }
        scaled as u32
    }
}

/// The level of `pixel` on the square-root scale on which `reduced_max` is
/// white, found by halving the range of the levels.
fn get_square_level(pixel: u32, reduced_max: u32) -> (level: u32)
    ensures
        level == square_level(pixel, reduced_max),
        level <= 255,
{
    if reduced_max == 0 {
        return 0;
    }
    let target: u64 = pixel as u64 * 65_025;
    let mut low: u64 = 0;
    let mut high: u64 = 256;
    assert(low * low * reduced_max == 0) by (nonlinear_arith)
        requires
            low == 0,
    ;
    while high - low > 1
        invariant
            0 <= low < high <= 256,
            target == pixel * 65_025,
            reduced_max > 0,
            low * low * reduced_max <= target,
            high <= 255 ==> high * high * reduced_max > target,
        decreases high - low,
    {
        let middle: u64 = low + (high - low) / 2;
        assert(middle * middle <= 65_025) by (nonlinear_arith)
            requires
                0 <= middle <= 255,
        ;
        assert(middle * middle * reduced_max <= 65_025 * 0xffff_ffff) by (nonlinear_arith)
            requires
                0 <= middle * middle <= 65_025,
                0 <= reduced_max <= 0xffff_ffff,
        ;
        if middle * middle * reduced_max as u64 <= target {
            low = middle;
        } else {
            high = middle;
        }
    }
    proof {
        lemma_square_level(low as nat, 255, pixel, reduced_max);
    }
    low as u32
}

/// The search from `candidate` downwards ends at `level`, where the square
/// of `level` fits and that of the next level, up to 255, does not.
proof fn lemma_square_level(level: nat, candidate: nat, pixel: u32, reduced_max: u32)
    requires
        level <= candidate <= 255,
        level * level * reduced_max <= pixel * 65_025,
        level < 255 ==> (level + 1) * (level + 1) * reduced_max > pixel * 65_025,
    ensures
        square_level_from(candidate, pixel, reduced_max) == level,
    decreases candidate,
{
    if candidate > level {
        assert(candidate * candidate * reduced_max >= (level + 1) * (level + 1) * reduced_max)
            by (nonlinear_arith)
            requires
                candidate >= level + 1,
                reduced_max >= 0,
                level >= 0,
        ;
        lemma_square_level(level, (candidate - 1) as nat, pixel, reduced_max);
    }
}

/// Halving never raises the bound: what is shown as white is no more than
/// the value that the halving started from, and each further halving gives
/// no more than the one before.
pub proof fn lemma_reduce_max_le(s: Seq<u32>, from: u32)
    ensures
        reduce_max(s, from) <= from,
        reduce_max(s, (from / 2) as u32) <= reduce_max(s, from),
        from > 0 ==> reduce_max(s, from) > 0,
    decreases from,
{
    if from > 1 {
        lemma_reduce_max_le(s, from / 2);
        if few_over(s, from) {
        } else {
        }
    } else if from == 1 {
        assert(reduce_max(s, 0) == 0);
    }
}

/// A counter that is shown as white or brighter has level 255, and a
/// counter of 0 is black.
pub proof fn lemma_square_level_ends(pixel: u32, reduced_max: u32)
    requires
        reduced_max > 0,
    ensures
        square_level(0, reduced_max) == 0,
        pixel >= reduced_max ==> square_level(pixel, reduced_max) == 255,
        square_level(pixel, reduced_max) <= 255,
{
    assert(0nat * 0nat * reduced_max == 0) by (nonlinear_arith);
    assert((0nat + 1) * (0nat + 1) * reduced_max > 0u32 * 65_025) by (nonlinear_arith)
        requires
            reduced_max > 0,
    ;
    lemma_square_level(0, 255, 0, reduced_max);
    if pixel >= reduced_max {
        assert(255nat * 255nat * reduced_max <= pixel * 65_025) by (nonlinear_arith)
            requires
                pixel >= reduced_max,
        ;
        lemma_square_level(255, 255, pixel, reduced_max);
    }
    lemma_square_level_bound(255, pixel, reduced_max);
}

/// The search from `candidate` downwards ends at or below `candidate`.
proof fn lemma_square_level_bound(candidate: nat, pixel: u32, reduced_max: u32)
    ensures
        square_level_from(candidate, pixel, reduced_max) <= candidate,
    decreases candidate,
{
    if candidate > 0 {
        lemma_square_level_bound((candidate - 1) as nat, pixel, reduced_max);
    }
}

} // verus!
