//! The bookkeeping of the four lanes that are iterated in lockstep: their
//! iteration counts, their hits of the screen, and which lane is given the
//! next sample.
//!
//! The caller advances the trajectories and tells for each lane whether it
//! escaped and where it lies on the screen. The bookkeeping counts the hits
//! and picks the lane to replace: at most one in a step, and each lane in
//! its turn.

use crate::pixels::{saturating_incremented, Pixels};
use vstd::prelude::*;

verus! {

/// The iteration count that a lane starts with, so that it is replaced
/// before it is iterated.
pub const INITIAL_ITERATION: u64 = 1_000_000;

/// A sample that stayed on the screen for this many iterations is worth
/// mutating.
pub const INTERESTING_ITERATIONS_ON_SCREEN: i64 = 2;

/// `turn` is the mask of one lane.
pub open spec fn is_turn(turn: u8) -> bool {
    turn == 1 || turn == 2 || turn == 4 || turn == 8
}

/// The lane whose mask `turn` is.
pub open spec fn lane_of(turn: u8) -> int {
    if turn == 1 {
        0
    } else if turn == 2 {
        1
    } else if turn == 4 {
        2
    } else {
        3
    }
}

/// The mask of the lane after the lane of `turn`; after the last lane
/// comes the first.
pub open spec fn rotated(turn: u8) -> u8 {
    if turn == 1 {
        2
    } else if turn == 2 {
        4
    } else if turn == 4 {
        8
    } else {
        1
    }
}

/// The mask whose bit `lane` is set where `flags[lane]` holds.
pub open spec fn mask_of(flags: [bool; 4]) -> u8 {
    (if flags[0] {
        1u8
    } else {
        0u8
    }) | (if flags[1] {
        2u8
    } else {
        0u8
    }) | (if flags[2] {
        4u8
    } else {
        0u8
    }) | (if flags[3] {
        8u8
    } else {
        0u8
    })
}

/// The mask of the lane that is replaced: the lane whose turn it is, if it
/// needs to be replaced, and no lane otherwise.
pub open spec fn chosen_mask(turn: u8, needs_replace: [bool; 4]) -> u8 {
    turn & mask_of(needs_replace)
}

/// The iteration counts of the four lanes.
#[derive(Debug, Clone, Copy)]
pub struct MandelIter {
    iteration: [u64; 4],
}

impl MandelIter {
    pub closed spec fn spec_iteration(&self) -> [u64; 4] {
        self.iteration
    }

    /// Four lanes that are due for replacement.
    pub fn new() -> (r: Self)
        ensures
            forall|lane: int| 0 <= lane < 4 ==> #[trigger] r.spec_iteration()[lane] == INITIAL_ITERATION,
    {
        Self { iteration: [INITIAL_ITERATION;4] }
    }

    /// Counts one step of each lane. The counts wrap around at the end of
    /// their range, as the lanes of a vector do.
    pub fn next_iteration(&mut self)
        ensures
            forall|lane: int|
                0 <= lane < 4 ==> #[trigger] final(self).spec_iteration()[lane] == (if old(
                    self,
                ).spec_iteration()[lane] == u64::MAX {
                    0
                } else {
                    old(self).spec_iteration()[lane] + 1
                }),
    {
        let mut lane: usize = 0;
        while lane < 4
            invariant
                lane <= 4,
                forall|k: int|
                    0 <= k < lane ==> #[trigger] self.iteration[k] == (if old(self).iteration[k]
                        == u64::MAX {
                        0
                    } else {
                        old(self).iteration[k] + 1
                    }),
                forall|k: int| lane <= k < 4 ==> #[trigger] self.iteration[k] == old(self).iteration[k],
            decreases 4 - lane,
        {
            let count: u64 = self.iteration[lane];
            self.iteration[lane] = if count == u64::MAX {
                0
            } else {
                count + 1
            };
            lane = lane + 1;
        }
    }

    /// Starts the count of `lane` over for a new sample.
    pub fn replace(&mut self, lane: usize)
        requires
            lane < 4,
        ensures
            forall|k: int|
                0 <= k < 4 ==> #[trigger] final(self).spec_iteration()[k] == (if k == lane {
                    0
                } else {
                    old(self).spec_iteration()[k]
                }),
    {
        self.iteration[lane] = 0;
    }

    pub fn get_iteration(&self) -> (iteration: [u64; 4])
        ensures
            iteration == self.spec_iteration(),
    {
        self.iteration
    }
}

/// What is to be done for the lane that was picked.
#[derive(Debug, Clone, Copy, PartialEq, Eq, Structural)]
pub struct Replacement {
    /// The lane that is given the next sample.
    pub lane: usize,
    /// Whether the sample that leaves the lane is to be mutated: it stayed
    /// on the screen, and the samples in use are no mutations themselves.
    pub mutate: bool,
}

/// The bookkeeping of the lanes and the histogram of their hits.
pub struct Buddha {
    mandel_iter: MandelIter,
    max_iteration: u64,
    iterations_on_screen: [i64; 4],
    pixels: Pixels,
    using_mutated_samples: bool,
    turn: u8,
}

impl Buddha {
    pub closed spec fn spec_iteration(&self) -> [u64; 4] {
        self.mandel_iter.spec_iteration()
    }

    pub closed spec fn spec_max_iteration(&self) -> u64 {
        self.max_iteration
    }

    /// For each lane, the steps that its sample spent on the screen.
    pub closed spec fn spec_iterations_on_screen(&self) -> [i64; 4] {
        self.iterations_on_screen
    }

    /// The counters of the screen.
    pub closed spec fn spec_pixels(&self) -> Seq<u32> {
        self.pixels@
    }

    pub closed spec fn spec_using_mutated_samples(&self) -> bool {
        self.using_mutated_samples
    }

    /// The mask of the lane whose turn it is.
    pub closed spec fn spec_turn(&self) -> u8 {
        self.turn
    }

    /// Exactly one lane has the turn.
    pub open spec fn wf(&self) -> bool {
        is_turn(self.spec_turn())
    }

    /// The lanes that are to be replaced, given those that escaped: these,
    /// and those that reached the cap of iterations.
    pub open spec fn needs_replace(&self, escaped: [bool; 4]) -> [bool; 4] {
        [
            escaped[0] || self.spec_iteration()[0] >= self.spec_max_iteration(),
            escaped[1] || self.spec_iteration()[1] >= self.spec_max_iteration(),
            escaped[2] || self.spec_iteration()[2] >= self.spec_max_iteration(),
            escaped[3] || self.spec_iteration()[3] >= self.spec_max_iteration(),
        ]
    }

    /// The bookkeeping for a screen of `width` by `height` pixels, with all
    /// four lanes due for replacement and the first lane in turn.
    pub fn new(max_iterations: u64, width: usize, height: usize) -> (r: Self)
        requires
            width * height <= usize::MAX,
        ensures
            r.wf(),
            r.spec_turn() == 1,
            r.spec_max_iteration() == max_iterations,
            forall|lane: int| 0 <= lane < 4 ==> #[trigger] r.spec_iteration()[lane] == INITIAL_ITERATION,
            forall|lane: int| 0 <= lane < 4 ==> #[trigger] r.spec_iterations_on_screen()[lane] == 0,
            r.spec_pixels().len() == width * height,
            forall|i: int| 0 <= i < r.spec_pixels().len() ==> r.spec_pixels()[i] == 0,
            !r.spec_using_mutated_samples(),
    {
        Self {
            mandel_iter: MandelIter::new(),
            max_iteration: max_iterations,
            iterations_on_screen: [0;4],
            pixels: Pixels::new(width, height),
            using_mutated_samples: false,
            turn: 1,
        }
    }

    /// One step of all lanes: counts the step, and for each lane that lies
    /// on the screen a hit of its pixel and a step on the screen.
    pub fn iterate(&mut self, in_view: [bool; 4], screen_index: [usize; 4])
        requires
            old(self).wf(),
            forall|lane: int|
                0 <= lane < 4 && #[trigger] in_view[lane] ==> screen_index[lane] < old(
                    self,
                ).spec_pixels().len(),
        ensures
            final(self).wf(),
            final(self).spec_turn() == old(self).spec_turn(),
            final(self).spec_max_iteration() == old(self).spec_max_iteration(),
            final(self).spec_using_mutated_samples() == old(self).spec_using_mutated_samples(),
            forall|lane: int|
                0 <= lane < 4 ==> #[trigger] final(self).spec_iteration()[lane] == (if old(
                    self,
                ).spec_iteration()[lane] == u64::MAX {
                    0
                } else {
                    old(self).spec_iteration()[lane] + 1
                }),
            forall|lane: int|
                0 <= lane < 4 ==> #[trigger] final(self).spec_iterations_on_screen()[lane] == (
                if in_view[lane] && old(self).spec_iterations_on_screen()[lane] < i64::MAX {
                    old(self).spec_iterations_on_screen()[lane] + 1
                } else {
                    old(self).spec_iterations_on_screen()[lane] as int
                }),
            final(self).spec_pixels() == hits_upto(
                old(self).spec_pixels(),
                in_view,
                screen_index,
                4,
            ),
    {
        self.mandel_iter.next_iteration();
        let ghost counted = self.mandel_iter.spec_iteration();
        let mut lane: usize = 0;
        while lane < 4
            invariant
                lane <= 4,
                self.turn == old(self).turn,
                self.max_iteration == old(self).max_iteration,
                self.using_mutated_samples == old(self).using_mutated_samples,
                self.mandel_iter.spec_iteration() == counted,
                self.pixels@.len() == old(self).pixels@.len(),
                forall|k: int|
                    0 <= k < 4 && #[trigger] in_view[k] ==> screen_index[k] < old(
                        self,
                    ).pixels@.len(),
                forall|k: int|
                    0 <= k < lane ==> #[trigger] self.iterations_on_screen[k] == (if in_view[k]
                        && old(self).iterations_on_screen[k] < i64::MAX {
                        old(self).iterations_on_screen[k] + 1
                    } else {
                        old(self).iterations_on_screen[k] as int
                    }),
                forall|k: int|
                    lane <= k < 4 ==> #[trigger] self.iterations_on_screen[k] == old(
                        self,
                    ).iterations_on_screen[k],
                self.pixels@ == hits_upto(old(self).pixels@, in_view, screen_index, lane as int),
            decreases 4 - lane,
        {
            if in_view[lane] {
                let on_screen: i64 = self.iterations_on_screen[lane];
                if on_screen < i64::MAX {
                    self.iterations_on_screen[lane] = on_screen + 1;
                }
                proof {
                    lemma_hits_len(old(self).pixels@, in_view, screen_index, lane as int);
                }
                self.pixels.add_one(screen_index[lane]);
            }
            lane = lane + 1;
        }
    }

    /// Picks the lane that is given the next sample, given the lanes that
    /// escaped. A lane is to be replaced when it escaped or reached the cap
    /// of iterations; it is replaced when it is its turn. The turn passes
    /// to the next lane in every call, whether a lane was replaced or not.
    pub fn try_replace_samples(&mut self, escaped: [bool; 4]) -> (replaced: Option<Replacement>)
        requires
            old(self).wf(),
        ensures
            final(self).wf(),
            final(self).spec_turn() == rotated(old(self).spec_turn()),
            final(self).spec_max_iteration() == old(self).spec_max_iteration(),
            final(self).spec_using_mutated_samples() == old(self).spec_using_mutated_samples(),
            final(self).spec_pixels() == old(self).spec_pixels(),
            replaced is Some <==> chosen_mask(old(self).spec_turn(), old(self).needs_replace(escaped))
                != 0,
            replaced is Some <==> old(self).needs_replace(escaped)[lane_of(old(self).spec_turn())],
            replaced matches Some(r) ==> {
                &&& r.lane == lane_of(old(self).spec_turn())
                &&& r.mutate == (old(self).spec_iterations_on_screen()[r.lane as int]
                    >= INTERESTING_ITERATIONS_ON_SCREEN && !old(self).spec_using_mutated_samples())
            },
            forall|k: int|
                0 <= k < 4 ==> #[trigger] final(self).spec_iteration()[k] == (if replaced is Some
                    && k == lane_of(old(self).spec_turn()) {
                    0
                } else {
                    old(self).spec_iteration()[k]
                }),
            forall|k: int|
                0 <= k < 4 ==> #[trigger] final(self).spec_iterations_on_screen()[k] == (
                if replaced is Some && k == lane_of(old(self).spec_turn()) {
                    0
                } else {
                    old(self).spec_iterations_on_screen()[k]
                }),
    {
        let iteration = self.mandel_iter.get_iteration();
        let need0 = escaped[0] || iteration[0] >= self.max_iteration;
        let need1 = escaped[1] || iteration[1] >= self.max_iteration;
        let need2 = escaped[2] || iteration[2] >= self.max_iteration;
        let need3 = escaped[3] || iteration[3] >= self.max_iteration;
        let bit0: u8 = if need0 {
            1
        } else {
            0
        };
        let bit1: u8 = if need1 {
            2
        } else {
            0
        };
        let bit2: u8 = if need2 {
            4
        } else {
            0
        };
        let bit3: u8 = if need3 {
            8
        } else {
            0
        };
        let values_to_replace: u8 = bit0 | bit1 | bit2 | bit3;
        let turn: u8 = self.turn;
        let singel_value_to_replace: u8 = turn & values_to_replace;
        self.turn = ((turn << 1) | (turn >> 3)) & 0x0f;
        proof {
            assert(values_to_replace == mask_of(self.needs_replace(escaped)));
            assert(((turn << 1) | (turn >> 3)) & 0x0f == if turn == 1 {
                2u8
            } else if turn == 2 {
                4u8
            } else if turn == 4 {
                8u8
            } else {
                1u8
            }) by (bit_vector)
                requires
                    turn == 1 || turn == 2 || turn == 4 || turn == 8,
            ;
            lemma_at_most_one_lane(turn, old(self).needs_replace(escaped));
        }
        if singel_value_to_replace == 0 {
            return None;
        }
        let lane: usize = if singel_value_to_replace == 1 {
            0
        } else if singel_value_to_replace == 2 {
            1
        } else if singel_value_to_replace == 4 {
            2
        } else {
            3
        };
        let mutate = self.iterations_on_screen[lane] >= INTERESTING_ITERATIONS_ON_SCREEN
            && !self.using_mutated_samples;
        self.iterations_on_screen[lane] = 0;
        self.mandel_iter.replace(lane);
        Some(Replacement { lane, mutate })
    }

    /// Takes note of the kind of the samples that were fetched: fresh ones
    /// or mutations. Returns whether more fresh samples are to be asked
    /// for, which is the case after fresh ones came in.
    pub fn replenish_samples(&mut self, mutated: bool) -> (request_sample: bool)
        ensures
            request_sample == !mutated,
            final(self).spec_using_mutated_samples() == mutated,
            final(self).spec_turn() == old(self).spec_turn(),
            final(self).spec_max_iteration() == old(self).spec_max_iteration(),
            final(self).spec_iteration() == old(self).spec_iteration(),
            final(self).spec_iterations_on_screen() == old(self).spec_iterations_on_screen(),
            final(self).spec_pixels() == old(self).spec_pixels(),
    {
        self.using_mutated_samples = mutated;
        !mutated
    }

    /// Empties the histogram for a new view of the plane.
    pub fn update_view_rect(&mut self)
        ensures
            final(self).spec_pixels().len() == old(self).spec_pixels().len(),
            forall|i: int| 0 <= i < final(self).spec_pixels().len() ==> final(self).spec_pixels()[i] == 0,
            final(self).spec_turn() == old(self).spec_turn(),
            final(self).spec_max_iteration() == old(self).spec_max_iteration(),
            final(self).spec_iteration() == old(self).spec_iteration(),
            final(self).spec_iterations_on_screen() == old(self).spec_iterations_on_screen(),
            final(self).spec_using_mutated_samples() == old(self).spec_using_mutated_samples(),
    {
        self.pixels.clear();
    }

    /// The histogram, for the display.
    pub fn get_pixels(&self) -> (pixels: &Pixels)
        ensures
            pixels@ == self.spec_pixels(),
    {
        &self.pixels
    }

    /// The picture of the histogram on the square-root scale.
    pub fn normalise_pixels(&mut self) -> (colors: Vec<u32>)
        requires
            0 < old(self).spec_pixels().len(),
            old(self).spec_pixels().len() * 1_000 <= usize::MAX,
        ensures
            final(self).spec_pixels() == old(self).spec_pixels().update(0, 0),
            colors@.len() == final(self).spec_pixels().len(),
            forall|i: int|
                0 <= i < colors@.len() ==> colors@[i] == crate::pixels::grey(
                    crate::pixels::square_level(
                        #[trigger] final(self).spec_pixels()[i],
                        crate::pixels::reduce_max(
                            final(self).spec_pixels(),
                            crate::pixels::seq_max(final(self).spec_pixels()),
                        ),
                    ) as u32,
                ),
            final(self).spec_turn() == old(self).spec_turn(),
            final(self).spec_max_iteration() == old(self).spec_max_iteration(),
            final(self).spec_iteration() == old(self).spec_iteration(),
            final(self).spec_iterations_on_screen() == old(self).spec_iterations_on_screen(),
            final(self).spec_using_mutated_samples() == old(self).spec_using_mutated_samples(),
    {
        self.pixels.squre_normalise()
    }
}

/// The counters after the hits of the lanes `0 .. lanes` that lie on the
/// screen were counted, one after the other.
pub open spec fn hits_upto(
    pixels: Seq<u32>,
    in_view: [bool; 4],
    screen_index: [usize; 4],
    lanes: int,
) -> Seq<u32>
    decreases lanes,
{
    if lanes <= 0 {
        pixels
    } else {
        let before = hits_upto(pixels, in_view, screen_index, lanes - 1);
        if in_view[lanes - 1] {
            before.update(
                screen_index[lanes - 1] as int,
                saturating_incremented(before[screen_index[lanes - 1] as int]),
            )
        } else {
            before
        }
    }
}

/// Counting hits does not change the number of counters.
pub proof fn lemma_hits_len(
    pixels: Seq<u32>,
    in_view: [bool; 4],
    screen_index: [usize; 4],
    lanes: int,
)
    requires
        lanes <= 4,
        forall|lane: int|
            0 <= lane < 4 && #[trigger] in_view[lane] ==> screen_index[lane] < pixels.len(),
    ensures
        hits_upto(pixels, in_view, screen_index, lanes).len() == pixels.len(),
    decreases lanes,
{
    if lanes > 0 {
        lemma_hits_len(pixels, in_view, screen_index, lanes - 1);
    }
}

/// Where all four lanes are to be replaced in four calls in a row, each
/// lane is picked in exactly one of them: the four lanes that are picked
/// differ from one another, and after the fourth call the turn is back
/// where it started.
pub proof fn lemma_fair_replacement(turn: u8)
    requires
        is_turn(turn),
    ensures
        chosen_mask(turn, [true, true, true, true]) == turn,
        chosen_mask(rotated(turn), [true, true, true, true]) == rotated(turn),
        chosen_mask(rotated(rotated(turn)), [true, true, true, true]) == rotated(rotated(turn)),
        chosen_mask(rotated(rotated(rotated(turn))), [true, true, true, true]) == rotated(
            rotated(rotated(turn)),
        ),
        lane_of(turn) != lane_of(rotated(turn)),
        lane_of(turn) != lane_of(rotated(rotated(turn))),
        lane_of(turn) != lane_of(rotated(rotated(rotated(turn)))),
        lane_of(rotated(turn)) != lane_of(rotated(rotated(turn))),
        lane_of(rotated(turn)) != lane_of(rotated(rotated(rotated(turn)))),
        lane_of(rotated(rotated(turn))) != lane_of(rotated(rotated(rotated(turn)))),
        rotated(rotated(rotated(rotated(turn)))) == turn,
{
    let all = [true, true, true, true];
    assert(mask_of(all) == 15u8) by {
        assert(1u8 | 2u8 | 4u8 | 8u8 == 15u8) by (bit_vector);
    }
    assert(1u8 & 15u8 == 1u8 && 2u8 & 15u8 == 2u8 && 4u8 & 15u8 == 4u8 && 8u8 & 15u8 == 8u8)
        by (bit_vector);
}

/// The turn passes on to a lane, and the lane that is picked is picked
/// alone: the mask of the pick has no bit or the one bit of the turn.
pub proof fn lemma_at_most_one_lane(turn: u8, needs_replace: [bool; 4])
    requires
        is_turn(turn),
    ensures
        is_turn(rotated(turn)),
        chosen_mask(turn, needs_replace) == 0 || chosen_mask(turn, needs_replace) == turn,
        chosen_mask(turn, needs_replace) == turn <==> needs_replace[lane_of(turn)],
{
    let mask = mask_of(needs_replace);
    assert(turn & mask == 0 || turn & mask == turn) by (bit_vector)
        requires
            turn == 1 || turn == 2 || turn == 4 || turn == 8,
    ;
    let bit0: u8 = if needs_replace[0] {
        1
    } else {
        0
    };
    let bit1: u8 = if needs_replace[1] {
        2
    } else {
        0
    };
    let bit2: u8 = if needs_replace[2] {
        4
    } else {
        0
    };
    let bit3: u8 = if needs_replace[3] {
        8
    } else {
        0
    };
    assert(turn & (bit0 | bit1 | bit2 | bit3) == if turn == 1 {
        bit0
    } else if turn == 2 {
        bit1
    } else if turn == 4 {
        bit2
    } else {
        bit3
    }) by (bit_vector)
        requires
            turn == 1 || turn == 2 || turn == 4 || turn == 8,
            bit0 == 0 || bit0 == 1,
            bit1 == 0 || bit1 == 2,
            bit2 == 0 || bit2 == 4,
            bit3 == 0 || bit3 == 8,
    ;
}

} // verus!
