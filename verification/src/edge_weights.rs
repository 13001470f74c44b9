//! The learnable weights of the edge kinds: their order and their bounds.

use crate::double::Double;
use vstd::prelude::*;

verus! {

/// Place of the weight in arrays of weights and attributions.
pub const IDX_RECALLS: usize = 0;

/// Place of the weight in arrays of weights and attributions.
pub const IDX_ABSTRACTS_TO: usize = 1;

/// Place of the weight in arrays of weights and attributions.
pub const IDX_REINFORCES: usize = 2;

/// Place of the weight in arrays of weights and attributions.
pub const IDX_TEMPORAL_SEQ: usize = 3;

/// Place of the weight in arrays of weights and attributions.
pub const IDX_CONTRADICTS: usize = 4;

/// Place of the weight in arrays of weights and attributions.
pub const IDX_DEFINES: usize = 5;

/// Place of the weight in arrays of weights and attributions.
pub const IDX_SPAWNED_FROM: usize = 6;

/// Place of the weight in arrays of weights and attributions.
pub const IDX_RECURRENT: usize = 7;

/// The bounds of the weight at a place: the suppressing weight stays negative,
/// the others positive.
pub open spec fn weight_bounds(index: usize) -> (Double, Double) {
    if index == IDX_CONTRADICTS {
        (Double { bits: 0xBFEE_6666_6666_6666 }, Double { bits: 0xBFA9_9999_9999_999A })
    } else if index == IDX_RECURRENT {
        (Double { bits: 0x3FA9_9999_9999_999A }, Double { bits: 0x3FE8_0000_0000_0000 })
    } else {
        (Double { bits: 0x3F84_7AE1_47AE_147B }, Double { bits: 0x3FEF_5C28_F5C2_8F5C })
    }
}

/// A weight held within its bounds: -0.95 to -0.05 for suppression, 0.05 to
/// 0.75 for re-injection, 0.01 to 0.98 for the rest.
pub fn clamp_weight(index: usize, w: Double) -> (r: Double)
    ensures
        r == w.bounded(weight_bounds(index).0, weight_bounds(index).1),
        !w.nan() ==> weight_bounds(index).0.le(r) && r.le(weight_bounds(index).1),
{
    if index == IDX_CONTRADICTS {
        w.clamp(Double { bits: 0xBFEE_6666_6666_6666 }, Double { bits: 0xBFA9_9999_9999_999A })
    } else if index == IDX_RECURRENT {
        w.clamp(Double { bits: 0x3FA9_9999_9999_999A }, Double { bits: 0x3FE8_0000_0000_0000 })
    } else {
        w.clamp(Double { bits: 0x3F84_7AE1_47AE_147B }, Double { bits: 0x3FEF_5C28_F5C2_8F5C })
    }
}

/// The suppressing weight stays below zero, and every other above it.
pub proof fn weights_keep_their_sign(index: usize, w: Double)
    requires
        !w.nan(),
    ensures
        ({
            let held = w.bounded(weight_bounds(index).0, weight_bounds(index).1);
            if index == IDX_CONTRADICTS {
                held.lt(Double { bits: 0 })
            } else {
                (Double { bits: 0 }).lt(held)
            }
        }),
{
}

/// The bits of 0.001: an attribution below it leaves its weight alone.
pub const MIN_ATTRIBUTION: u64 = 0x3F50_624D_D2F1_A9FC;

/// Whether a reward moves the weight at `index`: the reward is not zero, and the
/// attribution there is not below the least one that counts. A missing
/// attribution counts as zero.
pub open spec fn moves_weight(attributions: Seq<Double>, index: int, reward: Double) -> bool {
    let attribution = if 0 <= index < attributions.len() {
        attributions[index]
    } else {
        Double { bits: 0 }
    };
    !reward.same_number(Double { bits: 0 }) && !attribution.lt(Double { bits: MIN_ATTRIBUTION })
}

/// The places whose weights a reward moves.
pub fn moved_weights(attributions: &Vec<Double>, reward: Double) -> (r: Vec<bool>)
    ensures
        r@.len() == 8,
        forall|i: int| 0 <= i < 8 ==> r@[i] == moves_weight(attributions@, i, reward),
{
    let mut out: Vec<bool> = Vec::new();
    let still = reward.equals(Double { bits: 0 });
    let mut i: usize = 0;
    while i < 8
        invariant
            i <= 8,
            out@.len() == i,
            still == reward.same_number(Double { bits: 0 }),
            forall|j: int| 0 <= j < i ==> out@[j] == moves_weight(attributions@, j, reward),
        decreases 8 - i,
    {
        let attribution = if i < attributions.len() {
            attributions[i]
        } else {
            Double { bits: 0 }
        };
        out.push(!still && !attribution.less(Double { bits: MIN_ATTRIBUTION }));
        i += 1;
    }
    out
}

/// A zero reward moves nothing.
pub proof fn zero_reward_moves_nothing(attributions: Seq<Double>, index: int)
    ensures
        !moves_weight(attributions, index, Double { bits: 0 }),
{
}

/// The learnable weights, and what the optimizer remembers of each.
#[derive(Debug)]
pub struct EdgeWeights {
    pub recalls: Double,
    pub abstracts_to: Double,
    pub reinforces: Double,
    pub temporal_seq: Double,
    /// Suppression; negative.
    pub contradicts: Double,
    pub defines: Double,
    pub spawned_from: Double,
    /// Re-injection.
    pub recurrent: Double,
    /// Momentum of each weight.
    pub m: [Double; 8],
    /// Velocity of each weight.
    pub v: [Double; 8],
    /// Steps taken.
    pub t: u64,
}

/// What one optimizer step gives for one weight, before its bounds.
#[derive(Clone, Copy, Debug, PartialEq, Eq, Structural)]
pub struct AdamStep {
    pub m: Double,
    pub v: Double,
    pub weight: Double,
}

/// The default weights: 0.70, 0.50, 0.60, 0.30, -0.40, 0.20, 0.45 and 0.35.
pub open spec fn default_weights() -> Seq<Double> {
    seq![
        Double { bits: 0x3FE6_6666_6666_6666 },
        Double { bits: 0x3FE0_0000_0000_0000 },
        Double { bits: 0x3FE3_3333_3333_3333 },
        Double { bits: 0x3FD3_3333_3333_3333 },
        Double { bits: 0xBFD9_9999_9999_999A },
        Double { bits: 0x3FC9_9999_9999_999A },
        Double { bits: 0x3FDC_CCCC_CCCC_CCCD },
        Double { bits: 0x3FD6_6666_6666_6666 },
    ]
}

/// `after` is `before` once it took one optimizer step. A zero reward changes
/// nothing; else the weights that the attributions involve take the step, within
/// their bounds, and the others stay.
pub open spec fn stepped(
    before: EdgeWeights,
    attributions: Seq<Double>,
    reward: Double,
    steps: Seq<AdamStep>,
    after: EdgeWeights,
) -> bool {
    if reward.same_number(Double { bits: 0 }) {
        after == before
    } else {
        &&& after.t == if before.t < u64::MAX {
            (before.t + 1) as u64
        } else {
            u64::MAX
        }
        &&& forall|i: int|
            0 <= i < 8 ==> #[trigger] after.in_order()[i] == if moves_weight(
                attributions,
                i,
                reward,
            ) {
                steps[i].weight.bounded(
                    weight_bounds(i as usize).0,
                    weight_bounds(i as usize).1,
                )
            } else {
                before.in_order()[i]
            }
        &&& forall|i: int|
            0 <= i < 8 ==> #[trigger] after.m@[i] == if moves_weight(
                attributions,
                i,
                reward,
            ) {
                steps[i].m
            } else {
                before.m@[i]
            }
        &&& forall|i: int|
            0 <= i < 8 ==> #[trigger] after.v@[i] == if moves_weight(
                attributions,
                i,
                reward,
            ) {
                steps[i].v
            } else {
                before.v@[i]
            }
    }
}

/// The steps that are taken lead to numbers.
pub open spec fn numeric(attributions: Seq<Double>, reward: Double, steps: Seq<AdamStep>) -> bool {
    forall|i: int|
        0 <= i < 8 && moves_weight(attributions, i, reward) ==> !(#[trigger] steps[i]).weight.nan()
}

impl EdgeWeights {
    /// The weights in the order of their places.
    pub open spec fn in_order(self) -> Seq<Double> {
        seq![
            self.recalls,
            self.abstracts_to,
            self.reinforces,
            self.temporal_seq,
            self.contradicts,
            self.defines,
            self.spawned_from,
            self.recurrent,
        ]
    }

    /// The weights before any learning.
    pub fn defaults() -> (r: EdgeWeights)
        ensures
            r.in_order() == default_weights(),
            forall|i: int| 0 <= i < 8 ==> r.m@[i] == (Double { bits: 0 }) && r.v@[i] == (Double {
                bits: 0,
            }),
            r.t == 0,
    {
        let zero = Double { bits: 0 };
        let r = EdgeWeights {
            recalls: Double { bits: 0x3FE6_6666_6666_6666 },
            abstracts_to: Double { bits: 0x3FE0_0000_0000_0000 },
            reinforces: Double { bits: 0x3FE3_3333_3333_3333 },
            temporal_seq: Double { bits: 0x3FD3_3333_3333_3333 },
            contradicts: Double { bits: 0xBFD9_9999_9999_999A },
            defines: Double { bits: 0x3FC9_9999_9999_999A },
            spawned_from: Double { bits: 0x3FDC_CCCC_CCCC_CCCD },
            recurrent: Double { bits: 0x3FD6_6666_6666_6666 },
            m: [zero, zero, zero, zero, zero, zero, zero, zero],
            v: [zero, zero, zero, zero, zero, zero, zero, zero],
            t: 0,
        };
        assert(r.in_order() =~= default_weights());
        r
    }

    /// The weights in the order of their places.
    pub fn as_array(&self) -> (r: [Double; 8])
        ensures
            r@ == self.in_order(),
    {
        let r = [
            self.recalls,
            self.abstracts_to,
            self.reinforces,
            self.temporal_seq,
            self.contradicts,
            self.defines,
            self.spawned_from,
            self.recurrent,
        ];
        assert(r@ =~= self.in_order());
        r
    }

    /// The weight at a place; zero beyond the last.
    pub fn weight(&self, index: usize) -> (r: Double)
        ensures
            r == if index < 8 {
                self.in_order()[index as int]
            } else {
                Double { bits: 0 }
            },
    {
        if index < 8 {
            self.as_array()[index]
        } else {
            Double { bits: 0 }
        }
    }

    fn put(&mut self, index: usize, w: Double)
        requires
            index < 8,
        ensures
            final(self).in_order() == old(self).in_order().update(index as int, w),
            final(self).m == old(self).m,
            final(self).v == old(self).v,
            final(self).t == old(self).t,
    {
        if index == IDX_RECALLS {
            self.recalls = w;
        } else if index == IDX_ABSTRACTS_TO {
            self.abstracts_to = w;
        } else if index == IDX_REINFORCES {
            self.reinforces = w;
        } else if index == IDX_TEMPORAL_SEQ {
            self.temporal_seq = w;
        } else if index == IDX_CONTRADICTS {
            self.contradicts = w;
        } else if index == IDX_DEFINES {
            self.defines = w;
        } else if index == IDX_SPAWNED_FROM {
            self.spawned_from = w;
        } else {
            self.recurrent = w;
        }
        assert(self.in_order() =~= old(self).in_order().update(index as int, w));
    }

    /// Every weight lies within its bounds.
    pub open spec fn bounded(self) -> bool {
        forall|i: int|
            0 <= i < 8 ==> weight_bounds(i as usize).0.le(#[trigger] self.in_order()[i])
                && self.in_order()[i].le(weight_bounds(i as usize).1)
    }

    /// Takes one optimizer step. A zero reward changes nothing; else the weights
    /// that the attributions involve take the step, within their bounds, and the
    /// others stay. `steps` gives the step of each weight.
    pub fn adam_update(&mut self, attributions: &Vec<Double>, reward: Double, steps: &Vec<AdamStep>)
        requires
            steps@.len() == 8,
        ensures
            stepped(*old(self), attributions@, reward, steps@, *final(self)),
    {
        if reward.equals(Double { bits: 0 }) {
            return;
        }
        let moved = moved_weights(attributions, reward);
        self.t = self.t.saturating_add(1);
        let ghost before = *old(self);
        let mut i: usize = 0;
        while i < 8
            invariant
                i <= 8,
                steps@.len() == 8,
                moved@.len() == 8,
                !reward.same_number(Double { bits: 0 }),
                before == *old(self),
                self.t == if before.t < u64::MAX {
                    (before.t + 1) as u64
                } else {
                    u64::MAX
                },
                forall|j: int| 0 <= j < 8 ==> moved@[j] == moves_weight(attributions@, j, reward),
                forall|j: int|
                    0 <= j < 8 ==> #[trigger] self.in_order()[j] == if j < i && moves_weight(
                        attributions@,
                        j,
                        reward,
                    ) {
                        steps@[j].weight.bounded(
                            weight_bounds(j as usize).0,
                            weight_bounds(j as usize).1,
                        )
                    } else {
                        before.in_order()[j]
                    },
                forall|j: int|
                    0 <= j < 8 ==> #[trigger] self.m@[j] == if j < i && moves_weight(
                        attributions@,
                        j,
                        reward,
                    ) {
                        steps@[j].m
                    } else {
                        before.m@[j]
                    },
                forall|j: int|
                    0 <= j < 8 ==> #[trigger] self.v@[j] == if j < i && moves_weight(
                        attributions@,
                        j,
                        reward,
                    ) {
                        steps@[j].v
                    } else {
                        before.v@[j]
                    },
            decreases 8 - i,
        {
            if moved[i] {
                let step: AdamStep = steps[i];
                let w = clamp_weight(i, step.weight);
                self.put(i, w);
                self.m[i] = step.m;
                self.v[i] = step.v;
            }
            i += 1;
        }
    }
}

/// The default weights lie within their bounds.
pub proof fn defaults_are_bounded(w: EdgeWeights)
    requires
        w.in_order() == default_weights(),
    ensures
        w.bounded(),
{
    assert forall|i: int| 0 <= i < 8 implies weight_bounds(i as usize).0.le(
        #[trigger] w.in_order()[i],
    ) && w.in_order()[i].le(weight_bounds(i as usize).1) by {
        assert(w.in_order()[i] == default_weights()[i]);
    }
}

/// A step that leads to numbers keeps every weight within its bounds.
pub proof fn steps_keep_bounds(
    before: EdgeWeights,
    attributions: Seq<Double>,
    reward: Double,
    steps: Seq<AdamStep>,
    after: EdgeWeights,
)
    requires
        before.bounded(),
        numeric(attributions, reward, steps),
        stepped(before, attributions, reward, steps, after),
    ensures
        after.bounded(),
{
    if !reward.same_number(Double { bits: 0 }) {
        assert forall|i: int| 0 <= i < 8 implies weight_bounds(i as usize).0.le(
            #[trigger] after.in_order()[i],
        ) && after.in_order()[i].le(weight_bounds(i as usize).1) by {
            assert(weight_bounds(i as usize).0.le(before.in_order()[i]));
            if moves_weight(attributions, i, reward) {
                assert(!steps[i].weight.nan());
            }
        }
    }
}

/// Learning from the defaults on, over any number of rewards whose steps lead to
/// numbers, keeps every weight within its bounds: the suppressing weight stays
/// below zero, and every other above it. `states` are the weights before and after
/// each of the `lessons`, and a lesson is attributions, a reward and steps.
pub proof fn learned_weights_stay_bounded(
    states: Seq<EdgeWeights>,
    lessons: Seq<(Seq<Double>, Double, Seq<AdamStep>)>,
)
    requires
        states.len() == lessons.len() + 1,
        states[0].in_order() == default_weights(),
        forall|k: int|
            0 <= k < lessons.len() ==> numeric(
                (#[trigger] lessons[k]).0,
                lessons[k].1,
                lessons[k].2,
            ) && stepped(
                states[k],
                lessons[k].0,
                lessons[k].1,
                lessons[k].2,
                states[k + 1],
            ),
    ensures
        states.last().bounded(),
        forall|i: int|
            0 <= i < 8 ==> if i == IDX_CONTRADICTS {
                (#[trigger] states.last().in_order()[i]).lt(Double { bits: 0 })
            } else {
                (Double { bits: 0 }).lt(states.last().in_order()[i])
            },
    decreases lessons.len(),
{
    if lessons.len() == 0 {
        defaults_are_bounded(states[0]);
    } else {
        let fewer = lessons.drop_last();
        assert forall|k: int| 0 <= k < fewer.len() implies numeric(
            (#[trigger] fewer[k]).0,
            fewer[k].1,
            fewer[k].2,
        ) && stepped(
            states.drop_last()[k],
            fewer[k].0,
            fewer[k].1,
            fewer[k].2,
            states.drop_last()[k + 1],
        ) by {
            assert(fewer[k] == lessons[k]);
        }
        learned_weights_stay_bounded(states.drop_last(), fewer);
        let k = lessons.len() - 1;
        let lesson = lessons[k];
        steps_keep_bounds(states[k], lesson.0, lesson.1, lesson.2, states[k + 1]);
    }
    let w = states.last();
    assert forall|i: int| 0 <= i < 8 implies if i == IDX_CONTRADICTS {
        (#[trigger] w.in_order()[i]).lt(Double { bits: 0 })
    } else {
        (Double { bits: 0 }).lt(w.in_order()[i])
    } by {
        assert(weight_bounds(i as usize).0.le(w.in_order()[i]));
    }
}

/// The weights stand at fixed places.
pub proof fn weights_stand_at_their_places(w: EdgeWeights)
    ensures
        w.in_order().len() == 8,
        w.in_order()[0] == w.recalls,
        w.in_order()[1] == w.abstracts_to,
        w.in_order()[2] == w.reinforces,
        w.in_order()[3] == w.temporal_seq,
        w.in_order()[4] == w.contradicts,
        w.in_order()[5] == w.defines,
        w.in_order()[6] == w.spawned_from,
        w.in_order()[7] == w.recurrent,
{
}

/// Held weights: suppression lies from -0.95 to -0.05, re-injection from 0.05 to
/// 0.75, the others from 0.01 to 0.98, and what lies there is kept as it is.
pub proof fn weights_are_held_in_their_ranges(index: usize, w: Double)
    requires
        !w.nan(),
    ensures
        ({
            let held = w.bounded(weight_bounds(index).0, weight_bounds(index).1);
            let lo = Double {
                bits: if index == 4 {
                    0xBFEE_6666_6666_6666
                } else if index == 7 {
                    0x3FA9_9999_9999_999A
                } else {
                    0x3F84_7AE1_47AE_147B
                },
            };
            let hi = Double {
                bits: if index == 4 {
                    0xBFA9_9999_9999_999A
                } else if index == 7 {
                    0x3FE8_0000_0000_0000
                } else {
                    0x3FEF_5C28_F5C2_8F5C
                },
            };
            &&& lo.le(w) && w.le(hi) ==> held == w
            &&& w.lt(lo) ==> held == lo
            &&& hi.lt(w) ==> held == hi
        }),
{
}

/// A weight that earned less than a thousandth of a recall is left alone by any
/// reward, with all that is remembered of it.
pub proof fn idle_weights_stay(
    before: EdgeWeights,
    attributions: Seq<Double>,
    reward: Double,
    steps: Seq<AdamStep>,
    after: EdgeWeights,
    i: int,
)
    requires
        stepped(before, attributions, reward, steps, after),
        0 <= i < 8,
        i < attributions.len() ==> attributions[i].lt(Double { bits: 0x3F50_624D_D2F1_A9FC }),
    ensures
        after.in_order()[i] == before.in_order()[i],
        after.m@[i] == before.m@[i],
        after.v@[i] == before.v@[i],
{
}

/// Any reward but zero moves every weight that earned a thousandth or more: it
/// takes the step it was given, where that lies within its range, and its momentum
/// and velocity with it.
pub proof fn involved_weights_take_their_step(
    before: EdgeWeights,
    attributions: Seq<Double>,
    reward: Double,
    steps: Seq<AdamStep>,
    after: EdgeWeights,
    i: int,
)
    requires
        stepped(before, attributions, reward, steps, after),
        !reward.same_number(Double { bits: 0 }),
        0 <= i < 8,
        i < attributions.len(),
        (Double { bits: 0x3F50_624D_D2F1_A9FC }).le(attributions[i]),
    ensures
        after.m@[i] == steps[i].m,
        after.v@[i] == steps[i].v,
        weight_bounds(i as usize).0.le(steps[i].weight) && steps[i].weight.le(
            weight_bounds(i as usize).1,
        ) ==> after.in_order()[i] == steps[i].weight,
{
    assert(moves_weight(attributions, i, reward));
    assert(after.in_order()[i] == steps[i].weight.bounded(
        weight_bounds(i as usize).0,
        weight_bounds(i as usize).1,
    ));
}

/// Every reward but zero counts one step; zero leaves all as it was.
pub proof fn rewards_count_one_step(
    before: EdgeWeights,
    attributions: Seq<Double>,
    reward: Double,
    steps: Seq<AdamStep>,
    after: EdgeWeights,
)
    requires
        stepped(before, attributions, reward, steps, after),
    ensures
        reward.same_number(Double { bits: 0 }) ==> after == before,
        !reward.same_number(Double { bits: 0 }) && before.t < u64::MAX ==> after.t == before.t + 1,
{
}

/// The count of steps stays at its largest once it is there.
pub proof fn steps_are_counted_to_the_largest(
    before: EdgeWeights,
    attributions: Seq<Double>,
    reward: Double,
    steps: Seq<AdamStep>,
    after: EdgeWeights,
)
    requires
        stepped(before, attributions, reward, steps, after),
        before.t == u64::MAX,
    ensures
        after.t == u64::MAX,
{
}

} // verus!
