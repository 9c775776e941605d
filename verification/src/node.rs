//! One gas-contiguous segment of a sender's pending messages.
//!
//! A `MsgChainNode` aggregates an ordered run of one sender's messages with
//! its exact cumulative reward, its total gas limit, and its fixed-point
//! performance scores.  The `next`/`prev` fields are positions into the
//! owning chain's node vector, not references.

use vstd::prelude::*;

verus! {

use core::cmp::Ordering;
use crate::msg::{
    Msg,
    lemma_sum_prefix_le,
    lemma_sum_prefix_step,
    lemma_sums,
    msg_wf,
    msgs_wf,
    sum_gas,
    sum_reward,
};
use crate::perf::{
    PERF_BOUND,
    PERF_SCALE,
    PREMIUM_MAX,
    SEG_GAS_LIMIT_MAX,
    approx_cmp,
    approx_cmp_spec,
    div_perf,
    div_trunc,
    gas_perf_of,
    get_gas_perf,
    lemma_div_trunc_bound,
};

/// One segment of a sender's message chain.
#[derive(Clone, PartialEq, Debug)]
pub struct MsgChainNode {
    /// The messages of this segment, nonce-ascending.
    pub msgs: Vec<Msg>,
    /// Exact cumulative reward of the messages at the active base fee.
    pub gas_reward: i128,
    /// Total gas limit of the messages.
    pub gas_limit: i64,
    /// Reward per unit of gas, in score quanta; ranking only.
    pub gas_perf: i128,
    /// `gas_perf` adjusted for inclusion probability and for drag from a
    /// predecessor segment.
    pub eff_perf: i128,
    /// Inclusion-probability weight, in score quanta of one.
    pub bp: i128,
    /// How much the predecessor blend lowered the standalone score.
    pub parent_offset: i128,
    /// Whether this segment is still eligible for inclusion.
    pub valid: bool,
    /// Whether this segment was folded into a lower-priority remainder.
    pub merged: bool,
    /// Position of the following segment in the owning chain, if linked.
    pub next: Option<usize>,
    /// Position of the preceding segment in the owning chain, if linked.
    pub prev: Option<usize>,
}

/// Bounds on a predecessor snapshot `(eff_perf, gas_limit)`.
pub open spec fn prev_snapshot_ok(prev: Option<(i128, i64)>) -> bool {
    match prev {
        Option::Some(p) => -PERF_BOUND <= p.0 <= PERF_BOUND && 0 <= p.1 <= SEG_GAS_LIMIT_MAX,
        Option::None => true,
    }
}

/// The standalone effective score: `gas_perf` damped by the inclusion
/// probability.
pub open spec fn standalone_eff_of(gas_perf: int, bp: int) -> int {
    div_trunc(gas_perf * bp, PERF_SCALE as int)
}

/// The gas-limit-weighted average of a standalone score and a predecessor's
/// effective score.
pub open spec fn weighted_eff_of(e: int, gl: int, pe: int, pgl: int) -> int {
    div_trunc(e * gl + pe * pgl, gl + pgl)
}

impl MsgChainNode {
    /// All numeric fields are within their global bounds.
    pub open spec fn bounded(self) -> bool {
        &&& 0 <= self.gas_limit <= SEG_GAS_LIMIT_MAX
        &&& -(PREMIUM_MAX * SEG_GAS_LIMIT_MAX) <= self.gas_reward <= PREMIUM_MAX
            * SEG_GAS_LIMIT_MAX
        &&& -PERF_BOUND <= self.gas_perf <= PERF_BOUND
        &&& -PERF_BOUND <= self.eff_perf <= PERF_BOUND
        &&& 0 <= self.bp <= PERF_SCALE
        &&& -(2 * PERF_BOUND) <= self.parent_offset <= 2 * PERF_BOUND
    }

    /// Well-formedness: a valid segment is exactly a non-empty one, and its
    /// stored totals and performance score agree with its messages.  The
    /// scores of an invalid segment are ignored and only kept bounded.
    pub open spec fn wf(self) -> bool {
        &&& self.bounded()
        &&& msgs_wf(self.msgs@)
        &&& (self.valid <==> self.msgs@.len() > 0)
        &&& self.valid ==> {
            &&& self.gas_limit > 0
            &&& self.gas_limit == sum_gas(self.msgs@)
            &&& self.gas_reward == sum_reward(self.msgs@)
            &&& self.gas_perf == gas_perf_of(self.gas_reward as int, self.gas_limit as int)
        }
    }

    /// An empty, invalid segment with zeroed metrics.
    pub fn new() -> (r: Self)
        ensures
            r.msgs@.len() == 0,
            r.gas_reward == 0,
            r.gas_limit == 0,
            r.gas_perf == 0,
            r.eff_perf == 0,
            r.bp == 0,
            r.parent_offset == 0,
            !r.valid,
            !r.merged,
            r.next.is_none(),
            r.prev.is_none(),
            r.wf(),
    {
        MsgChainNode {
            msgs: Vec::new(),
            gas_reward: 0,
            gas_limit: 0,
            gas_perf: 0,
            eff_perf: 0,
            bp: 0,
            parent_offset: 0,
            valid: false,
            merged: false,
            next: None,
            prev: None,
        }
    }

    /// What `set_eff_perf` leaves behind: every field but `eff_perf` and
    /// `parent_offset` is unchanged, the standalone score is blended with
    /// the predecessor snapshot exactly when it is positive and a
    /// predecessor is given, and `parent_offset` records the reduction.
    pub open spec fn eff_perf_updated(
        pre: MsgChainNode,
        post: MsgChainNode,
        prev: Option<(i128, i64)>,
    ) -> bool {
        let standalone = standalone_eff_of(pre.gas_perf as int, pre.bp as int);
        &&& post.msgs@ == pre.msgs@
        &&& post.gas_reward == pre.gas_reward
        &&& post.gas_limit == pre.gas_limit
        &&& post.gas_perf == pre.gas_perf
        &&& post.bp == pre.bp
        &&& post.valid == pre.valid
        &&& post.merged == pre.merged
        &&& post.next == pre.next
        &&& post.prev == pre.prev
        &&& match prev {
            Option::Some(p) => if standalone > 0 {
                let weighted = weighted_eff_of(
                    standalone,
                    pre.gas_limit as int,
                    p.0 as int,
                    p.1 as int,
                );
                &&& post.eff_perf == weighted
                &&& post.parent_offset == standalone - weighted
            } else {
                &&& post.eff_perf == standalone
                &&& post.parent_offset == pre.parent_offset
            },
            Option::None => {
                &&& post.eff_perf == standalone
                &&& post.parent_offset == pre.parent_offset
            },
        }
    }

    /// Sets `eff_perf` from this segment's own score and probability weight,
    /// blending in the given predecessor snapshot when the standalone score
    /// is positive.  A segment chained behind a predecessor is only as
    /// attractive as the gas-limit-weighted average of the two scores,
    /// because the predecessor must be included first.
    pub fn set_eff_perf(&mut self, prev: Option<(i128, i64)>)
        requires
            old(self).bounded(),
            prev_snapshot_ok(prev),
            prev matches Some(p) ==> old(self).gas_limit + p.1 > 0,
        ensures
            MsgChainNode::eff_perf_updated(*old(self), *final(self), prev),
            final(self).bounded(),
            old(self).wf() ==> final(self).wf(),
    {
        let gp: i128 = self.gas_perf;
        let pw: i128 = self.bp;
        proof {
            assert(-(PERF_BOUND * PERF_SCALE) <= gp * pw <= PERF_BOUND * PERF_SCALE)
                by (nonlinear_arith)
                requires
                    -PERF_BOUND <= gp <= PERF_BOUND,
                    0 <= pw <= PERF_SCALE,
            ;
            lemma_div_trunc_bound(gp as int * pw as int, PERF_SCALE as int, PERF_BOUND as int);
        }
        let mut eff: i128 = div_perf(gp * pw, PERF_SCALE);
        if let Some((prev_eff_perf, prev_gas_limit)) = prev {
            if eff > 0 {
                let gl: i128 = self.gas_limit as i128;
                let pgl: i128 = prev_gas_limit as i128;
                proof {
                    assert(0 <= eff * gl <= PERF_BOUND * gl && -(PERF_BOUND * pgl) <= prev_eff_perf
                        * pgl <= PERF_BOUND * pgl) by (nonlinear_arith)
                        requires
                            0 < eff <= PERF_BOUND,
                            -PERF_BOUND <= prev_eff_perf <= PERF_BOUND,
                            0 <= gl,
                            0 <= pgl,
                    ;
                    assert(PERF_BOUND * gl + PERF_BOUND * pgl == PERF_BOUND * (gl + pgl))
                        by (nonlinear_arith);
                    assert(PERF_BOUND * (gl + pgl) <= PERF_BOUND * (2 * SEG_GAS_LIMIT_MAX))
                        by (nonlinear_arith)
                        requires
                            0 <= gl <= SEG_GAS_LIMIT_MAX,
                            0 <= pgl <= SEG_GAS_LIMIT_MAX,
                    ;
                }
                let num: i128 = eff * gl + prev_eff_perf * pgl;
                let den: i128 = gl + pgl;
                proof {
                    lemma_div_trunc_bound(num as int, den as int, PERF_BOUND as int);
                }
                let weighted: i128 = div_perf(num, den);
                self.parent_offset = eff - weighted;
                eff = weighted;
            }
        }
        self.eff_perf = eff;
    }

    /// Sets the inclusion-probability weight and then recomputes the
    /// effective score against the given predecessor snapshot.
    pub fn set_effperf_with_block_prob(&mut self, block_prob: i128, prev: Option<(i128, i64)>)
        requires
            old(self).bounded(),
            0 <= block_prob <= PERF_SCALE,
            prev_snapshot_ok(prev),
            prev matches Some(p) ==> old(self).gas_limit + p.1 > 0,
        ensures
            MsgChainNode::eff_perf_updated(
                (MsgChainNode { bp: block_prob, ..*old(self) }),
                *final(self),
                prev,
            ),
            final(self).bounded(),
            old(self).wf() ==> final(self).wf(),
    {
        self.bp = block_prob;
        self.set_eff_perf(prev);
    }

    /// The null effective score: a negative `gas_perf` is propagated so the
    /// segment sorts to the bottom; otherwise the effective score is zero.
    pub fn set_null_effective_perf(&mut self)
        ensures
            final(self).eff_perf == if old(self).gas_perf < 0 {
                old(self).gas_perf
            } else {
                0
            },
            *final(self) == (MsgChainNode { eff_perf: final(self).eff_perf, ..*old(self) }),
            old(self).bounded() ==> final(self).bounded(),
            old(self).wf() ==> final(self).wf(),
    {
        if self.gas_perf < 0 {
            self.eff_perf = self.gas_perf;
        } else {
            self.eff_perf = 0;
        }
    }

    /// How many leading messages survive a trim to `cap`: walking from the
    /// full list down, the first (longest) prefix whose gas total is within
    /// `cap` and whose score is non-negative; zero when none is.
    pub open spec fn trim_count(msgs: Seq<Msg>, cap: int) -> int
        decreases msgs.len(),
    {
        if msgs.len() == 0 {
            0
        } else if sum_gas(msgs) <= cap && gas_perf_of(sum_reward(msgs), sum_gas(msgs)) >= 0 {
            msgs.len() as int
        } else {
            MsgChainNode::trim_count(msgs.drop_last(), cap)
        }
    }

    /// The surviving-prefix length of a trim never exceeds the list length.
    pub proof fn lemma_trim_count_le(msgs: Seq<Msg>, cap: int)
        ensures
            0 <= MsgChainNode::trim_count(msgs, cap) <= msgs.len(),
        decreases msgs.len(),
    {
        if msgs.len() > 0 {
            MsgChainNode::lemma_trim_count_le(msgs.drop_last(), cap);
        }
    }

    /// The effective-score fields reflect a recompute at the segment's
    /// current totals against the frozen predecessor snapshot, exactly as
    /// the trim loop leaves them when `bp` is non-zero.
    pub open spec fn eff_recomputed(
        s: MsgChainNode,
        pre: MsgChainNode,
        prev: Option<(i128, i64)>,
    ) -> bool {
        if s.bp != 0 {
            let standalone = standalone_eff_of(s.gas_perf as int, s.bp as int);
            match prev {
                Option::Some(p) => if standalone > 0 {
                    let w = weighted_eff_of(standalone, s.gas_limit as int, p.0 as int, p.1 as int);
                    &&& s.eff_perf == w
                    &&& s.parent_offset == standalone - w
                } else {
                    s.eff_perf == standalone
                },
                Option::None => s.eff_perf == standalone,
            }
        } else {
            &&& s.eff_perf == pre.eff_perf
            &&& s.parent_offset == pre.parent_offset
        }
    }

    /// What `trim` leaves behind.  With `tc` surviving messages: either
    /// nothing was over the limits and the segment is untouched; or a proper
    /// non-empty prefix survives, with recomputed totals, score and (when
    /// `bp` is non-zero) effective score; or no message survives and the
    /// segment is invalidated with zeroed totals.
    pub open spec fn trim_spec(
        pre: MsgChainNode,
        post: MsgChainNode,
        cap: int,
        prev: Option<(i128, i64)>,
    ) -> bool {
        let tc = MsgChainNode::trim_count(pre.msgs@, cap);
        &&& post.bp == pre.bp
        &&& post.merged == pre.merged
        &&& post.next == pre.next
        &&& post.prev == pre.prev
        &&& if tc == pre.msgs@.len() && tc > 0 {
            post == pre
        } else if tc > 0 {
            &&& post.msgs@ == pre.msgs@.subrange(0, tc)
            &&& post.valid == pre.valid
            &&& post.gas_limit == sum_gas(post.msgs@)
            &&& post.gas_reward == sum_reward(post.msgs@)
            &&& post.gas_perf == gas_perf_of(post.gas_reward as int, post.gas_limit as int)
            &&& MsgChainNode::eff_recomputed(post, pre, prev)
        } else {
            &&& post.msgs@.len() == 0
            &&& !post.valid
            &&& if pre.msgs@.len() > 0 {
                &&& post.gas_limit == 0
                &&& post.gas_reward == 0
                &&& post.gas_perf == 0
                &&& post.eff_perf == 0
            } else {
                &&& post.gas_limit == pre.gas_limit
                &&& post.gas_reward == pre.gas_reward
                &&& post.gas_perf == pre.gas_perf
                &&& post.eff_perf == pre.eff_perf
                &&& post.parent_offset == pre.parent_offset
            }
        }
    }

    /// Drops messages from the tail while the segment is over `gas_limit_cap`
    /// or scores negative, keeping the running totals and scores in step;
    /// when `bp` is non-zero the effective score is re-derived against the
    /// frozen predecessor snapshot.  If every message goes, the segment is
    /// invalidated and emptied.  Only the tail may be sacrificed, because
    /// nonce order must be preserved.
    pub fn trim(&mut self, gas_limit_cap: i64, prev: Option<(i128, i64)>)
        requires
            old(self).wf(),
            prev_snapshot_ok(prev),
        ensures
            final(self).wf(),
            MsgChainNode::trim_spec(*old(self), *final(self), gas_limit_cap as int, prev),
            final(self).valid ==> final(self).gas_limit <= gas_limit_cap && final(self).gas_perf
                >= 0,
            !final(self).valid ==> final(self).msgs@.len() == 0,
    {
        let ghost pre: MsgChainNode = *self;
        if self.msgs.len() == 0 {
            self.valid = false;
            return ;
        }
        let mut j: usize = self.msgs.len();
        proof {
            assert(pre.msgs@.subrange(0, j as int) =~= pre.msgs@);
        }
        while j > 0 && (self.gas_limit > gas_limit_cap || self.gas_perf < 0)
            invariant
                pre.wf(),
                pre.msgs@.len() > 0,
                prev_snapshot_ok(prev),
                j <= pre.msgs@.len(),
                self.msgs@ == pre.msgs@,
                self.bp == pre.bp,
                self.merged == pre.merged,
                self.next == pre.next,
                self.prev == pre.prev,
                self.valid == pre.valid,
                self.bounded(),
                self.gas_limit == sum_gas(pre.msgs@.subrange(0, j as int)),
                self.gas_reward == sum_reward(pre.msgs@.subrange(0, j as int)),
                MsgChainNode::trim_count(pre.msgs@, gas_limit_cap as int)
                    == MsgChainNode::trim_count(
                    pre.msgs@.subrange(0, j as int),
                    gas_limit_cap as int,
                ),
                j == pre.msgs@.len() ==> *self == pre,
                j < pre.msgs@.len() && self.gas_limit > 0 ==> self.gas_perf == gas_perf_of(
                    self.gas_reward as int,
                    self.gas_limit as int,
                ),
                j < pre.msgs@.len() && self.gas_limit > 0 ==> MsgChainNode::eff_recomputed(
                    *self,
                    pre,
                    prev,
                ),
                self.gas_limit == 0 ==> j == 0 && self.gas_perf == 0 && self.eff_perf == 0,
                self.gas_limit > 0 || j == 0,
            decreases j,
        {
            j = j - 1;
            let m: Msg = self.msgs[j];
            proof {
                lemma_sum_prefix_step(pre.msgs@, j as int);
                assert(forall|i: int|
                    0 <= i < pre.msgs@.subrange(0, j as int).len() ==> msg_wf(
                        #[trigger] pre.msgs@.subrange(0, j as int)[i],
                    ));
                lemma_sums(pre.msgs@.subrange(0, j as int));
                lemma_sum_prefix_le(pre.msgs@, j as int);
                assert(pre.msgs@.subrange(0, pre.msgs@.len() as int) =~= pre.msgs@);
                lemma_sums(pre.msgs@);
                assert(pre.msgs@.subrange(0, j + 1).drop_last() =~= pre.msgs@.subrange(0, j as int));
            }
            self.gas_reward = self.gas_reward - m.gas_reward;
            self.gas_limit = self.gas_limit - m.gas_limit;
            if self.gas_limit > 0 {
                proof {
                    let pj = pre.msgs@.subrange(0, j as int);
                    assert(-(PREMIUM_MAX * sum_gas(pj)) <= sum_reward(pj) <= PREMIUM_MAX * sum_gas(
                        pj,
                    ));
                }
                self.gas_perf = get_gas_perf(self.gas_reward, self.gas_limit);
                if self.bp != 0 {
                    self.set_eff_perf(prev);
                }
            } else {
                self.gas_perf = 0;
                self.eff_perf = 0;
                proof {
                    // gas limits are positive, so only the last message can
                    // bring the running total down to zero
                    lemma_sums(pre.msgs@.subrange(0, j as int));
                }
            }
        }
        proof {
            let tc = MsgChainNode::trim_count(pre.msgs@, gas_limit_cap as int);
            let pj = pre.msgs@.subrange(0, j as int);
            if j > 0 {
                assert(MsgChainNode::trim_count(pj, gas_limit_cap as int) == j as int);
                assert(tc == j as int);
            } else {
                assert(pj =~= Seq::<Msg>::empty());
                assert(tc == 0);
            }
        }
        if j == 0 {
            self.msgs.clear();
            self.valid = false;
        } else {
            if j < self.msgs.len() {
                self.msgs.truncate(j);
            }
            proof {
                let pj = pre.msgs@.subrange(0, j as int);
                assert(self.msgs@ =~= pj);
                assert(forall|i: int| 0 <= i < pj.len() ==> msg_wf(#[trigger] pj[i]));
                lemma_sums(pj);
            }
        }
    }

    /// The plain ranking of two segments: higher `gas_perf` first, exact
    /// `gas_reward` as the tie-break.  `Greater` means `self` ranks higher.
    pub open spec fn compare_spec(a: MsgChainNode, b: MsgChainNode) -> Ordering {
        let perf = approx_cmp_spec(a.gas_perf as int, b.gas_perf as int);
        if perf != Ordering::Equal {
            perf
        } else if a.gas_reward > b.gas_reward {
            Ordering::Greater
        } else if a.gas_reward < b.gas_reward {
            Ordering::Less
        } else {
            Ordering::Equal
        }
    }

    /// The selection-priority ranking of two segments.  `Greater` means
    /// `self` has the higher priority: unmerged before merged, profitable
    /// before unprofitable, then higher `eff_perf`, higher `gas_perf`, and
    /// finally the exact reward.
    pub open spec fn cmp_effective_spec(a: MsgChainNode, b: MsgChainNode) -> Ordering {
        if a.merged != b.merged {
            if !a.merged {
                Ordering::Greater
            } else {
                Ordering::Less
            }
        } else if (a.gas_perf >= 0) != (b.gas_perf >= 0) {
            if a.gas_perf >= 0 {
                Ordering::Greater
            } else {
                Ordering::Less
            }
        } else if approx_cmp_spec(a.eff_perf as int, b.eff_perf as int) != Ordering::Equal {
            approx_cmp_spec(a.eff_perf as int, b.eff_perf as int)
        } else if approx_cmp_spec(a.gas_perf as int, b.gas_perf as int) != Ordering::Equal {
            approx_cmp_spec(a.gas_perf as int, b.gas_perf as int)
        } else if a.gas_reward > b.gas_reward {
            Ordering::Greater
        } else if a.gas_reward < b.gas_reward {
            Ordering::Less
        } else {
            Ordering::Equal
        }
    }

    /// Plain comparison; see `compare_spec`.
    pub fn compare(&self, other: &MsgChainNode) -> (r: Ordering)
        requires
            self.bounded(),
            other.bounded(),
        ensures
            r == MsgChainNode::compare_spec(*self, *other),
    {
        match approx_cmp(self.gas_perf, other.gas_perf) {
            Ordering::Equal => {
                if self.gas_reward > other.gas_reward {
                    Ordering::Greater
                } else if self.gas_reward < other.gas_reward {
                    Ordering::Less
                } else {
                    Ordering::Equal
                }
            },
            o => o,
        }
    }

    /// Selection-priority comparison; see `cmp_effective_spec`.
    pub fn cmp_effective(&self, other: &MsgChainNode) -> (r: Ordering)
        requires
            self.bounded(),
            other.bounded(),
        ensures
            r == MsgChainNode::cmp_effective_spec(*self, *other),
    {
        if self.merged != other.merged {
            if !self.merged {
                return Ordering::Greater;
            } else {
                return Ordering::Less;
            }
        }
        if (self.gas_perf >= 0) != (other.gas_perf >= 0) {
            if self.gas_perf >= 0 {
                return Ordering::Greater;
            } else {
                return Ordering::Less;
            }
        }
        match approx_cmp(self.eff_perf, other.eff_perf) {
            Ordering::Equal => {},
            o => {
                return o;
            },
        }
        match approx_cmp(self.gas_perf, other.gas_perf) {
            Ordering::Equal => {},
            o => {
                return o;
            },
        }
        if self.gas_reward > other.gas_reward {
            Ordering::Greater
        } else if self.gas_reward < other.gas_reward {
            Ordering::Less
        } else {
            Ordering::Equal
        }
    }
}

/// The mirror image of a ranking.
pub open spec fn reverse_of(o: Ordering) -> Ordering {
    match o {
        Ordering::Less => Ordering::Greater,
        Ordering::Equal => Ordering::Equal,
        Ordering::Greater => Ordering::Less,
    }
}

/// The selection-priority ranking is consistent: swapping the operands
/// mirrors the result, so any two segments stand in exactly one strict
/// order, or are tied.
pub proof fn lemma_cmp_effective_antisymmetric(a: MsgChainNode, b: MsgChainNode)
    ensures
        MsgChainNode::cmp_effective_spec(b, a) == reverse_of(
            MsgChainNode::cmp_effective_spec(a, b),
        ),
{
}

/// A selection-priority tie is exact in everything but the scores' last
/// quantum: tied segments agree on `merged`, on the sign class of
/// `gas_perf`, are within the tolerance on both scores, and carry the same
/// exact reward — so within the tolerance the exact reward decides.
pub proof fn lemma_cmp_effective_tie(a: MsgChainNode, b: MsgChainNode)
    ensures
        MsgChainNode::cmp_effective_spec(a, b) == Ordering::Equal <==> {
            &&& a.merged == b.merged
            &&& (a.gas_perf >= 0) == (b.gas_perf >= 0)
            &&& approx_cmp_spec(a.eff_perf as int, b.eff_perf as int) == Ordering::Equal
            &&& approx_cmp_spec(a.gas_perf as int, b.gas_perf as int) == Ordering::Equal
            &&& a.gas_reward == b.gas_reward
        },
{
}

/// The selection-priority ranking is transitive on the not-higher relation.
pub proof fn lemma_cmp_effective_transitive(a: MsgChainNode, b: MsgChainNode, c: MsgChainNode)
    requires
        MsgChainNode::cmp_effective_spec(a, b) != Ordering::Greater,
        MsgChainNode::cmp_effective_spec(b, c) != Ordering::Greater,
    ensures
        MsgChainNode::cmp_effective_spec(a, c) != Ordering::Greater,
{
}

} // verus!
