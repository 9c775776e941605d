//! Greedy selection of messages under a block gas budget.
//!
//! Chains are ranked by the selection-priority comparison over their current
//! segments.  The loop repeatedly takes a top-ranked chain — shuffling the
//! group of exactly tied chains first, so that no sender can predict tie
//! order — commits its current segment when it fits in the remaining budget,
//! trims it when it does not, and drops chains whose current segment is
//! invalid.

use vstd::prelude::*;

verus! {

use core::cmp::Ordering;
use crate::chain::MsgChain;
use crate::msg::{Msg, lemma_sum_prefix_step, lemma_sums, sum_gas, sum_reward};
use crate::node::MsgChainNode;
use crate::perf::PREMIUM_MAX;

/// Total number of messages a chain still offers from its cursor on, in the
/// segments `from` and later.
pub open spec fn tail_weight(s: Seq<MsgChainNode>, from: int) -> nat
    decreases s.len() - from,
{
    if from < 0 || from >= s.len() {
        0
    } else {
        s[from].msgs@.len() + tail_weight(s, from + 1)
    }
}

/// The work a chain can still cause: its remaining messages, plus one for
/// the chain itself.
pub open spec fn chain_weight(c: MsgChain) -> nat {
    1 + tail_weight(c.chain@, c.index as int)
}

/// The work a set of chains can still cause.
pub open spec fn chains_weight(cs: Seq<MsgChain>) -> nat
    decreases cs.len(),
{
    if cs.len() == 0 {
        0
    } else {
        chain_weight(cs[0]) + chains_weight(cs.drop_first())
    }
}

proof fn lemma_weight_update(cs: Seq<MsgChain>, i: int, c: MsgChain)
    requires
        0 <= i < cs.len(),
    ensures
        chains_weight(cs.update(i, c)) == chains_weight(cs) - chain_weight(cs[i]) + chain_weight(c),
    decreases cs.len(),
{
    if i == 0 {
        assert(cs.update(0, c).drop_first() =~= cs.drop_first());
    } else {
        assert(cs.update(i, c).drop_first() =~= cs.drop_first().update(i - 1, c));
        lemma_weight_update(cs.drop_first(), i - 1, c);
    }
}

proof fn lemma_weight_push(cs: Seq<MsgChain>, c: MsgChain)
    ensures
        chains_weight(cs.push(c)) == chains_weight(cs) + chain_weight(c),
    decreases cs.len(),
{
    assert(cs.push(c).len() == cs.len() + 1);
    assert(chains_weight(cs.push(c)) == chain_weight(cs.push(c)[0]) + chains_weight(
        cs.push(c).drop_first(),
    ));
    if cs.len() == 0 {
        assert(cs.push(c).drop_first() =~= Seq::<MsgChain>::empty());
        assert(cs.push(c)[0] == c);
    } else {
        assert(cs.push(c).drop_first() =~= cs.drop_first().push(c));
        assert(cs.push(c)[0] == cs[0]);
        lemma_weight_push(cs.drop_first(), c);
    }
}

proof fn lemma_weight_drop_last(cs: Seq<MsgChain>)
    requires
        cs.len() > 0,
    ensures
        chains_weight(cs.drop_last()) == chains_weight(cs) - chain_weight(cs.last()),
    decreases cs.len(),
{
    assert(cs.drop_last().len() == cs.len() - 1);
    if cs.len() == 1 {
        assert(cs.drop_last() =~= Seq::<MsgChain>::empty());
        assert(chains_weight(cs) == chain_weight(cs[0]) + chains_weight(cs.drop_first()));
        assert(cs.drop_first() =~= Seq::<MsgChain>::empty());
        assert(cs.last() == cs[0]);
    } else {
        assert(chains_weight(cs) == chain_weight(cs[0]) + chains_weight(cs.drop_first()));
        assert(chains_weight(cs.drop_last()) == chain_weight(cs.drop_last()[0]) + chains_weight(
            cs.drop_last().drop_first(),
        ));
        assert(cs.drop_last().drop_first() =~= cs.drop_first().drop_last());
        assert(cs.drop_last()[0] == cs[0]);
        lemma_weight_drop_last(cs.drop_first());
        assert(cs.drop_first().last() == cs.last());
    }
}

/// Tail weights only shrink when every segment's message count does.
proof fn lemma_tail_weight_le(s1: Seq<MsgChainNode>, s2: Seq<MsgChainNode>, from: int)
    requires
        s1.len() == s2.len(),
        forall|i: int|
            from <= i < s1.len() ==> (#[trigger] s2[i]).msgs@.len() <= s1[i].msgs@.len(),
    ensures
        tail_weight(s2, from) <= tail_weight(s1, from),
    decreases s1.len() - from,
{
    if 0 <= from < s1.len() {
        lemma_tail_weight_le(s1, s2, from + 1);
    }
}

/// And strictly, when one segment at or after `from` strictly shrinks.
proof fn lemma_tail_weight_lt(s1: Seq<MsgChainNode>, s2: Seq<MsgChainNode>, from: int, k: int)
    requires
        s1.len() == s2.len(),
        from <= k < s1.len(),
        0 <= from,
        forall|i: int|
            from <= i < s1.len() ==> (#[trigger] s2[i]).msgs@.len() <= s1[i].msgs@.len(),
        s2[k].msgs@.len() < s1[k].msgs@.len(),
    ensures
        tail_weight(s2, from) < tail_weight(s1, from),
    decreases s1.len() - from,
{
    if from == k {
        lemma_tail_weight_le(s1, s2, from + 1);
    } else {
        lemma_tail_weight_lt(s1, s2, from + 1, k);
    }
}

/// Relies on `rand::random_range`: a value sampled uniformly from the given
/// range.  The range `0..n` is non-empty, so the call returns a value below
/// `n` and cannot panic.
#[verifier::external_body]
fn rand_below(n: usize) -> (r: usize)
    requires
        n > 0,
    ensures
        r < n,
{
    rand::random_range(0..n)
}

/// Exchanges the chains at positions `a` and `b`.
fn swap_chains(v: &mut Vec<MsgChain>, a: usize, b: usize)
    requires
        a < old(v)@.len(),
        b < old(v)@.len(),
    ensures
        final(v)@ == old(v)@.update(a as int, old(v)@[b as int]).update(
            b as int,
            old(v)@[a as int],
        ),
{
    if a == b {
        proof {
            assert(v@ =~= old(v)@.update(a as int, old(v)@[b as int]).update(
                b as int,
                old(v)@[a as int],
            ));
        }
        return ;
    }
    let mut tmp: MsgChain = Default::default();
    core::mem::swap(&mut v[a], &mut tmp);
    core::mem::swap(&mut v[b], &mut tmp);
    core::mem::swap(&mut v[a], &mut tmp);
    proof {
        assert(v@ =~= old(v)@.update(a as int, old(v)@[b as int]).update(
            b as int,
            old(v)@[a as int],
        ));
    }
}

/// Swapping two chains permutes the vector: the multiset and the total
/// weight are unchanged.
proof fn lemma_swap_permutes(s: Seq<MsgChain>, a: int, b: int)
    requires
        0 <= a < s.len(),
        0 <= b < s.len(),
    ensures
        s.update(a, s[b]).update(b, s[a]).to_multiset() == s.to_multiset(),
        chains_weight(s.update(a, s[b]).update(b, s[a])) == chains_weight(s),
{
    broadcast use vstd::seq_lib::to_multiset_update;
    broadcast use vstd::seq_lib::group_to_multiset_ensures;
    broadcast use vstd::multiset::group_multiset_axioms;

    let s1 = s.update(a, s[b]);
    let s2 = s1.update(b, s[a]);
    assert(s.contains(s[a]));
    assert(s.contains(s[b]));
    if a == b {
        assert(s2 =~= s.update(a, s[a]));
        assert(s.update(a, s[a]) =~= s);
    } else {
        assert(s1[b] == s[b]);
        assert(s2.to_multiset() =~= s.to_multiset());
    }
    lemma_weight_update(s, a, s[b]);
    lemma_weight_update(s1, b, s[a]);
}

/// A position of a chain no other chain outranks, and the first such
/// position: the scan keeps the earliest maximum.
fn find_best(cs: &Vec<MsgChain>) -> (b: usize)
    requires
        cs@.len() > 0,
        forall|i: int| 0 <= i < cs@.len() ==> (#[trigger] cs@[i]).wf(),
    ensures
        b < cs@.len(),
        forall|j: int|
            0 <= j < cs@.len() ==> MsgChainNode::cmp_effective_spec(
                (#[trigger] cs@[j]).curr_spec(),
                cs@[b as int].curr_spec(),
            ) != Ordering::Greater,
{
    let mut b: usize = 0;
    let mut j: usize = 1;
    while j < cs.len()
        invariant
            forall|i: int| 0 <= i < cs@.len() ==> (#[trigger] cs@[i]).wf(),
            b < j <= cs@.len(),
            forall|i: int|
                0 <= i < j ==> MsgChainNode::cmp_effective_spec(
                    (#[trigger] cs@[i]).curr_spec(),
                    cs@[b as int].curr_spec(),
                ) != Ordering::Greater,
        decreases cs@.len() - j,
    {
        let r = cs[j].cmp_effective(&cs[b]);
        if matches!(r, Ordering::Greater) {
            proof {
                let old_b = cs@[b as int].curr_spec();
                let new_b = cs@[j as int].curr_spec();
                assert forall|i: int|
                    0 <= i < j + 1 implies MsgChainNode::cmp_effective_spec(
                    (#[trigger] cs@[i]).curr_spec(),
                    new_b,
                ) != Ordering::Greater by {
                    if i < j {
                        crate::node::lemma_cmp_effective_antisymmetric(new_b, old_b);
                        crate::node::lemma_cmp_effective_transitive(
                            cs@[i].curr_spec(),
                            old_b,
                            new_b,
                        );
                    } else {
                        crate::node::lemma_cmp_effective_antisymmetric(new_b, new_b);
                    }
                }
            }
            b = j;
        }
        j = j + 1;
    }
    b
}

/// Shuffles exactly the group of chains tied with a top-ranked chain,
/// leaving every chain outside the tied group at its position: the multiset
/// of chains is preserved and only the relative order of exactly tied
/// chains may change.  Returns a position `b` that, after the shuffle, no
/// chain outranks.
pub fn shuffle_tied(chains: &mut Vec<MsgChain>) -> (b: usize)
    requires
        old(chains)@.len() > 0,
        forall|i: int| 0 <= i < old(chains)@.len() ==> (#[trigger] old(chains)@[i]).wf(),
    ensures
        final(chains)@.len() == old(chains)@.len(),
        final(chains)@.to_multiset() == old(chains)@.to_multiset(),
        chains_weight(final(chains)@) == chains_weight(old(chains)@),
        forall|i: int| 0 <= i < final(chains)@.len() ==> (#[trigger] final(chains)@[i]).wf(),
        b < final(chains)@.len(),
        forall|j: int|
            0 <= j < final(chains)@.len() ==> MsgChainNode::cmp_effective_spec(
                (#[trigger] final(chains)@[j]).curr_spec(),
                final(chains)@[b as int].curr_spec(),
            ) != Ordering::Greater,
        forall|j: int|
            0 <= j < old(chains)@.len() && MsgChainNode::cmp_effective_spec(
                (#[trigger] old(chains)@[j]).curr_spec(),
                old(chains)@[b as int].curr_spec(),
            ) != Ordering::Equal ==> final(chains)@[j] == old(chains)@[j],
{
    let ghost s0 = chains@;
    let b = find_best(chains);
    let ghost best = s0[b as int].curr_spec();
    let n = chains.len();
    let mut pos: Vec<usize> = Vec::new();
    let mut j: usize = 0;
    while j < n
        invariant
            chains@ == s0,
            s0.len() == n,
            b < n,
            forall|i: int| 0 <= i < s0.len() ==> (#[trigger] s0[i]).wf(),
            best == s0[b as int].curr_spec(),
            j <= n,
            forall|m: int|
                0 <= m < pos@.len() ==> (#[trigger] pos@[m]) < n
                    && MsgChainNode::cmp_effective_spec(s0[pos@[m] as int].curr_spec(), best)
                    == Ordering::Equal,
            pos@.contains(b) || (b >= j),
        decreases n - j,
    {
        let r = chains[j].cmp_effective(&chains[b]);
        if matches!(r, Ordering::Equal) {
            let ghost oldp: Seq<usize> = pos@;
            pos.push(j);
            proof {
                if j == b {
                    assert(pos@[pos@.len() - 1] == b);
                    assert(pos@.contains(b));
                } else if oldp.contains(b) {
                    let w = choose|w: int| 0 <= w < oldp.len() && oldp[w] == b;
                    assert(pos@[w] == b);
                    assert(pos@.contains(b));
                }
            }
        } else {
            proof {
                if j == b {
                    assert(MsgChainNode::cmp_effective_spec(best, best) == Ordering::Equal);
                    assert(false);
                }
            }
        }
        j = j + 1;
    }
    proof {
        assert(pos@.contains(b));
    }
    let mut k: usize = pos.len();
    while k > 1
        invariant
            chains@.len() == s0.len(),
            s0.len() == n,
            b < n,
            k <= pos@.len(),
            chains@.to_multiset() == s0.to_multiset(),
            chains_weight(chains@) == chains_weight(s0),
            forall|i: int| 0 <= i < chains@.len() ==> (#[trigger] chains@[i]).wf(),
            forall|m: int|
                0 <= m < pos@.len() ==> (#[trigger] pos@[m]) < n
                    && MsgChainNode::cmp_effective_spec(s0[pos@[m] as int].curr_spec(), best)
                    == Ordering::Equal,
            forall|i: int|
                0 <= i < n && MsgChainNode::cmp_effective_spec(
                    (#[trigger] s0[i]).curr_spec(),
                    best,
                ) != Ordering::Equal ==> chains@[i] == s0[i],
            forall|i: int|
                0 <= i < n && MsgChainNode::cmp_effective_spec(
                    (#[trigger] s0[i]).curr_spec(),
                    best,
                ) == Ordering::Equal ==> MsgChainNode::cmp_effective_spec(
                    chains@[i].curr_spec(),
                    best,
                ) == Ordering::Equal,
            forall|i: int|
                0 <= i < n ==> MsgChainNode::cmp_effective_spec(
                    (#[trigger] chains@[i]).curr_spec(),
                    best,
                ) != Ordering::Greater,
        decreases k,
    {
        let r = rand_below(k);
        let pa = pos[k - 1];
        let pb = pos[r];
        proof {
            lemma_swap_permutes(chains@, pa as int, pb as int);
        }
        swap_chains(chains, pa, pb);
        k = k - 1;
    }
    proof {
        assert(MsgChainNode::cmp_effective_spec(chains@[b as int].curr_spec(), best)
            == Ordering::Equal) by {
            let w = choose|w: int| 0 <= w < pos@.len() && pos@[w] == b;
            assert(MsgChainNode::cmp_effective_spec(s0[b as int].curr_spec(), best)
                == Ordering::Equal);
        }
        assert forall|j2: int|
            0 <= j2 < chains@.len() implies MsgChainNode::cmp_effective_spec(
            (#[trigger] chains@[j2]).curr_spec(),
            chains@[b as int].curr_spec(),
        ) != Ordering::Greater by {
            crate::node::lemma_cmp_effective_antisymmetric(chains@[b as int].curr_spec(), best);
            crate::node::lemma_cmp_effective_transitive(
                chains@[j2].curr_spec(),
                best,
                chains@[b as int].curr_spec(),
            );
        }
    }
    b
}

/// A uniform in-place shuffle of the chains: the multiset of chains is
/// unchanged, only their order may be.  Uniform whenever the underlying
/// random source is.
pub fn shuffle_chains(chains: &mut Vec<MsgChain>)
    ensures
        final(chains)@.len() == old(chains)@.len(),
        final(chains)@.to_multiset() == old(chains)@.to_multiset(),
{
    let ghost s0 = chains@;
    let mut k: usize = chains.len();
    while k > 1
        invariant
            k <= chains@.len(),
            chains@.len() == s0.len(),
            chains@.to_multiset() == s0.to_multiset(),
        decreases k,
    {
        let r = rand_below(k);
        proof {
            lemma_swap_permutes(chains@, k - 1, r as int);
        }
        swap_chains(chains, k - 1, r);
        k = k - 1;
    }
}

/// What the selection loop hands to the block builder: the committed
/// messages in inclusion order, with their exact totals.
#[derive(Debug)]
pub struct SelectedMsgs {
    /// The committed messages, in the order they were committed.
    pub msgs: Vec<Msg>,
    /// Total gas limit of the committed messages.
    pub gas_used: i64,
    /// Exact cumulative reward of the committed messages.
    pub gas_reward: i128,
}

/// A chain whose current segment could be committed against a fresh budget:
/// the segment is valid and fits.
pub open spec fn eligible(c: MsgChain, budget: int) -> bool {
    &&& c.wf()
    &&& c.curr_spec().valid
    &&& c.curr_spec().gas_limit <= budget
}

/// Greedy selection: repeatedly take a top-priority chain (shuffling exact
/// ties), commit its current segment when it fits in the remaining budget,
/// trim it to the remaining budget when it does not, and drop a chain whose
/// current segment is invalid.  The committed gas never exceeds the budget,
/// the returned totals are exactly the totals of the returned messages, and
/// if any chain starts with a valid segment that fits the whole budget,
/// something is committed.
pub fn select_messages(chains: Vec<MsgChain>, gas_budget: i64) -> (r: SelectedMsgs)
    requires
        gas_budget >= 0,
        forall|i: int| 0 <= i < chains@.len() ==> (#[trigger] chains@[i]).wf(),
    ensures
        0 <= r.gas_used <= gas_budget,
        r.gas_used as int == sum_gas(r.msgs@),
        r.gas_reward as int == sum_reward(r.msgs@),
        (exists|i: int| 0 <= i < chains@.len() && eligible(#[trigger] chains@[i], gas_budget as int))
            ==> r.msgs@.len() > 0,
{
    let ghost had_eligible: bool = exists|i: int|
        0 <= i < chains@.len() && eligible(#[trigger] chains@[i], gas_budget as int);
    let mut cs = chains;
    let mut out: Vec<Msg> = Vec::new();
    let mut gas_used: i64 = 0;
    let mut gas_reward: i128 = 0;
    let mut remaining: i64 = gas_budget;
    while cs.len() > 0
        invariant
            forall|i: int| 0 <= i < cs@.len() ==> (#[trigger] cs@[i]).wf(),
            0 <= gas_used,
            0 <= remaining,
            gas_used + remaining == gas_budget,
            gas_used as int == sum_gas(out@),
            gas_reward as int == sum_reward(out@),
            -(PREMIUM_MAX * gas_used) <= gas_reward <= PREMIUM_MAX * gas_used,
            out@.len() == 0 ==> gas_used == 0,
            out@.len() > 0 || !had_eligible || (exists|i: int|
                0 <= i < cs@.len() && eligible(#[trigger] cs@[i], gas_budget as int)),
        decreases chains_weight(cs@),
    {
        let ghost s_head = cs@;
        let b = shuffle_tied(&mut cs);
        proof {
            broadcast use vstd::seq_lib::group_to_multiset_ensures;

            if out@.len() == 0 && had_eligible {
                let i = choose|i: int|
                    0 <= i < s_head.len() && eligible(#[trigger] s_head[i], gas_budget as int);
                let x = s_head[i];
                assert(s_head.contains(x));
                assert(cs@.to_multiset().count(x) > 0);
                assert(cs@.contains(x));
                let j = choose|j: int| 0 <= j < cs@.len() && cs@[j] == x;
                assert(eligible(cs@[j], gas_budget as int));
            }
        }
        let ghost s1 = cs@;
        let mut c = cs.swap_remove(b);
        proof {
            // weight: removing the chain at `b` removes exactly its weight
            lemma_weight_update(s1, b as int, s1.last());
            lemma_weight_drop_last(s1.update(b as int, s1.last()));
            assert(s1.update(b as int, s1.last()).last() == s1.last());
            assert(chains_weight(cs@) == chains_weight(s1) - chain_weight(c));
            // the remaining chains are all old chains
            assert forall|i: int| 0 <= i < cs@.len() implies (#[trigger] cs@[i]).wf() by {
                assert(cs@[i] == s1[i] || cs@[i] == s1.last());
            }
            // the eligibility witness is either `c` itself or still present
            if out@.len() == 0 && had_eligible {
                let j = choose|j: int|
                    0 <= j < s1.len() && eligible(#[trigger] s1[j], gas_budget as int);
                let x = s1[j];
                if x != c {
                    broadcast use vstd::seq_lib::group_to_multiset_ensures;
                    broadcast use vstd::seq_lib::to_multiset_update;
                    broadcast use vstd::multiset::group_multiset_axioms;

                    assert(s1.update(b as int, s1.last()).drop_last() =~= s1.update(
                        b as int,
                        s1.last(),
                    ).remove(s1.len() - 1));
                    assert(cs@.to_multiset() == s1.to_multiset().remove(c));
                    assert(s1.contains(x));
                    assert(cs@.to_multiset().count(x) > 0);
                    assert(cs@.contains(x));
                    let j2 = choose|j2: int| 0 <= j2 < cs@.len() && cs@[j2] == x;
                    assert(eligible(cs@[j2], gas_budget as int));
                }
            }
            // the witness is now either the taken chain itself or still in
            // the vector
            assert(out@.len() > 0 || !had_eligible || eligible(c, gas_budget as int) || (exists|
                i: int|
                0 <= i < cs@.len() && eligible(#[trigger] cs@[i], gas_budget as int)));
        }
        let cur_valid = c.curr().valid;
        if !cur_valid {
            // the current segment was invalidated: the chain is dropped
            proof {
                assert(chain_weight(c) >= 1);
            }
        } else {
            let cur_gas = c.curr().gas_limit;
            if cur_gas <= remaining {
                // commit the current segment's messages
                let ghost cpre = c;
                let ghost out0 = out@;
                let idx = c.index;
                let mlen = c.chain[idx].msgs.len();
                proof {
                    lemma_sums(c.curr_spec().msgs@);
                }
                let seg_reward = c.chain[idx].gas_reward;
                let mut k2: usize = 0;
                while k2 < mlen
                    invariant
                        c == cpre,
                        c.wf(),
                        idx == c.index,
                        idx < c.chain@.len(),
                        mlen == c.curr_spec().msgs@.len(),
                        k2 <= mlen,
                        sum_gas(out@) == sum_gas(out0) + sum_gas(
                            c.curr_spec().msgs@.subrange(0, k2 as int),
                        ),
                        sum_reward(out@) == sum_reward(out0) + sum_reward(
                            c.curr_spec().msgs@.subrange(0, k2 as int),
                        ),
                        out@.len() == out0.len() + k2,
                    decreases mlen - k2,
                {
                    let m: Msg = c.chain[idx].msgs[k2];
                    let ghost outp = out@;
                    out.push(m);
                    proof {
                        assert(out@.drop_last() =~= outp);
                        assert(out@.last() == m);
                        lemma_sum_prefix_step(cpre.curr_spec().msgs@, k2 as int);
                    }
                    k2 = k2 + 1;
                }
                proof {
                    assert(c.curr_spec().msgs@.subrange(0, mlen as int) =~= c.curr_spec().msgs@);
                }
                gas_used = gas_used + cur_gas;
                remaining = remaining - cur_gas;
                gas_reward = gas_reward + seg_reward;
                let ghost seg_len = cpre.curr_spec().msgs@.len();
                let moved = c.move_forward();
                if moved {
                    if c.curr().valid {
                        let ghost c2 = c;
                        c.set_eff_perf();
                        proof {
                            // the effective-score update leaves every
                            // message in place, so the weight is unchanged
                            lemma_tail_weight_le(c2.chain@, c.chain@, c.index as int);
                            lemma_tail_weight_le(c.chain@, c2.chain@, c.index as int);
                            assert(chain_weight(c) == chain_weight(c2));
                            assert(chain_weight(c2) + seg_len == chain_weight(cpre));
                        }
                        let ghost s2 = cs@;
                        cs.push(c);
                        proof {
                            lemma_weight_push(s2, c);
                            assert forall|i: int| 0 <= i < cs@.len() implies (#[trigger] cs@[i]).wf()
                                by {
                                assert(cs@[i] == s2[i] || cs@[i] == c);
                            }
                        }
                    }
                }
            } else {
                // over budget: trim to what is left, then keep or drop
                let ghost cpre = c;
                let idx = c.index;
                c.trim(remaining, idx);
                proof {
                    let pre_n = cpre.chain@[idx as int];
                    let post_n = c.chain@[idx as int];
                    let tc = MsgChainNode::trim_count(pre_n.msgs@, remaining as int);
                    MsgChainNode::lemma_trim_count_le(pre_n.msgs@, remaining as int);
                    MsgChainNode::lemma_trim_count_le(pre_n.msgs@.drop_last(), remaining as int);
                    assert(sum_gas(pre_n.msgs@) == pre_n.gas_limit);
                    assert(tc < pre_n.msgs@.len());
                    assert(post_n.msgs@.len() < pre_n.msgs@.len());
                    assert forall|i: int|
                        idx <= i < c.chain@.len() implies (#[trigger] c.chain@[i]).msgs@.len()
                        <= cpre.chain@[i].msgs@.len() by {
                        let mid = cpre.chain@.update(idx as int, post_n);
                        if i > idx {
                            assert(c.chain@[i] == mid[i] || (!c.chain@[i].valid && c.chain@[
                            i].msgs@.len() == 0));
                        }
                    }
                    lemma_tail_weight_lt(cpre.chain@, c.chain@, idx as int, idx as int);
                    assert(chain_weight(c) < chain_weight(cpre));
                }
                let ghost s2 = cs@;
                if c.curr().valid {
                    cs.push(c);
                    proof {
                        lemma_weight_push(s2, c);
                        assert forall|i: int| 0 <= i < cs@.len() implies (#[trigger] cs@[i]).wf()
                            by {
                            assert(cs@[i] == s2[i] || cs@[i] == c);
                        }
                    }
                }
                proof {
                    // with nothing committed yet the whole budget remains,
                    // so this over-budget chain was never the witness and
                    // the witness is still in the vector
                    if out@.len() == 0 && had_eligible {
                        assert(!eligible(cpre, gas_budget as int));
                        let j3 = choose|j3: int|
                            0 <= j3 < s2.len() && eligible(#[trigger] s2[j3], gas_budget as int);
                        assert(cs@[j3] == s2[j3]);
                        assert(eligible(cs@[j3], gas_budget as int));
                    }
                }
            }
        }
    }
    SelectedMsgs { msgs: out, gas_used, gas_reward }
}

} // verus!
