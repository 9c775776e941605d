//! The ordered segments of one sender, with a cursor.
//!
//! A `MsgChain` owns a non-empty vector of segments, addressed by position,
//! with an explicit cursor marking the current segment.  The segments'
//! `next`/`prev` fields are positions into this vector (an arena of nodes
//! rather than linked references), so a missing `next` link cuts the forward
//! invalidation walk short.

use vstd::prelude::*;

verus! {

use core::cmp::Ordering;
use crate::node::MsgChainNode;
use crate::perf::PERF_SCALE;

/// The index-based neighbour links are consistent: a `next` link points to
/// the position one past its node, a `prev` link to the position one before.
pub open spec fn links_wf(s: Seq<MsgChainNode>) -> bool {
    &&& forall|i: int|
        0 <= i < s.len() ==> match (#[trigger] s[i]).next {
            Option::Some(k) => k == i + 1 && i + 1 < s.len(),
            Option::None => true,
        }
    &&& forall|i: int|
        0 <= i < s.len() ==> match (#[trigger] s[i]).prev {
            Option::Some(k) => i > 0 && k == i - 1,
            Option::None => true,
        }
}

/// A segment vector is well formed: every segment is, the links are
/// consistent, and the messages of a segment all have lower nonces than
/// those of the following segment.
pub open spec fn nodes_wf(s: Seq<MsgChainNode>) -> bool {
    &&& forall|i: int| 0 <= i < s.len() ==> (#[trigger] s[i]).wf()
    &&& links_wf(s)
    &&& forall|i: int|
        #![trigger s[i], s[i + 1]]
        0 <= i && i + 1 < s.len() && s[i].msgs@.len() > 0 && s[i + 1].msgs@.len() > 0
            ==> s[i].msgs@.last().sequence < s[i + 1].msgs@.first().sequence
}

/// The predecessor snapshot the cursor sees at position `i`: the previous
/// segment's current effective score and gas limit, or none at the front.
pub open spec fn prev_snapshot_of(s: Seq<MsgChainNode>, i: int) -> Option<(i128, i64)> {
    if i <= 0 {
        Option::None
    } else {
        Option::Some((s[i - 1].eff_perf, s[i - 1].gas_limit))
    }
}

/// The segments of one sender, with the cursor on the current segment.
#[derive(Clone, PartialEq, Debug)]
pub struct MsgChain {
    /// Position of the current segment.
    pub index: usize,
    /// The sender's segments, in ascending nonce order.
    pub chain: Vec<MsgChainNode>,
}

impl MsgChain {
    /// Well-formedness: at least one segment, the cursor in bounds, and a
    /// well-formed segment vector.
    pub open spec fn wf(self) -> bool {
        &&& self.chain@.len() > 0
        &&& (self.index as int) < self.chain@.len()
        &&& nodes_wf(self.chain@)
    }

    /// The current segment, as a spec value.
    pub open spec fn curr_spec(self) -> MsgChainNode {
        self.chain@[self.index as int]
    }

    /// A chain over the given segments, with the cursor at the front.
    pub fn new(nodes: Vec<MsgChainNode>) -> (r: MsgChain)
        requires
            nodes@.len() > 0,
            nodes_wf(nodes@),
        ensures
            r.wf(),
            r.index == 0,
            r.chain@ == nodes@,
    {
        MsgChain { index: 0, chain: nodes }
    }

    /// The current segment.  The cursor is always in bounds on a
    /// well-formed chain.
    pub fn curr(&self) -> (r: &MsgChainNode)
        requires
            self.wf(),
        ensures
            *r == self.curr_spec(),
    {
        &self.chain[self.index]
    }

    /// The segment before the cursor, or none at the front boundary.
    pub fn prev(&self) -> (r: Option<&MsgChainNode>)
        requires
            self.wf(),
        ensures
            self.index == 0 ==> r.is_none(),
            self.index > 0 ==> (r matches Some(n) && *n == self.chain@[self.index - 1]),
    {
        if self.index == 0 {
            return None;
        }
        Some(&self.chain[self.index - 1])
    }

    /// The segment after the cursor, or none at the back boundary.
    pub fn next(&self) -> (r: Option<&MsgChainNode>)
        requires
            self.wf(),
        ensures
            self.index + 1 == self.chain@.len() ==> r.is_none(),
            self.index + 1 < self.chain@.len() ==> (r matches Some(n) && *n == self.chain@[
                self.index + 1
            ]),
    {
        if self.index == self.chain.len() - 1 {
            return None;
        }
        Some(&self.chain[self.index + 1])
    }

    /// Moves the cursor one segment forward; reports whether it moved.
    /// At the back boundary the chain is unchanged.
    pub fn move_forward(&mut self) -> (moved: bool)
        requires
            old(self).wf(),
        ensures
            final(self).wf(),
            final(self).chain == old(self).chain,
            moved <==> old(self).index + 1 < old(self).chain@.len(),
            moved ==> final(self).index == old(self).index + 1,
            !moved ==> final(self).index == old(self).index,
    {
        if self.index == self.chain.len() - 1 {
            return false;
        }
        self.index = self.index + 1;
        true
    }

    /// Moves the cursor one segment backward; reports whether it moved.
    /// At the front boundary the chain is unchanged.
    pub fn move_backward(&mut self) -> (moved: bool)
        requires
            old(self).wf(),
        ensures
            final(self).wf(),
            final(self).chain == old(self).chain,
            moved <==> old(self).index > 0,
            moved ==> final(self).index == old(self).index - 1,
            !moved ==> final(self).index == old(self).index,
    {
        if self.index == 0 {
            return false;
        }
        self.index = self.index - 1;
        true
    }

    /// Plain ranking of two chains by their current segments.
    pub fn compare(&self, other: &MsgChain) -> (r: Ordering)
        requires
            self.wf(),
            other.wf(),
        ensures
            r == MsgChainNode::compare_spec(self.curr_spec(), other.curr_spec()),
    {
        self.chain[self.index].compare(&other.chain[other.index])
    }

    /// Selection-priority ranking of two chains by their current segments.
    pub fn cmp_effective(&self, other: &MsgChain) -> (r: Ordering)
        requires
            self.wf(),
            other.wf(),
        ensures
            r == MsgChainNode::cmp_effective_spec(self.curr_spec(), other.curr_spec()),
    {
        self.chain[self.index].cmp_effective(&other.chain[other.index])
    }

    /// Recomputes the current segment's effective score against the segment
    /// immediately before the cursor.
    pub fn set_eff_perf(&mut self)
        requires
            old(self).wf(),
            old(self).index > 0 ==> old(self).curr_spec().valid,
        ensures
            final(self).wf(),
            final(self).index == old(self).index,
            final(self).chain@.len() == old(self).chain@.len(),
            MsgChainNode::eff_perf_updated(
                old(self).curr_spec(),
                final(self).curr_spec(),
                prev_snapshot_of(old(self).chain@, old(self).index as int),
            ),
            forall|i: int|
                0 <= i < old(self).chain@.len() && i != old(self).index ==> final(self).chain@[i]
                    == old(self).chain@[i],
    {
        let prev: Option<(i128, i64)> = if self.index == 0 {
            None
        } else {
            let p = &self.chain[self.index - 1];
            Some((p.eff_perf, p.gas_limit))
        };
        let i = self.index;
        self.chain[i].set_eff_perf(prev);
    }

    /// Recomputes the segment at `idx` against the segment immediately
    /// before it.
    pub fn set_eff_perf_at(&mut self, idx: usize)
        requires
            old(self).wf(),
            idx < old(self).chain@.len(),
            idx > 0 ==> old(self).chain@[idx as int].valid,
        ensures
            final(self).wf(),
            final(self).index == old(self).index,
            final(self).chain@.len() == old(self).chain@.len(),
            MsgChainNode::eff_perf_updated(
                old(self).chain@[idx as int],
                final(self).chain@[idx as int],
                prev_snapshot_of(old(self).chain@, idx as int),
            ),
            forall|i: int|
                0 <= i < old(self).chain@.len() && i != idx ==> final(self).chain@[i] == old(
                    self,
                ).chain@[i],
    {
        let prev: Option<(i128, i64)> = if idx == 0 {
            None
        } else {
            let p = &self.chain[idx - 1];
            Some((p.eff_perf, p.gas_limit))
        };
        self.chain[idx].set_eff_perf(prev);
    }

    /// Sets the current segment's inclusion-probability weight and
    /// recomputes its effective score against the segment before the cursor.
    pub fn set_effective_perf(&mut self, bp: i128)
        requires
            old(self).wf(),
            0 <= bp <= PERF_SCALE,
            old(self).index > 0 ==> old(self).curr_spec().valid,
        ensures
            final(self).wf(),
            final(self).index == old(self).index,
            final(self).chain@.len() == old(self).chain@.len(),
            MsgChainNode::eff_perf_updated(
                (MsgChainNode { bp, ..old(self).curr_spec() }),
                final(self).curr_spec(),
                prev_snapshot_of(old(self).chain@, old(self).index as int),
            ),
            forall|i: int|
                0 <= i < old(self).chain@.len() && i != old(self).index ==> final(self).chain@[i]
                    == old(self).chain@[i],
    {
        let i = self.index;
        self.chain[i].bp = bp;
        self.set_eff_perf();
    }

    /// Gives the current segment the null effective score: a negative
    /// `gas_perf` is propagated, anything else scores zero.
    pub fn set_null_effective_perf(&mut self)
        requires
            old(self).wf(),
        ensures
            final(self).wf(),
            final(self).index == old(self).index,
            final(self).chain@.len() == old(self).chain@.len(),
            final(self).curr_spec() == (MsgChainNode {
                eff_perf: if old(self).curr_spec().gas_perf < 0 {
                    old(self).curr_spec().gas_perf
                } else {
                    0
                },
                ..old(self).curr_spec()
            }),
            forall|i: int|
                0 <= i < old(self).chain@.len() && i != old(self).index ==> final(self).chain@[i]
                    == old(self).chain@[i],
    {
        let i = self.index;
        self.chain[i].set_null_effective_perf();
    }
}

/// A segment was invalidated in place: marked invalid, its messages
/// cleared, its `next` link cut, everything else untouched.
pub open spec fn node_cleared(pre: MsgChainNode, post: MsgChainNode) -> bool {
    &&& !post.valid
    &&& post.msgs@.len() == 0
    &&& post.next is None
    &&& post.prev == pre.prev
    &&& post.gas_reward == pre.gas_reward
    &&& post.gas_limit == pre.gas_limit
    &&& post.gas_perf == pre.gas_perf
    &&& post.eff_perf == pre.eff_perf
    &&& post.bp == pre.bp
    &&& post.parent_offset == pre.parent_offset
    &&& post.merged == pre.merged
}

/// Whether the forward walk along `next` links, starting at `start`, visits
/// position `j` before it runs off the vector or meets a missing link.
pub open spec fn walk_visits(s: Seq<MsgChainNode>, start: int, j: int) -> bool
    decreases s.len() - start,
{
    if start < 0 || start >= s.len() {
        false
    } else if j == start {
        true
    } else {
        match s[start].next {
            Option::Some(k) => if start < k <= s.len() {
                walk_visits(s, k as int, j)
            } else {
                false
            },
            Option::None => false,
        }
    }
}

/// One past the last position the forward walk visits when the links are
/// consistent: the walk runs over adjacent positions until a missing link.
pub open spec fn walk_end(s: Seq<MsgChainNode>, start: int) -> int
    decreases s.len() - start,
{
    if start < 0 || start >= s.len() {
        start
    } else {
        match s[start].next {
            Option::Some(k) => if k == start + 1 && start + 1 < s.len() {
                walk_end(s, start + 1)
            } else {
                start + 1
            },
            Option::None => start + 1,
        }
    }
}

/// What the forward invalidation walk from `start` leaves behind.
pub open spec fn invalidate_post(pre: Seq<MsgChainNode>, post: Seq<MsgChainNode>, start: int) -> bool {
    &&& post.len() == pre.len()
    &&& forall|i: int|
        0 <= i < pre.len() ==> if start <= i < walk_end(pre, start) {
            node_cleared(pre[i], #[trigger] post[i])
        } else {
            post[i] == pre[i]
        }
}

/// With consistent links the walk visits exactly the positions from `start`
/// up to `walk_end`.
pub proof fn lemma_walk_charact(s: Seq<MsgChainNode>, start: int)
    requires
        links_wf(s),
    ensures
        forall|j: int| #[trigger] walk_visits(s, start, j) <==> (0 <= start <= j < walk_end(
            s,
            start,
        )),
        start < 0 || start >= s.len() ==> walk_end(s, start) == start,
        0 <= start < s.len() ==> start < walk_end(s, start) <= s.len(),
    decreases s.len() - start,
{
    if 0 <= start < s.len() {
        match s[start].next {
            Option::Some(k) => {
                assert(k == start + 1 && start + 1 < s.len());
                lemma_walk_charact(s, start + 1);
                assert forall|j: int| #[trigger]
                    walk_visits(s, start, j) <==> (0 <= start <= j < walk_end(s, start)) by {
                    if j != start {
                        assert(walk_visits(s, start, j) == walk_visits(s, start + 1, j));
                    }
                }
            },
            Option::None => {
                assert forall|j: int| #[trigger]
                    walk_visits(s, start, j) <==> (0 <= start <= j < walk_end(s, start)) by {
                    if j != start {
                        assert(!walk_visits(s, start, j));
                    }
                }
            },
        }
    } else {
        assert forall|j: int| #[trigger]
            walk_visits(s, start, j) <==> (0 <= start <= j < walk_end(s, start)) by {
            assert(!walk_visits(s, start, j));
        }
    }
}

/// The forward invalidation walk invalidates exactly the segments it can
/// reach over `next` links from `start` on, and never touches a segment
/// before `start`, nor one past the first missing link.
pub proof fn lemma_invalidate_scope(
    pre: Seq<MsgChainNode>,
    post: Seq<MsgChainNode>,
    start: int,
)
    requires
        links_wf(pre),
        invalidate_post(pre, post, start),
    ensures
        forall|j: int| walk_visits(pre, start, j) ==> node_cleared(pre[j], #[trigger] post[j]),
        forall|j: int|
            0 <= j < pre.len() && !walk_visits(pre, start, j) ==> #[trigger] post[j] == pre[j],
{
    lemma_walk_charact(pre, start);
}

impl MsgChain {
    /// Walks forward from `node_idx` along `next` links, invalidating each
    /// visited segment, clearing its messages and cutting its `next` link,
    /// and stops at the first segment without a link.  A shrunken earlier
    /// segment leaves every later segment of the sender scored against data
    /// that no longer holds, so they are dropped rather than over-counted.
    pub fn invalidate_next_nodes(&mut self, node_idx: usize)
        requires
            old(self).wf(),
        ensures
            final(self).wf(),
            final(self).index == old(self).index,
            invalidate_post(old(self).chain@, final(self).chain@, node_idx as int),
    {
        let ghost s0 = self.chain@;
        proof {
            lemma_walk_charact(s0, node_idx as int);
        }
        let mut idx: usize = node_idx;
        let mut go: bool = idx < self.chain.len();
        while go
            invariant
                old(self).wf(),
                s0 == old(self).chain@,
                self.index == old(self).index,
                self.chain@.len() == s0.len(),
                node_idx <= idx,
                go ==> idx < s0.len() && walk_end(s0, idx as int) == walk_end(s0, node_idx as int),
                !go ==> idx == walk_end(s0, node_idx as int) || (node_idx >= s0.len() && idx
                    == node_idx),
                forall|i: int|
                    0 <= i < s0.len() && !(node_idx <= i < idx) ==> #[trigger] self.chain@[i]
                        == s0[i],
                forall|i: int|
                    node_idx <= i < idx ==> node_cleared(s0[i], #[trigger] self.chain@[i]),
                nodes_wf(self.chain@),
            decreases s0.len() - idx,
        {
            let n: usize = self.chain.len();
            let nxt: Option<usize> = self.chain[idx].next;
            self.chain[idx].valid = false;
            self.chain[idx].msgs.clear();
            self.chain[idx].next = None;
            match nxt {
                Some(k) => {
                    idx = k;
                    go = idx < n;
                },
                None => {
                    idx = idx + 1;
                    go = false;
                },
            }
        }
    }

    /// Trims the segment at `node_idx` in place to `gas_limit_cap`, against
    /// the frozen score snapshot of the segment immediately preceding it
    /// (none when it is first), then invalidates every segment the forward
    /// walk reaches from the position after it.
    pub fn trim(&mut self, gas_limit_cap: i64, node_idx: usize)
        requires
            old(self).wf(),
            node_idx < old(self).chain@.len(),
        ensures
            final(self).wf(),
            final(self).index == old(self).index,
            final(self).chain@.len() == old(self).chain@.len(),
            MsgChainNode::trim_spec(
                old(self).chain@[node_idx as int],
                final(self).chain@[node_idx as int],
                gas_limit_cap as int,
                prev_snapshot_of(old(self).chain@, node_idx as int),
            ),
            final(self).chain@[node_idx as int].valid ==> final(self).chain@[node_idx as int].gas_limit
                <= gas_limit_cap && final(self).chain@[node_idx as int].gas_perf >= 0,
            !final(self).chain@[node_idx as int].valid ==> final(self).chain@[node_idx as int].msgs@.len()
                == 0,
            forall|i: int| 0 <= i < node_idx ==> final(self).chain@[i] == old(self).chain@[i],
            invalidate_post(
                old(self).chain@.update(node_idx as int, final(self).chain@[node_idx as int]),
                final(self).chain@,
                node_idx + 1,
            ),
    {
        let ghost s0 = self.chain@;
        let n: usize = self.chain.len();
        proof {
            assert(node_idx < n);
        }
        let prev: Option<(i128, i64)> = if node_idx == 0 {
            None
        } else {
            let p = &self.chain[node_idx - 1];
            Some((p.eff_perf, p.gas_limit))
        };
        self.chain[node_idx].trim(gas_limit_cap, prev);
        let ghost mid = self.chain@;
        proof {
            assert(mid == s0.update(node_idx as int, mid[node_idx as int]));
            assert(nodes_wf(mid)) by {
                let pre_n = s0[node_idx as int];
                let post_n = mid[node_idx as int];
                let tc = MsgChainNode::trim_count(pre_n.msgs@, gas_limit_cap as int);
                MsgChainNode::lemma_trim_count_le(pre_n.msgs@, gas_limit_cap as int);
                assert(pre_n.wf());
                if !(tc == pre_n.msgs@.len() && tc > 0) && tc > 0 {
                    assert(post_n.msgs@ == pre_n.msgs@.subrange(0, tc));
                    assert(post_n.msgs@.first() == pre_n.msgs@.first());
                    assert(post_n.msgs@.last() == pre_n.msgs@[tc - 1]);
                    assert(pre_n.msgs@[tc - 1].sequence <= pre_n.msgs@.last().sequence);
                }
                assert forall|i: int|
                    #![trigger mid[i], mid[i + 1]]
                    0 <= i && i + 1 < mid.len() && mid[i].msgs@.len() > 0 && mid[i
                        + 1].msgs@.len() > 0 implies mid[i].msgs@.last().sequence < mid[i
                    + 1].msgs@.first().sequence by {
                    assert(s0[i].wf());
                }
            }
        }
        self.invalidate_next_nodes(node_idx + 1);
    }
}

impl Default for MsgChain {
    /// An empty chain; not yet usable until segments are supplied.
    fn default() -> (r: Self)
        ensures
            r.index == 0,
            r.chain@.len() == 0,
    {
        MsgChain { index: 0, chain: Vec::new() }
    }
}

} // verus!
