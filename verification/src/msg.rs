//! The message data the scoring core reads.
//!
//! The surrounding node holds full signed messages; this core only reads a
//! message's nonce, its gas limit and its exact reward at the active base
//! fee.  The reward is computed by the external scoring collaborator and
//! handed in as data, so that every value this core works on is a plain
//! integer.

use vstd::prelude::*;

verus! {

use crate::perf::{MSG_GAS_LIMIT_MAX, PREMIUM_MAX};

/// One pending message, reduced to what scoring and trimming read.
#[derive(Clone, Copy, PartialEq, Eq, Debug)]
pub struct Msg {
    /// Nonce of the message within its sender's account.
    pub sequence: u64,
    /// Gas limit of this single message.
    pub gas_limit: i64,
    /// Exact reward payable to the block producer for this message at the
    /// active base fee.
    pub gas_reward: i128,
}

/// A single message is well formed: positive, bounded gas limit, and a
/// reward whose magnitude stays below `PREMIUM_MAX` per unit of gas.
pub open spec fn msg_wf(m: Msg) -> bool {
    &&& 0 < m.gas_limit <= MSG_GAS_LIMIT_MAX
    &&& -(PREMIUM_MAX * m.gas_limit) <= m.gas_reward <= PREMIUM_MAX * m.gas_limit
}

/// A message list is well formed: every message is, and nonces strictly
/// ascend.
pub open spec fn msgs_wf(msgs: Seq<Msg>) -> bool {
    &&& forall|i: int| 0 <= i < msgs.len() ==> msg_wf(#[trigger] msgs[i])
    &&& forall|i: int, j: int|
        0 <= i < j < msgs.len() ==> #[trigger] msgs[i].sequence < #[trigger] msgs[j].sequence
}

/// Total gas limit of a message list.
pub open spec fn sum_gas(msgs: Seq<Msg>) -> int
    decreases msgs.len(),
{
    if msgs.len() == 0 {
        0
    } else {
        sum_gas(msgs.drop_last()) + msgs.last().gas_limit
    }
}

/// Total exact reward of a message list.
pub open spec fn sum_reward(msgs: Seq<Msg>) -> int
    decreases msgs.len(),
{
    if msgs.len() == 0 {
        0
    } else {
        sum_reward(msgs.drop_last()) + msgs.last().gas_reward
    }
}

/// The totals of a well-formed message list are bounded: the gas total is
/// positive as soon as the list is non-empty, and the reward total stays
/// below `PREMIUM_MAX` per unit of total gas.
pub proof fn lemma_sums(msgs: Seq<Msg>)
    requires
        forall|i: int| 0 <= i < msgs.len() ==> msg_wf(#[trigger] msgs[i]),
    ensures
        sum_gas(msgs) >= 0,
        msgs.len() > 0 ==> sum_gas(msgs) > 0,
        -(PREMIUM_MAX * sum_gas(msgs)) <= sum_reward(msgs) <= PREMIUM_MAX * sum_gas(msgs),
    decreases msgs.len(),
{
    if msgs.len() > 0 {
        assert(forall|i: int|
            0 <= i < msgs.drop_last().len() ==> msg_wf(#[trigger] msgs.drop_last()[i]));
        lemma_sums(msgs.drop_last());
        assert(msg_wf(msgs.last()));
    }
}

/// Extending a prefix by one message extends its totals by that message.
pub proof fn lemma_sum_prefix_step(msgs: Seq<Msg>, j: int)
    requires
        0 <= j < msgs.len(),
    ensures
        sum_gas(msgs.subrange(0, j + 1)) == sum_gas(msgs.subrange(0, j)) + msgs[j].gas_limit,
        sum_reward(msgs.subrange(0, j + 1)) == sum_reward(msgs.subrange(0, j)) + msgs[j].gas_reward,
{
    assert(msgs.subrange(0, j + 1).drop_last() =~= msgs.subrange(0, j));
    assert(msgs.subrange(0, j + 1).last() == msgs[j]);
}

/// A prefix of a well-formed message list never carries more gas than the
/// whole list.
pub proof fn lemma_sum_prefix_le(msgs: Seq<Msg>, j: int)
    requires
        forall|i: int| 0 <= i < msgs.len() ==> msg_wf(#[trigger] msgs[i]),
        0 <= j <= msgs.len(),
    ensures
        sum_gas(msgs.subrange(0, j)) <= sum_gas(msgs),
    decreases msgs.len() - j,
{
    if j == msgs.len() {
        assert(msgs.subrange(0, j) =~= msgs);
    } else {
        lemma_sum_prefix_step(msgs, j);
        assert(msg_wf(msgs[j]));
        lemma_sum_prefix_le(msgs, j + 1);
    }
}

} // verus!
