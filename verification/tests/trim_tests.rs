use msg_chain::chain::MsgChain;
use msg_chain::msg::Msg;
use msg_chain::node::MsgChainNode;
use msg_chain::perf::{get_gas_perf, PERF_SCALE};

fn node_from(msgs: Vec<(u64, i64, i128)>) -> MsgChainNode {
    let mut n = MsgChainNode::new();
    let mut gas_limit: i64 = 0;
    let mut gas_reward: i128 = 0;
    for (sequence, gl, rw) in &msgs {
        gas_limit += *gl;
        gas_reward += *rw;
        n.msgs.push(Msg {
            sequence: *sequence,
            gas_limit: *gl,
            gas_reward: *rw,
        });
    }
    n.gas_limit = gas_limit;
    n.gas_reward = gas_reward;
    if gas_limit > 0 {
        n.gas_perf = get_gas_perf(gas_reward, gas_limit);
        n.valid = true;
    }
    n
}

fn chain_from(segs: Vec<Vec<(u64, i64, i128)>>) -> MsgChain {
    let last = segs.len() - 1;
    let mut nodes: Vec<MsgChainNode> = Vec::new();
    for (i, seg) in segs.into_iter().enumerate() {
        let mut n = node_from(seg);
        if i > 0 {
            n.prev = Some(i - 1);
        }
        if i < last {
            n.next = Some(i + 1);
        }
        nodes.push(n);
    }
    MsgChain::new(nodes)
}

#[test]
fn trim_drops_tail_until_cap() {
    // gas limits [50, 60, 90], total 200, trimmed to 100: only the first
    // message survives
    let mut n = node_from(vec![(0, 50, 50), (1, 60, 60), (2, 90, 90)]);
    n.trim(100, None);
    assert!(n.valid);
    assert_eq!(n.msgs.len(), 1);
    assert_eq!(n.msgs[0].gas_limit, 50);
    assert_eq!(n.gas_limit, 50);
    assert_eq!(n.gas_reward, 50);
    assert_eq!(n.gas_perf, PERF_SCALE);
}

#[test]
fn trim_removes_everything_when_unprofitable() {
    // same shape but negative rewards: even the fitting prefix scores
    // negative, so every message goes and the segment is invalidated
    let mut n = node_from(vec![(0, 50, -50), (1, 60, -60), (2, 90, -90)]);
    n.trim(100, None);
    assert!(!n.valid);
    assert!(n.msgs.is_empty());
    assert_eq!(n.gas_limit, 0);
    assert_eq!(n.gas_reward, 0);
    assert_eq!(n.gas_perf, 0);
    assert_eq!(n.eff_perf, 0);
}

#[test]
fn trim_keeps_fitting_profitable_segment() {
    let mut n = node_from(vec![(0, 50, 50), (1, 60, 60)]);
    let before = n.clone();
    n.trim(200, None);
    assert_eq!(n, before);
}

#[test]
fn trim_empty_segment_invalidates() {
    let mut n = MsgChainNode::new();
    n.trim(100, None);
    assert!(!n.valid);
    assert!(n.msgs.is_empty());
}

#[test]
fn trim_recomputes_effective_perf_against_snapshot() {
    // bp is set, so each removal re-derives eff_perf against the frozen
    // parent snapshot
    let mut n = node_from(vec![(0, 100, 200), (1, 100, 200)]);
    n.bp = PERF_SCALE;
    n.trim(100, Some((PERF_SCALE, 100)));
    assert!(n.valid);
    assert_eq!(n.msgs.len(), 1);
    assert_eq!(n.gas_limit, 100);
    assert_eq!(n.gas_perf, 2 * PERF_SCALE);
    // weighted = (2.0 * 100 + 1.0 * 100) / 200 = 1.5 in quanta
    let weighted = (2 * PERF_SCALE * 100 + PERF_SCALE * 100) / 200;
    assert_eq!(n.eff_perf, weighted);
    assert_eq!(n.parent_offset, 2 * PERF_SCALE - weighted);
}

#[test]
fn chain_trim_invalidates_following_segments() {
    let mut c = chain_from(vec![
        vec![(0, 50, 50), (1, 60, 60)],
        vec![(2, 40, 40)],
        vec![(3, 30, 30)],
    ]);
    c.trim(50, 0);
    // segment 0 trimmed to its first message
    assert!(c.chain[0].valid);
    assert_eq!(c.chain[0].msgs.len(), 1);
    assert_eq!(c.chain[0].gas_limit, 50);
    // every following segment is invalidated, emptied and unlinked
    for i in 1..3 {
        assert!(!c.chain[i].valid);
        assert!(c.chain[i].msgs.is_empty());
        assert_eq!(c.chain[i].next, None);
    }
}

#[test]
fn invalidation_walk_stops_at_missing_link() {
    // a broken next link cuts the walk short: the segment past the break
    // stays untouched
    let mut c = chain_from(vec![
        vec![(0, 50, 50)],
        vec![(1, 40, 40)],
        vec![(2, 30, 30)],
    ]);
    c.chain[1].next = None;
    c.invalidate_next_nodes(1);
    assert!(c.chain[0].valid);
    assert!(!c.chain[1].valid);
    assert!(c.chain[1].msgs.is_empty());
    assert!(c.chain[2].valid);
    assert_eq!(c.chain[2].msgs.len(), 1);
}

#[test]
fn invalidation_walk_from_past_the_end_is_a_no_op() {
    let mut c = chain_from(vec![vec![(0, 50, 50)]]);
    let before = c.clone();
    c.invalidate_next_nodes(1);
    assert_eq!(c, before);
}

#[test]
fn invalidation_walk_clears_whole_linked_run() {
    let mut c = chain_from(vec![
        vec![(0, 50, 50)],
        vec![(1, 40, 40)],
        vec![(2, 30, 30)],
    ]);
    c.invalidate_next_nodes(0);
    for i in 0..3 {
        assert!(!c.chain[i].valid);
        assert!(c.chain[i].msgs.is_empty());
        assert_eq!(c.chain[i].next, None);
    }
}
