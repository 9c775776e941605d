use msg_chain::chain::MsgChain;
use msg_chain::msg::Msg;
use msg_chain::node::MsgChainNode;
use msg_chain::perf::{get_gas_perf, PERF_SCALE};
use std::cmp::Ordering;

fn node_from(msgs: Vec<(u64, i64, i128)>) -> MsgChainNode {
    let mut n = MsgChainNode::new();
    let mut gas_limit: i64 = 0;
    let mut gas_reward: i128 = 0;
    for (sequence, gl, rw) in &msgs {
        gas_limit += *gl;
        gas_reward += *rw;
        n.msgs.push(Msg {
            sequence: *sequence,
            gas_limit: *gl,
            gas_reward: *rw,
        });
    }
    n.gas_limit = gas_limit;
    n.gas_reward = gas_reward;
    if gas_limit > 0 {
        n.gas_perf = get_gas_perf(gas_reward, gas_limit);
        n.valid = true;
    }
    n
}

fn chain_from(segs: Vec<Vec<(u64, i64, i128)>>) -> MsgChain {
    let last = segs.len() - 1;
    let mut nodes: Vec<MsgChainNode> = Vec::new();
    for (i, seg) in segs.into_iter().enumerate() {
        let mut n = node_from(seg);
        if i > 0 {
            n.prev = Some(i - 1);
        }
        if i < last {
            n.next = Some(i + 1);
        }
        nodes.push(n);
    }
    MsgChain::new(nodes)
}

#[test]
fn cursor_navigation_respects_boundaries() {
    let mut c = chain_from(vec![
        vec![(0, 50, 50)],
        vec![(1, 40, 40)],
    ]);
    assert_eq!(c.index, 0);
    assert_eq!(c.curr().msgs[0].sequence, 0);
    assert!(c.prev().is_none());
    assert_eq!(c.next().unwrap().msgs[0].sequence, 1);

    assert!(!c.move_backward());
    assert_eq!(c.index, 0);

    assert!(c.move_forward());
    assert_eq!(c.index, 1);
    assert_eq!(c.curr().msgs[0].sequence, 1);
    assert_eq!(c.prev().unwrap().msgs[0].sequence, 0);
    assert!(c.next().is_none());

    assert!(!c.move_forward());
    assert_eq!(c.index, 1);

    assert!(c.move_backward());
    assert_eq!(c.index, 0);
}

#[test]
fn chain_comparisons_use_current_segment() {
    let mut a = chain_from(vec![
        vec![(0, 100, 100)],
        vec![(1, 100, 400)],
    ]);
    let b = chain_from(vec![vec![(0, 100, 200)]]);
    // a's current segment scores 1.0, b's 2.0
    assert_eq!(a.compare(&b), Ordering::Less);
    assert_eq!(a.cmp_effective(&b), Ordering::Less);
    // after advancing, a's current segment scores 4.0
    assert!(a.move_forward());
    assert_eq!(a.compare(&b), Ordering::Greater);
    assert_eq!(a.cmp_effective(&b), Ordering::Greater);
}

#[test]
fn set_eff_perf_blends_with_cursor_predecessor() {
    let mut c = chain_from(vec![
        vec![(0, 100, 100)],
        vec![(1, 200, 400)],
    ]);
    // fix the predecessor's effective score at 1.0
    c.chain[0].eff_perf = PERF_SCALE;
    assert!(c.move_forward());
    c.set_effective_perf(PERF_SCALE);
    let weighted = (2 * PERF_SCALE * 200 + PERF_SCALE * 100) / 300;
    assert_eq!(c.curr().eff_perf, weighted);
    assert_eq!(c.curr().parent_offset, 2 * PERF_SCALE - weighted);
}

#[test]
fn set_eff_perf_at_uses_indexed_predecessor() {
    let mut c = chain_from(vec![
        vec![(0, 100, 100)],
        vec![(1, 200, 400)],
    ]);
    c.chain[0].eff_perf = PERF_SCALE;
    c.chain[1].bp = PERF_SCALE;
    // the cursor stays at the front; the indexed segment is recomputed
    c.set_eff_perf_at(1);
    assert_eq!(c.index, 0);
    let weighted = (2 * PERF_SCALE * 200 + PERF_SCALE * 100) / 300;
    assert_eq!(c.chain[1].eff_perf, weighted);
}

#[test]
fn chain_null_effective_perf_touches_current_only() {
    let mut c = chain_from(vec![
        vec![(0, 100, -100)],
        vec![(1, 100, 100)],
    ]);
    c.chain[1].eff_perf = 9;
    c.set_null_effective_perf();
    assert_eq!(c.curr().eff_perf, c.curr().gas_perf);
    assert!(c.curr().eff_perf < 0);
    assert_eq!(c.chain[1].eff_perf, 9);
}
