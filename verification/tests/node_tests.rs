use msg_chain::node::MsgChainNode;
use msg_chain::msg::Msg;
use msg_chain::perf::{approx_cmp, get_gas_perf, PERF_SCALE, PREMIUM_MAX, MSG_GAS_LIMIT_MAX};
use std::cmp::Ordering;

fn node_from(msgs: Vec<(u64, i64, i128)>) -> MsgChainNode {
    let mut n = MsgChainNode::new();
    let mut gas_limit: i64 = 0;
    let mut gas_reward: i128 = 0;
    for (sequence, gl, rw) in &msgs {
        gas_limit += *gl;
        gas_reward += *rw;
        n.msgs.push(Msg {
            sequence: *sequence,
            gas_limit: *gl,
            gas_reward: *rw,
        });
    }
    n.gas_limit = gas_limit;
    n.gas_reward = gas_reward;
    if gas_limit > 0 {
        n.gas_perf = get_gas_perf(gas_reward, gas_limit);
        n.valid = true;
    }
    n
}

#[test]
fn gas_perf_exact_values() {
    // 100 reward over 50 gas: two whole units, i.e. two scale quanta blocks
    assert_eq!(get_gas_perf(100, 50), 2 * PERF_SCALE);
    assert_eq!(get_gas_perf(-100, 50), -2 * PERF_SCALE);
    // truncation toward zero on both signs
    assert_eq!(get_gas_perf(1, 3), PERF_SCALE / 3);
    assert_eq!(get_gas_perf(-1, 3), -(PERF_SCALE / 3));
}

#[test]
fn gas_perf_extreme_values() {
    // the largest admissible single message saturates at the score bound
    let gl = MSG_GAS_LIMIT_MAX;
    let rw = PREMIUM_MAX * (gl as i128);
    assert_eq!(get_gas_perf(rw, gl), PREMIUM_MAX * PERF_SCALE);
    assert_eq!(get_gas_perf(-rw, gl), -(PREMIUM_MAX * PERF_SCALE));
}

#[test]
fn approx_cmp_orders_scores() {
    assert_eq!(approx_cmp(3, 3), Ordering::Equal);
    assert_eq!(approx_cmp(2, 3), Ordering::Less);
    assert_eq!(approx_cmp(3, 2), Ordering::Greater);
    assert_eq!(approx_cmp(-5, 5), Ordering::Less);
}

#[test]
fn effective_perf_weighted_average() {
    // parent scored 1.0 over 100 gas; child scores 2.0 over 200 gas
    let mut n = node_from(vec![(0, 200, 400)]);
    assert_eq!(n.gas_perf, 2 * PERF_SCALE);
    n.bp = PERF_SCALE;
    n.set_eff_perf(Some((PERF_SCALE, 100)));
    // weighted = (2.0 * 200 + 1.0 * 100) / 300 = 5/3, in quanta
    let weighted = (2 * PERF_SCALE * 200 + PERF_SCALE * 100) / 300;
    assert_eq!(weighted, 1747626);
    assert_eq!(n.eff_perf, weighted);
    assert_eq!(n.parent_offset, 2 * PERF_SCALE - weighted);
    assert_eq!(n.parent_offset, 349526);
}

#[test]
fn effective_perf_without_parent() {
    let mut n = node_from(vec![(0, 200, 400)]);
    n.bp = PERF_SCALE / 2;
    n.set_eff_perf(None);
    assert_eq!(n.eff_perf, PERF_SCALE);
    assert_eq!(n.parent_offset, 0);
}

#[test]
fn effective_perf_negative_skips_blend() {
    // a negative standalone score is never blended with the parent
    let mut n = node_from(vec![(0, 100, -100)]);
    n.bp = PERF_SCALE;
    n.set_eff_perf(Some((PERF_SCALE, 100)));
    assert_eq!(n.eff_perf, -PERF_SCALE);
    assert_eq!(n.parent_offset, 0);
}

#[test]
fn null_effective_perf_propagates_negative() {
    let mut n = node_from(vec![(0, 100, -100)]);
    n.eff_perf = 7;
    n.set_null_effective_perf();
    assert_eq!(n.eff_perf, n.gas_perf);
    assert!(n.eff_perf < 0);

    let mut p = node_from(vec![(0, 100, 100)]);
    p.eff_perf = 7;
    p.set_null_effective_perf();
    assert_eq!(p.eff_perf, 0);
}

#[test]
fn compare_ranks_perf_then_reward() {
    let a = node_from(vec![(0, 100, 200)]);
    let b = node_from(vec![(0, 100, 100)]);
    assert_eq!(a.compare(&b), Ordering::Greater);
    assert_eq!(b.compare(&a), Ordering::Less);

    // same ratio, same reward: equal
    let c = node_from(vec![(0, 100, 100)]);
    assert_eq!(b.compare(&c), Ordering::Equal);

    // same ratio, bigger exact reward wins
    let d = node_from(vec![(0, 200, 200)]);
    assert_eq!(d.compare(&b), Ordering::Greater);
}

#[test]
fn cmp_effective_priority_rules() {
    // rule 1: an unmerged segment outranks a merged one
    let mut merged = node_from(vec![(0, 100, 500)]);
    merged.merged = true;
    let plain = node_from(vec![(0, 100, 100)]);
    assert_eq!(plain.cmp_effective(&merged), Ordering::Greater);
    assert_eq!(merged.cmp_effective(&plain), Ordering::Less);

    // rule 2: non-negative gas_perf outranks negative, whatever the size
    let neg = node_from(vec![(0, 100, -1000)]);
    let small = node_from(vec![(0, 100, 1)]);
    assert_eq!(small.cmp_effective(&neg), Ordering::Greater);

    // rule 3: higher eff_perf first
    let mut hi = node_from(vec![(0, 100, 100)]);
    hi.eff_perf = 10;
    let mut lo = node_from(vec![(0, 100, 100)]);
    lo.eff_perf = 5;
    assert_eq!(hi.cmp_effective(&lo), Ordering::Greater);

    // rule 5: exact reward breaks full score ties
    let mut r1 = node_from(vec![(0, 100, 100)]);
    let mut r2 = node_from(vec![(0, 200, 200)]);
    r1.eff_perf = 5;
    r2.eff_perf = 5;
    assert_eq!(r2.cmp_effective(&r1), Ordering::Greater);
    assert_eq!(r1.cmp_effective(&r2), Ordering::Less);

    // exact tie in every rule
    let t1 = node_from(vec![(0, 100, 100)]);
    let t2 = node_from(vec![(5, 100, 100)]);
    assert_eq!(t1.cmp_effective(&t2), Ordering::Equal);
}

#[test]
fn new_node_is_empty_and_invalid() {
    let n = MsgChainNode::new();
    assert!(!n.valid);
    assert!(!n.merged);
    assert!(n.msgs.is_empty());
    assert_eq!(n.gas_limit, 0);
    assert_eq!(n.gas_reward, 0);
    assert_eq!(n.next, None);
    assert_eq!(n.prev, None);
}
