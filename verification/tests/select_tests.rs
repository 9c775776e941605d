use msg_chain::chain::MsgChain;
use msg_chain::msg::Msg;
use msg_chain::node::MsgChainNode;
use msg_chain::perf::get_gas_perf;
use msg_chain::select::{select_messages, shuffle_chains, shuffle_tied};

fn node_from(msgs: Vec<(u64, i64, i128)>) -> MsgChainNode {
    let mut n = MsgChainNode::new();
    let mut gas_limit: i64 = 0;
    let mut gas_reward: i128 = 0;
    for (sequence, gl, rw) in &msgs {
        gas_limit += *gl;
        gas_reward += *rw;
        n.msgs.push(Msg {
            sequence: *sequence,
            gas_limit: *gl,
            gas_reward: *rw,
        });
    }
    n.gas_limit = gas_limit;
    n.gas_reward = gas_reward;
    if gas_limit > 0 {
        n.gas_perf = get_gas_perf(gas_reward, gas_limit);
        n.valid = true;
    }
    n
}

fn chain_from(segs: Vec<Vec<(u64, i64, i128)>>) -> MsgChain {
    let last = segs.len() - 1;
    let mut nodes: Vec<MsgChainNode> = Vec::new();
    for (i, seg) in segs.into_iter().enumerate() {
        let mut n = node_from(seg);
        if i > 0 {
            n.prev = Some(i - 1);
        }
        if i < last {
            n.next = Some(i + 1);
        }
        nodes.push(n);
    }
    MsgChain::new(nodes)
}

#[test]
fn select_commits_single_chain_in_order() {
    let c = chain_from(vec![
        vec![(0, 50, 100), (1, 60, 120)],
        vec![(2, 40, 40)],
    ]);
    let r = select_messages(vec![c], 1000);
    let seqs: Vec<u64> = r.msgs.iter().map(|m| m.sequence).collect();
    assert_eq!(seqs, vec![0, 1, 2]);
    assert_eq!(r.gas_used, 150);
    assert_eq!(r.gas_reward, 260);
}

#[test]
fn select_never_exceeds_budget() {
    let c1 = chain_from(vec![vec![(0, 50, 100), (1, 60, 120), (2, 90, 90)]]);
    let c2 = chain_from(vec![vec![(0, 80, 400)]]);
    let r = select_messages(vec![c1, c2], 100);
    assert!(r.gas_used <= 100);
    let total: i64 = r.msgs.iter().map(|m| m.gas_limit).sum();
    assert_eq!(r.gas_used, total);
    let reward: i128 = r.msgs.iter().map(|m| m.gas_reward).sum();
    assert_eq!(r.gas_reward, reward);
}

#[test]
fn select_trims_oversized_segment() {
    // one chain, one segment [50, 60, 90]: with budget 100 the segment is
    // trimmed to its first message, which is then committed
    let c = chain_from(vec![vec![(0, 50, 50), (1, 60, 60), (2, 90, 90)]]);
    let r = select_messages(vec![c], 100);
    assert_eq!(r.gas_used, 50);
    assert_eq!(r.msgs.len(), 1);
    assert_eq!(r.msgs[0].sequence, 0);
}

#[test]
fn select_prefers_higher_scoring_chain() {
    // both fit, but only one fits after the other is taken: the higher
    // reward-per-gas chain must win the single slot
    let lo = chain_from(vec![vec![(0, 100, 100)]]);
    let hi = chain_from(vec![vec![(0, 100, 900)]]);
    let r = select_messages(vec![lo, hi], 100);
    assert_eq!(r.gas_used, 100);
    assert_eq!(r.gas_reward, 900);
}

#[test]
fn select_with_no_chains_is_empty() {
    let r = select_messages(Vec::new(), 500);
    assert!(r.msgs.is_empty());
    assert_eq!(r.gas_used, 0);
    assert_eq!(r.gas_reward, 0);
}

#[test]
fn select_with_zero_budget_commits_nothing() {
    let c = chain_from(vec![vec![(0, 50, 50)]]);
    let r = select_messages(vec![c], 0);
    assert!(r.msgs.is_empty());
    assert_eq!(r.gas_used, 0);
}

#[test]
fn select_skips_invalidated_current_segment() {
    let mut c = chain_from(vec![vec![(0, 50, 50)]]);
    c.chain[0].valid = false;
    c.chain[0].msgs.clear();
    c.chain[0].gas_limit = 0;
    let r = select_messages(vec![c], 100);
    assert!(r.msgs.is_empty());
}

#[test]
fn shuffle_preserves_the_chains() {
    let mut chains = vec![
        chain_from(vec![vec![(0, 10, 10)]]),
        chain_from(vec![vec![(0, 20, 20)]]),
        chain_from(vec![vec![(0, 30, 30)]]),
        chain_from(vec![vec![(0, 40, 40)]]),
    ];
    let mut before: Vec<i64> = chains.iter().map(|c| c.chain[0].gas_limit).collect();
    shuffle_chains(&mut chains);
    let mut after: Vec<i64> = chains.iter().map(|c| c.chain[0].gas_limit).collect();
    before.sort();
    after.sort();
    assert_eq!(before, after);
}

#[test]
fn shuffle_tied_moves_only_the_tied_group() {
    // two chains are exactly tied; the third ranks strictly lower and must
    // keep its position
    let t1 = chain_from(vec![vec![(0, 100, 500)]]);
    let t2 = chain_from(vec![vec![(7, 100, 500)]]);
    let lo = chain_from(vec![vec![(0, 100, 100)]]);
    let mut chains = vec![t1.clone(), lo.clone(), t2.clone()];
    let b = shuffle_tied(&mut chains);
    assert_eq!(chains.len(), 3);
    // the untied chain is untouched
    assert_eq!(chains[1], lo);
    // positions 0 and 2 hold the tied pair, in one order or the other
    assert!(
        (chains[0] == t1 && chains[2] == t2) || (chains[0] == t2 && chains[2] == t1)
    );
    // the reported position holds a top-ranked chain
    assert_eq!(chains[b].chain[0].gas_reward, 500);
}

#[test]
fn tie_break_still_fills_the_block() {
    // many exactly tied chains: whatever order the shuffle picks, the
    // budget is filled and never exceeded
    let mut chains = Vec::new();
    for i in 0..8 {
        chains.push(chain_from(vec![vec![(i, 100, 300)]]));
    }
    let r = select_messages(chains, 250);
    assert_eq!(r.gas_used, 200);
    assert_eq!(r.msgs.len(), 2);
}
