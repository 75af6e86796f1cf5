use conduit_core::lookup::stage::forward_chain_step;
use conduit_core::net::SockAddr;
use conduit_core::phase::Phase;
use conduit_core::pipeline::StageOutcome;
use conduit_core::transaction::{ClientProtocol, Transaction};

fn txn_with_attempts(n: u32) -> Transaction {
    let mut t = Transaction::new(9, SockAddr::v4(127, 0, 0, 1, 53), ClientProtocol::Udp);
    t.attempt_count = n;
    t
}

#[test]
fn exhausted_attempts_answer_servfail_without_routing() {
    let mut t = txn_with_attempts(3);
    let r = forward_chain_step(&mut t, 3, StageOutcome::Continue(Phase::Forward));
    assert_eq!(r, StageOutcome::Continue(Phase::Send));
    assert_eq!(t.rcode(), Some(2));
}

#[test]
fn route_outcomes_map_to_the_next_phase() {
    let mut t = txn_with_attempts(1);
    assert_eq!(forward_chain_step(&mut t, 3, StageOutcome::Continue(Phase::Forward)), StageOutcome::Continue(Phase::Forward));
    assert_eq!(
        forward_chain_step(&mut t, 3, StageOutcome::Continue(Phase::ResponseRules)),
        StageOutcome::Continue(Phase::ResponseRules)
    );
    assert_eq!(forward_chain_step(&mut t, 3, StageOutcome::Drop), StageOutcome::Drop);
    assert_eq!(forward_chain_step(&mut t, 3, StageOutcome::Continue(Phase::Parse)), StageOutcome::Continue(Phase::Send));
    assert_eq!(t.rcode(), None);
}
