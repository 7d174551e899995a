//! The transmitter's bounded retry policy.

use canvas6::network::backoff_delay_ms;
use canvas6::network::retry_step;
use canvas6::network::RetryState;
use canvas6::network::SendAction;
use canvas6::network::SendEvent;

#[test]
fn backoff_is_capped_exponential() {
    let expected = [1u64, 2, 4, 8, 16, 32, 64, 100, 100, 100];
    for (i, &ms) in expected.iter().enumerate() {
        assert_eq!(backoff_delay_ms(i as u32 + 1), ms);
    }
}

#[test]
fn transient_failure_then_success_sends_once() {
    // Drive the state machine like the transmit loop does: one simulated
    // rejected hand-off, then an accepted one.
    let outcomes = [SendEvent::Rejected, SendEvent::Accepted];
    let mut st = RetryState::fresh();
    let mut sends: u32 = 0;
    let mut successes: u32 = 0;
    for ev in outcomes.iter() {
        sends += 1;
        let (next, action) = retry_step(&st, ev);
        st = next;
        match action {
            SendAction::Done => {
                successes += 1;
                break;
            }
            SendAction::SleepAndResend(ms) => {
                assert_eq!(ms, backoff_delay_ms(sends));
            }
        }
    }
    assert_eq!(sends, 2);
    assert_eq!(successes, 1);
    // The wasted time equals the sum of the simulated retry delays.
    assert_eq!(st.wasted_ms, 1);
}

#[test]
fn repeated_failures_accumulate_wasted_time() {
    let mut st = RetryState::fresh();
    for _ in 0..10 {
        let (next, _) = retry_step(&st, &SendEvent::Rejected);
        st = next;
    }
    let (done, action) = retry_step(&st, &SendEvent::Accepted);
    assert!(matches!(action, SendAction::Done));
    assert_eq!(done.attempt, 11);
    assert_eq!(done.wasted_ms, 1 + 2 + 4 + 8 + 16 + 32 + 64 + 100 + 100 + 100);
}

#[test]
fn accepted_hand_off_leaves_state_untouched() {
    let st = RetryState::fresh();
    let (next, action) = retry_step(&st, &SendEvent::Accepted);
    assert_eq!(action, SendAction::Done);
    assert_eq!(next, st);
}
