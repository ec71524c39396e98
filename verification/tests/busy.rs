use gdep073e01::busy::{BusyWait, WaitStep, BUSY_TIMEOUT_MS, BUSY_WAIT_DELAY_MS};

#[test]
fn idle_panel_is_ready_at_once() {
    let mut wait = BusyWait::new();
    assert_eq!(wait.poll(false), WaitStep::Ready);
    assert_eq!(wait.poll(false), WaitStep::Ready);
}

#[test]
fn busy_panel_times_out_after_thirty_seconds() {
    assert_eq!(BUSY_TIMEOUT_MS, 30_000);
    assert_eq!(BUSY_WAIT_DELAY_MS, 10);
    let mut wait = BusyWait::new();
    let mut slept = 0u32;
    let mut delays = 0u32;
    loop {
        match wait.poll(true) {
            WaitStep::Delay(ms) => {
                assert_eq!(ms, 10);
                slept += ms;
                delays += 1;
            }
            WaitStep::TimedOut => break,
            WaitStep::Ready => panic!("a busy panel is not ready"),
        }
    }
    assert_eq!(slept, 30_000);
    assert_eq!(delays, 3_000);
    assert_eq!(wait.poll(true), WaitStep::TimedOut);
    assert_eq!(wait.poll(false), WaitStep::Ready);
}

#[test]
fn panel_that_becomes_idle_ends_the_wait() {
    let mut wait = BusyWait::new();
    assert_eq!(wait.poll(true), WaitStep::Delay(10));
    assert_eq!(wait.poll(true), WaitStep::Delay(10));
    assert_eq!(wait.poll(false), WaitStep::Ready);
}
