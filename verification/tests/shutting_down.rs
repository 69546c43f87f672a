use dir_mirror::shutdown::{
    LoopControl, Order, Phase, ShutdownCoordinator, ShutdownFlag, Signal, GRACE_PERIOD_SECS,
    POLL_INTERVAL_SECS, RECONCILE_INTERVAL_SECS, SCAN_INTERVAL_SECS,
};

#[test]
fn a_new_flag_is_not_raised() {
    let flag = ShutdownFlag::new();
    assert!(!flag.is_raised());
    assert!(!ShutdownFlag::observed(false).is_raised());
    assert!(ShutdownFlag::observed(true).is_raised());
}

#[test]
fn a_raised_flag_stays_raised() {
    let mut flag = ShutdownFlag::new();
    flag.raise();
    assert!(flag.is_raised());
    flag.raise();
    assert!(flag.is_raised());
}

#[test]
fn a_loop_sleeps_for_its_interval_until_the_flag_is_raised() {
    let mut flag = ShutdownFlag::new();
    assert_eq!(flag.end_of_round(3), LoopControl::SleepSecs(3));
    assert_eq!(flag.end_of_round(0), LoopControl::SleepSecs(0));
    flag.raise();
    assert_eq!(flag.end_of_round(3), LoopControl::Stop);
}

#[test]
fn the_intervals() {
    assert_eq!(SCAN_INTERVAL_SECS, 5);
    assert_eq!(POLL_INTERVAL_SECS, 2);
    assert_eq!(RECONCILE_INTERVAL_SECS, 1);
    assert_eq!(GRACE_PERIOD_SECS, 5);
    assert!(RECONCILE_INTERVAL_SECS < SCAN_INTERVAL_SECS);
}

#[test]
fn an_interrupt_raises_the_flag_and_grants_the_grace_period() {
    let mut coordinator = ShutdownCoordinator::new();
    assert_eq!(coordinator.current_phase(), Phase::Running);
    assert!(!coordinator.flag().is_raised());
    assert_eq!(coordinator.signal(Signal::Interrupt), Order::Grace(5));
    assert_eq!(coordinator.current_phase(), Phase::Draining);
    assert!(coordinator.flag().is_raised());
    assert_eq!(coordinator.signal(Signal::GraceElapsed), Order::Exit);
    assert_eq!(coordinator.current_phase(), Phase::Stopped);
    assert!(coordinator.flag().is_raised());
}

#[test]
fn a_second_interrupt_changes_nothing() {
    let mut coordinator = ShutdownCoordinator::new();
    coordinator.signal(Signal::Interrupt);
    assert_eq!(coordinator.signal(Signal::Interrupt), Order::Wait);
    assert_eq!(coordinator.current_phase(), Phase::Draining);
    assert!(coordinator.flag().is_raised());
}

#[test]
fn a_running_process_ignores_the_end_of_a_grace_period() {
    let mut coordinator = ShutdownCoordinator::new();
    assert_eq!(coordinator.signal(Signal::GraceElapsed), Order::Wait);
    assert_eq!(coordinator.current_phase(), Phase::Running);
    assert!(!coordinator.flag().is_raised());
}

#[test]
fn a_stopped_process_stays_stopped() {
    let mut coordinator = ShutdownCoordinator::new();
    coordinator.signal(Signal::Interrupt);
    coordinator.signal(Signal::GraceElapsed);
    for signal in [Signal::Interrupt, Signal::GraceElapsed] {
        assert_eq!(coordinator.signal(signal), Order::Exit);
        assert_eq!(coordinator.current_phase(), Phase::Stopped);
        assert!(coordinator.flag().is_raised());
    }
}
