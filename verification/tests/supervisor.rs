use staff_admin::sync::{Emission, Phase, ShutdownToken, Supervisor, SyncOutcome, TickDirective};

#[test]
fn shutdown_before_first_tick_invokes_nothing() {
    let mut sup = Supervisor::new();
    sup.on_shutdown();
    assert!(sup.is_stopped());
    // The loop has exited; a stray tick directs no invocation.
    let d = sup.on_timer(true);
    assert_eq!(d, TickDirective::Skip);
}

#[test]
fn ineligible_tick_skips_without_event() {
    let mut sup = Supervisor::new();
    let d = sup.on_timer(false);
    assert_eq!(d, TickDirective::Skip);
    assert_eq!(sup.phase(), Phase::Waiting);
}

#[test]
fn zero_changes_emits_nothing() {
    let mut sup = Supervisor::new();
    let d = sup.on_timer(true);
    assert_eq!(d, TickDirective::Invoke);
    let e = sup.on_outcome(SyncOutcome::Success { changes_count: 0 });
    assert!(e.is_none());
    assert_eq!(sup.phase(), Phase::Waiting);
}

#[test]
fn five_changes_emit_one_completed_event() {
    let mut sup = Supervisor::new();
    assert_eq!(sup.on_timer(true), TickDirective::Invoke);
    let e = sup.on_outcome(SyncOutcome::Success { changes_count: 5 });
    match e {
        Some(Emission::Completed { changes }) => assert_eq!(changes, 5),
        other => panic!("expected a completed event, got {:?}", other),
    }
}

#[test]
fn failure_emits_error_and_loop_recovers() {
    let mut sup = Supervisor::new();
    assert_eq!(sup.on_timer(true), TickDirective::Invoke);
    let e = sup.on_outcome(SyncOutcome::Failure { message: "network unreachable".to_string() });
    match e {
        Some(Emission::SyncError { message }) => assert_eq!(message, "network unreachable"),
        other => panic!("expected an error event, got {:?}", other),
    }
    // A later successful tick still fires normally.
    assert_eq!(sup.on_timer(true), TickDirective::Invoke);
    let e2 = sup.on_outcome(SyncOutcome::Success { changes_count: 2 });
    match e2 {
        Some(Emission::Completed { changes }) => assert_eq!(changes, 2),
        other => panic!("expected a completed event, got {:?}", other),
    }
}

#[test]
fn firing_shutdown_twice_is_a_noop() {
    let mut token = ShutdownToken::new();
    assert!(!token.is_fired());
    assert!(token.fire());
    assert!(token.is_fired());
    // The second firing reports no effect and must not panic.
    assert!(!token.fire());
    assert!(token.is_fired());

    let mut sup = Supervisor::new();
    sup.on_shutdown();
    sup.on_shutdown();
    assert!(sup.is_stopped());
}

#[test]
fn periodic_scenario_counts_events_then_stops() {
    // Eligible on every tick, the action always reports one change: each
    // tick yields one completed event; after shutdown, none.
    let mut sup = Supervisor::new();
    let mut completed: u32 = 0;
    for _ in 0..2 {
        if sup.on_timer(true) == TickDirective::Invoke {
            if let Some(Emission::Completed { .. }) =
                sup.on_outcome(SyncOutcome::Success { changes_count: 1 })
            {
                completed += 1;
            }
        }
    }
    assert!(completed >= 2);

    sup.on_shutdown();
    for _ in 0..3 {
        let d = sup.on_timer(true);
        assert_eq!(d, TickDirective::Skip);
    }
    assert_eq!(completed, 2);
}

#[test]
fn timed_scenario_emits_while_running_and_not_after_shutdown() {
    // Test-scaled period of 100ms: within 250ms at least two completed
    // events arrive; after the shutdown fires, a further 300ms of timer
    // ticks produce none.
    let rt = tokio::runtime::Builder::new_current_thread()
        .enable_time()
        .build()
        .expect("runtime");
    rt.block_on(async {
        let mut sup = Supervisor::new();
        let mut token = ShutdownToken::new();
        let mut completed: u32 = 0;
        let mut interval = tokio::time::interval(tokio::time::Duration::from_millis(100));
        let start = std::time::Instant::now();
        while start.elapsed() < std::time::Duration::from_millis(250) {
            interval.tick().await;
            if sup.on_timer(true) == TickDirective::Invoke {
                if let Some(Emission::Completed { .. }) =
                    sup.on_outcome(SyncOutcome::Success { changes_count: 1 })
                {
                    completed += 1;
                }
            }
        }
        assert!(completed >= 2, "expected at least two events, saw {}", completed);

        assert!(token.fire());
        sup.on_shutdown();
        let frozen = completed;
        let stop_time = std::time::Instant::now();
        while stop_time.elapsed() < std::time::Duration::from_millis(300) {
            interval.tick().await;
            if sup.on_timer(true) == TickDirective::Invoke {
                completed += 1;
            }
        }
        assert_eq!(completed, frozen);
    });
}

#[test]
fn completed_payload_carries_count_and_timestamp() {
    let payload = staff_admin::sync::completed_payload(7);
    assert!(payload.success);
    assert_eq!(payload.changes, 7);
    assert!(!payload.timestamp.is_empty());
}

#[test]
fn outcome_emission_classifies_outcomes() {
    assert!(staff_admin::sync::outcome_emission(SyncOutcome::Success { changes_count: 0 })
        .is_none());
    match staff_admin::sync::outcome_emission(SyncOutcome::Success { changes_count: 3 }) {
        Some(Emission::Completed { changes }) => assert_eq!(changes, 3),
        other => panic!("expected a completed event, got {:?}", other),
    }
    match staff_admin::sync::outcome_emission(SyncOutcome::Failure { message: "x".to_string() }) {
        Some(Emission::SyncError { message }) => assert_eq!(message, "x"),
        other => panic!("expected an error event, got {:?}", other),
    }
}
