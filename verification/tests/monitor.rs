use validation_archiver::monitor::{
    alert_command, alert_text, warning_text, Look, Monitor, Verdict, SECOND,
};

fn alive(cpu: Option<(u64, u64)>, now: i128) -> Look {
    Look::Alive { cpu, seen: now * SECOND, now: now * SECOND }
}

fn quiet() -> Verdict {
    Verdict::Watch { warn: None, alert: None }
}

#[test]
fn nothing_to_look_at() {
    let mut monitor = Monitor::new(0);
    let before = monitor;
    assert_eq!(monitor.look(Look::Unknown), Verdict::Pause);
    assert_eq!(monitor.look(Look::Gone), Verdict::Stop);
    assert_eq!(monitor, before);
}

#[test]
fn a_busy_process_is_left_alone() {
    let mut monitor = Monitor::new(0);
    for tick in 1..1000u64 {
        assert_eq!(monitor.look(alive(Some((tick, tick)), tick as i128 * 100)), quiet());
    }
}

#[test]
fn one_warning_and_then_alerts() {
    let mut monitor = Monitor::new(0);
    assert_eq!(monitor.look(alive(Some((3, 4)), 10)), quiet());
    assert_eq!(monitor.last_cpu_time, 7);
    assert_eq!(monitor.look(alive(Some((4, 3)), 70)), quiet());
    assert_eq!(
        monitor.look(alive(Some((4, 3)), 71)),
        Verdict::Watch { warn: Some(61), alert: None }
    );
    assert_eq!(monitor.look(alive(None, 500)), quiet());
    assert_eq!(monitor.look(alive(Some((4, 3)), 1810)), quiet());
    assert_eq!(
        monitor.look(alive(Some((4, 3)), 1811)),
        Verdict::Watch { warn: None, alert: Some(1801) }
    );
    monitor.alerted(1812 * SECOND);
    assert_eq!(monitor.look(alive(Some((4, 3)), 1872)), quiet());
    assert_eq!(
        monitor.look(alive(Some((4, 3)), 1873)),
        Verdict::Watch { warn: Some(61), alert: None }
    );
}

#[test]
fn activity_allows_another_warning() {
    let mut monitor = Monitor::new(0);
    assert_eq!(monitor.look(alive(None, 100)), Verdict::Watch { warn: Some(100), alert: None });
    assert!(monitor.warned);
    assert_eq!(monitor.look(alive(Some((1, 0)), 110)), quiet());
    assert!(!monitor.warned);
    assert_eq!(
        monitor.look(alive(Some((1, 0)), 200)),
        Verdict::Watch { warn: Some(90), alert: None }
    );
}

#[test]
fn a_long_gap_warns_and_alerts_at_once() {
    let mut monitor = Monitor::new(0);
    assert_eq!(
        monitor.look(alive(None, 5000)),
        Verdict::Watch { warn: Some(5000), alert: Some(5000) }
    );
}

#[test]
fn what_is_said() {
    assert_eq!(
        warning_text(4321, 61),
        "\n[WARN] Process 4321 has been idle (no CPU usage) for 61s. Kill? [y/N]"
    );
    assert_eq!(alert_text(1801), "Process has been idle for 1801 seconds");
    let line = alert_command();
    assert_eq!(line.program, "mail");
    assert_eq!(line.args, vec!["-s", "Archiver Alert: Stalled Process", "lou@samsung"]);
}

#[test]
fn looks_that_make_no_sense() {
    let monitor = Monitor::new(100 * SECOND);
    assert!(monitor.accepts(Look::Gone));
    assert!(monitor.accepts(alive(None, 100)));
    assert!(!monitor.accepts(alive(None, 99)));
    assert!(monitor.accepts(alive(Some((1, 0)), 99)));
    assert!(!monitor.accepts(alive(Some((u64::MAX, 1)), 200)));
    assert!(!monitor.accepts(Look::Alive {
        cpu: Some((1, 1)),
        seen: 201 * SECOND,
        now: 200 * SECOND,
    }));
    assert!(!monitor.accepts(Look::Alive { cpu: None, seen: i128::MIN, now: 200 * SECOND }));
    assert!(!monitor.accepts(Look::Alive { cpu: None, seen: 0, now: i128::MAX }));
}

#[test]
fn the_waits() {
    assert_eq!(validation_archiver::monitor::LOOK_EVERY, 5);
    assert_eq!(validation_archiver::monitor::WAIT_FOR_PROCESS, 1);
}
