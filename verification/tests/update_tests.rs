use alas_launcher::lines::LineReconstructor;
use alas_launcher::update::{classify_line, render_bar, run_update, OutputEvent, UpdateMonitor, UpdateOutcome};

#[test]
fn section_marker_lines_report_phase_changes() {
    assert_eq!(
        classify_line("===== Step 1 ====="),
        Some("Updating ALAS: Step 1".to_string())
    );
    assert_eq!(classify_line("===== Done ====="), Some("Updating ALAS: Done".to_string()));
}

#[test]
fn transfer_lines_report_progress_with_bar() {
    let report = classify_line("Receiving objects: 42% (420/1000)").unwrap();
    let bar: String = "=".repeat(21) + &" ".repeat(29);
    assert_eq!(report, format!("Updating ALAS: Receiving objects: 42% (420/1000)\n[{}]", bar));
}

#[test]
fn transfer_lines_without_percentage_get_empty_bar() {
    let report = classify_line("Counting objects: done").unwrap();
    let bar: String = " ".repeat(50);
    assert_eq!(report, format!("Updating ALAS: Counting objects: done\n[{}]", bar));
}

#[test]
fn plain_lines_report_nothing() {
    assert_eq!(classify_line("From https://example.invalid/repo"), None);
    assert_eq!(classify_line("HEAD is now at 0123abc"), None);
}

#[test]
fn bar_is_half_the_percentage_rounded_up() {
    assert_eq!(render_bar(0), " ".repeat(50));
    assert_eq!(render_bar(1), format!("={}", " ".repeat(49)));
    assert_eq!(render_bar(42), format!("{}{}", "=".repeat(21), " ".repeat(29)));
    assert_eq!(render_bar(100), "=".repeat(50));
}

#[test]
fn monitor_remembers_last_error_line() {
    let mut m = UpdateMonitor::new();
    m.process_line(false, "fine");
    m.process_line(true, "first error");
    m.process_line(false, "fine again");
    m.process_line(true, "second error");
    match m.conclude(false) {
        UpdateOutcome::Failure(msg) => assert_eq!(msg, "second error"),
        UpdateOutcome::Success => panic!("expected failure"),
    }
}

#[test]
fn failure_without_error_lines_gets_generic_message() {
    let m = UpdateMonitor::new();
    match m.conclude(false) {
        UpdateOutcome::Failure(msg) => assert_eq!(msg, "Failed to update repository"),
        UpdateOutcome::Success => panic!("expected failure"),
    }
}

#[test]
fn successful_exit_wins_even_after_error_lines() {
    let mut m = UpdateMonitor::new();
    m.process_line(true, "warning: something");
    assert!(matches!(m.conclude(true), UpdateOutcome::Success));
}

fn event(from_err: bool, text: &str) -> OutputEvent {
    OutputEvent { from_err, text: text.to_string() }
}

#[test]
fn update_scenario_reports_in_order_and_succeeds() {
    // The update subprocess prints a section marker, transfer progress and a
    // closing marker, then exits successfully.
    let mut rec = LineReconstructor::new();
    let mut lines: Vec<String> = Vec::new();
    lines.extend(rec.push_chunk(b"===== Step 1 =====\n"));
    lines.extend(rec.push_chunk(b"Receiving objects: 42% (420/1000)\n"));
    lines.extend(rec.push_chunk(b"===== Done =====\n"));
    if let Some(last) = rec.finish() {
        lines.push(last);
    }
    let events: Vec<OutputEvent> = lines.iter().map(|l| event(false, l)).collect();
    let (reports, outcome) = run_update(&events, true);
    let bar: String = "=".repeat(21) + &" ".repeat(29);
    assert_eq!(
        reports,
        vec![
            "Updating ALAS: Step 1".to_string(),
            format!("Updating ALAS: Receiving objects: 42% (420/1000)\n[{}]", bar),
            "Updating ALAS: Done".to_string(),
        ]
    );
    assert!(matches!(outcome, UpdateOutcome::Success));
}

#[test]
fn update_run_observes_every_line_of_both_streams() {
    let events = vec![
        event(false, "out one"),
        event(true, "err one"),
        event(false, "===== Phase ====="),
        event(true, "err two"),
    ];
    let (reports, outcome) = run_update(&events, false);
    assert_eq!(reports, vec!["Updating ALAS: Phase".to_string()]);
    match outcome {
        UpdateOutcome::Failure(msg) => assert_eq!(msg, "err two"),
        UpdateOutcome::Success => panic!("expected failure"),
    }
}
