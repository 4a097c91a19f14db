use agent_harness::background::{
    join_path, preview, truncate_chars, truncate_chars_owned, BackgroundNotification,
    BackgroundTaskStatus, CheckAnswer, CommandOutcome, SharedBackgroundManager,
};

const SEC: i128 = 1_000_000_000;

#[test]
fn output_is_trimmed_and_defaulted() {
    let done = CommandOutcome::finished("  hello \n");
    assert_eq!(done.status, BackgroundTaskStatus::Completed);
    assert_eq!(done.output, "hello");
    assert_eq!(CommandOutcome::finished(" \n\t ").output, "(no output)");
    let long = "y".repeat(50_010);
    assert_eq!(CommandOutcome::finished(&long).output.chars().count(), 50_000);
    assert_eq!(CommandOutcome::timeout().output, "Error: Timeout (300s)");
    let err = CommandOutcome::error("Error: boom".to_string());
    assert_eq!(err.status, BackgroundTaskStatus::Error);
}

#[test]
fn previews_collapse_white_space() {
    assert_eq!(preview("  a \n\n b\tc  "), "a b c");
    assert_eq!(preview(&"z ".repeat(400)).chars().count(), 500);
    assert_eq!(truncate_chars("abcdef", 2), "ab");
    assert_eq!(truncate_chars_owned("abc".to_string(), 5), "abc");
}

#[test]
fn paths_join_like_path_join() {
    assert_eq!(join_path("", "a.log"), "a.log");
    assert_eq!(join_path("runs/", "a.log"), "runs/a.log");
    assert_eq!(join_path("runs", "a.log"), "runs/a.log");
}

#[test]
fn run_then_finish_then_check() {
    let mut m = SharedBackgroundManager::new(0xabc);
    let (record, message) = m.run("sleep 1 && echo done", 5 * SEC, ".tasks");
    assert_eq!(record.id, "00000abc");
    assert_eq!(record.status, BackgroundTaskStatus::Running);
    assert_eq!(record.output_file, ".tasks/00000abc.log");
    assert_eq!(message, "Background task 00000abc started: sleep 1 && echo done (output_file=.tasks/00000abc.log)");

    match m.check(None).unwrap() {
        CheckAnswer::Listing(text) => assert_eq!(text, "00000abc: [running] sleep 1 && echo done -> (running)"),
        _ => panic!("expected a listing"),
    }

    let finished = m.finish("00000abc", "sleep 1 && echo done", CommandOutcome::finished("done\n"), 7 * SEC, ".tasks");
    assert_eq!(finished.started_at, 5 * SEC);
    assert_eq!(finished.finished_at, Some(7 * SEC));
    assert_eq!(finished.result_preview, "done");

    match m.check(Some("00000abc")).unwrap() {
        CheckAnswer::Record(r) => assert_eq!(r.status, BackgroundTaskStatus::Completed),
        _ => panic!("expected a record"),
    }
    assert_eq!(m.check(Some("nope")).err().unwrap(), "Unknown task nope");

    let message = m.background_results_message(8 * SEC).unwrap();
    assert_eq!(
        message,
        "<background-results>\n[bg:00000abc] completed: done (command=sleep 1 && echo done, output_file=.tasks/00000abc.log)\n</background-results>"
    );
    assert!(m.background_results_message(8 * SEC).is_none());
}

#[test]
fn empty_manager_lists_nothing() {
    let m = SharedBackgroundManager::new(1);
    match m.check(None).unwrap() {
        CheckAnswer::Listing(text) => assert_eq!(text, "No background tasks."),
        _ => panic!("expected a listing"),
    }
}

#[test]
fn stalled_after_forty_five_whole_seconds() {
    let mut m = SharedBackgroundManager::new(1);
    m.run("sleep 100", 0, "");
    assert!(m.detect_stalled(45 * SEC + SEC - 1).is_empty());
    assert_eq!(m.detect_stalled(46 * SEC), vec!["00000001".to_string()]);
    assert!(m.detect_stalled(-SEC).is_empty());
    let message = m.background_results_message(100 * SEC).unwrap();
    assert_eq!(message, "<background-results>\nstalled_tasks=00000001\n</background-results>");
}

#[test]
fn listing_is_by_start_time() {
    let mut m = SharedBackgroundManager::new(1);
    m.run("b", 2 * SEC, "");
    m.run("a", SEC, "");
    match m.check(None).unwrap() {
        CheckAnswer::Listing(text) => assert_eq!(text, "00000002: [running] a -> (running)\n00000001: [running] b -> (running)"),
        _ => panic!("expected a listing"),
    }
}

#[test]
fn notification_text() {
    let n = BackgroundNotification {
        task_id: "1".to_string(),
        status: BackgroundTaskStatus::Timeout,
        command: "c".to_string(),
        preview: "p".to_string(),
        output_file: "f".to_string(),
    };
    assert_eq!(n.describe(), "[bg:1] timeout: p (command=c, output_file=f)");
}
