use agent_harness::cron::{
    compute_jitter, listing_text, schedule_matches, truncate_chars, validate_schedule,
    CronNotification, PersistenceMode, ScheduleMode, ScheduledTaskRecord,
};
use agent_harness::scheduler::{MinuteGate, SharedCronScheduler};

const EVERY_MINUTE: &str = "0 * * * * *";
const HOURLY: &str = "0 0 * * * *";
const NOW: i64 = 1_700_000_040; // a whole minute

#[test]
fn validate_schedule_rejects_bad_expressions() {
    assert!(validate_schedule(" 0 * * * * * ").is_ok());
    assert_eq!(validate_schedule(" not cron ").unwrap_err(), "invalid cron expression: not cron");
}

#[test]
fn schedule_matches_by_minute() {
    assert!(schedule_matches(EVERY_MINUTE, NOW + 17));
    assert!(schedule_matches(HOURLY, 3600 * 5 + 30));
    assert!(!schedule_matches(HOURLY, 3600 * 5 + 60));
    // a schedule of every second never fires exactly on the minute's start
    assert!(!schedule_matches("* * * * * *", NOW));
}

#[test]
fn jitter_only_for_round_minutes() {
    assert_eq!(compute_jitter("5 * * * * *"), 0);
    assert_eq!(compute_jitter("*/5 * * * * *"), 0);
    assert_eq!(compute_jitter(""), 0);
    let j = compute_jitter("0 * * * * *");
    assert!((1..=4).contains(&j));
    assert_eq!(j, compute_jitter("  0 * * * * *  "));
    let k = compute_jitter("30 0 * * * *");
    assert!((1..=4).contains(&k));
}

#[test]
fn create_names_tasks_in_hex_and_reports() {
    let mut s = SharedCronScheduler::new(0x1234);
    let change = s.create(" 0 * * * * * ", "check mail", false, true, NOW).unwrap();
    assert_eq!(change.message, "Created task 00001234 (one_shot, durable): cron=0 * * * * *");
    assert!(change.save);
    let change = s.create(EVERY_MINUTE, "stretch", true, false, NOW).unwrap();
    assert!(change.message.starts_with("Created task 00001235 (recurring, session)"));
    assert!(!change.save);
    assert_eq!(s.task_count(), 2);
    assert_eq!(s.create("bad", "x", true, false, NOW).err().unwrap(), "invalid cron expression: bad");
    assert_eq!(s.task_count(), 2);
}

#[test]
fn ids_wrap_around() {
    let mut s = SharedCronScheduler::new(u64::MAX);
    let a = s.create(EVERY_MINUTE, "a", false, false, NOW).unwrap();
    assert!(a.message.starts_with("Created task ffffffffffffffff "));
    let b = s.create(EVERY_MINUTE, "b", false, false, NOW).unwrap();
    assert!(b.message.starts_with("Created task 00000000 "));
}

#[test]
fn delete_reports_found_and_missing() {
    let mut s = SharedCronScheduler::new(1);
    s.create(EVERY_MINUTE, "p", true, true, NOW).unwrap();
    let change = s.delete("00000001");
    assert_eq!(change.message, "Deleted task 00000001");
    assert!(change.save);
    assert_eq!(s.task_count(), 0);
    let change = s.delete("00000001");
    assert_eq!(change.message, "Task 00000001 not found");
    assert!(!change.save);
}

#[test]
fn one_shot_fires_once_and_leaves() {
    let mut s = SharedCronScheduler::new(7);
    s.create(EVERY_MINUTE, "do it", false, false, NOW).unwrap();
    assert!(s.can_check(NOW));
    let report = s.check_tasks(NOW);
    assert_eq!(report.fired, vec!["00000007".to_string()]);
    assert_eq!(report.completed, vec!["00000007".to_string()]);
    assert!(report.expired.is_empty());
    assert!(report.save);
    assert_eq!(s.task_count(), 0);
    let notes = s.drain_notifications();
    assert_eq!(notes.len(), 1);
    assert_eq!(notes[0].describe(), "[Scheduled task 00000007]: do it");
    assert!(s.drain_notifications().is_empty());
}

#[test]
fn recurring_task_remembers_last_fire() {
    let mut s = SharedCronScheduler::new(9);
    s.create(EVERY_MINUTE, "tick", true, false, NOW).unwrap();
    let report = s.check_tasks(NOW + 60);
    assert_eq!(report.fired.len(), 1);
    assert!(report.completed.is_empty());
    assert!(!report.save);
    let tasks = s.list_tasks();
    assert_eq!(tasks.len(), 1);
    assert_eq!(tasks[0].last_fired_at, Some(NOW + 60));
}

#[test]
fn hourly_task_does_not_fire_mid_hour() {
    let mut s = SharedCronScheduler::new(9);
    s.create("0 0 * * * *", "hourly", false, false, NOW).unwrap();
    let report = s.check_tasks(3600 * 472_222 + 120);
    assert!(report.fired.is_empty());
    assert_eq!(s.task_count(), 1);
}

#[test]
fn old_recurring_tasks_expire() {
    let mut s = SharedCronScheduler::new(3);
    s.create(EVERY_MINUTE, "old", true, false, NOW - 8 * 86_400).unwrap();
    s.create(EVERY_MINUTE, "young", true, false, NOW - 7 * 86_400).unwrap();
    let report = s.check_tasks(NOW);
    assert_eq!(report.expired, vec!["00000003".to_string()]);
    assert!(report.save);
    assert_eq!(s.task_count(), 1);
    assert_eq!(s.list_tasks()[0].prompt, "young");
}

#[test]
fn missed_fires_are_detected() {
    let mut s = SharedCronScheduler::new(1);
    s.create(EVERY_MINUTE, "tick", true, false, NOW).unwrap();
    s.check_tasks(NOW);
    assert!(s.detect_missed_tasks(NOW + 30).is_empty());
    let missed = s.detect_missed_tasks(NOW + 3600);
    assert_eq!(missed.len(), 1);
    assert_eq!(missed[0].id, "00000001");
    assert_eq!(missed[0].prompt, "tick");
    assert!(!missed[0].missed_at.is_empty());
}

#[test]
fn listing_is_by_creation_time() {
    let mut s = SharedCronScheduler::new(1);
    s.create(EVERY_MINUTE, "late", true, false, NOW + 10).unwrap();
    s.create(EVERY_MINUTE, "early", true, false, NOW).unwrap();
    s.create(EVERY_MINUTE, "middle", true, false, NOW + 5).unwrap();
    let order: Vec<String> = s.list_tasks().into_iter().map(|t| t.prompt).collect();
    assert_eq!(order, vec!["early", "middle", "late"]);
}

#[test]
fn durable_tasks_round_trip() {
    let mut s = SharedCronScheduler::new(1);
    s.create(EVERY_MINUTE, "keep", true, true, NOW).unwrap();
    s.create(EVERY_MINUTE, "session", true, false, NOW).unwrap();
    let saved = s.durable_tasks();
    assert_eq!(saved.len(), 1);
    let mut fresh = SharedCronScheduler::new(100);
    fresh.create(EVERY_MINUTE, "other", true, false, NOW).unwrap();
    fresh.load_durable(saved.clone());
    assert_eq!(fresh.task_count(), 2);
    let back = fresh.durable_tasks();
    assert_eq!(back.len(), 1);
    assert_eq!(back[0].id, saved[0].id);
    assert_eq!(back[0].prompt, "keep");
}

#[test]
fn test_notification_is_queued() {
    let mut s = SharedCronScheduler::new(1);
    s.enqueue_test_notification();
    let notes = s.drain_notifications();
    assert_eq!(notes[0].describe(), "[Scheduled task test-0000]: This is a test notification.");
    let n = CronNotification::test_notification();
    assert_eq!(n.task_id, "test-0000");
}

#[test]
fn minute_gate_opens_once_per_minute() {
    let mut gate = MinuteGate::new();
    assert!(gate.enter(61));
    assert!(!gate.enter(61));
    assert!(gate.enter(62));
}

#[test]
fn describing_tasks() {
    let task = ScheduledTaskRecord {
        id: "0000abcd".to_string(),
        cron: EVERY_MINUTE.to_string(),
        prompt: "x".repeat(61),
        mode: ScheduleMode::Recurring,
        persistence: PersistenceMode::Session,
        created_at: 0,
        last_fired_at: None,
        jitter_offset_minutes: 0,
    };
    let line = task.describe("1.5");
    assert_eq!(line, format!("0000abcd  0 * * * * *  [recurring/session] (1.5h old): {}...", "x".repeat(60)));
    assert_eq!(listing_text(&Vec::new()), "No scheduled tasks.");
    assert_eq!(listing_text(&vec!["a".to_string(), "b".to_string()]), "a\nb");
    assert_eq!(truncate_chars("héllo", 3), "hél...");
    assert_eq!(truncate_chars("abc", 3), "abc");
    assert!(PersistenceMode::from_durable_flag(true).is_durable());
    assert_eq!(ScheduleMode::from_recurring_flag(false), ScheduleMode::OneShot);
    assert_eq!(ScheduleMode::OneShot.name(), "one_shot");
}
