use illef_workflow::schedule::{get_next_run, is_due, normalize_cron, MAX_EVAL_EPOCH_SECS};
use illef_workflow::scheduler::compute_next_wake;
use illef_workflow::types::{AppConfig, NotificationConfig, WorkflowConfig};

fn config_with(workflows: Vec<WorkflowConfig>) -> AppConfig {
    AppConfig {
        workflows,
        notifications: NotificationConfig::default(),
    }
}

fn wf(name: &str, cron: &str) -> WorkflowConfig {
    WorkflowConfig {
        name: name.to_string(),
        cron: cron.to_string(),
        script: format!("{}.sh", name),
        message_script: None,
    }
}

#[test]
fn normalize_cron_prefixes_seconds_on_five_fields() {
    assert_eq!(normalize_cron("*/5 * * * *"), "0 */5 * * * *");
    assert_eq!(normalize_cron("30 10 1 1 *"), "0 30 10 1 1 *");
}

#[test]
fn normalize_cron_keeps_six_fields() {
    assert_eq!(normalize_cron("0 */5 * * * *"), "0 */5 * * * *");
    assert_eq!(normalize_cron("* * * * * *"), "* * * * * *");
}

#[test]
fn normalize_cron_keeps_other_shapes() {
    assert_eq!(normalize_cron(""), "");
    assert_eq!(normalize_cron("a b c"), "a b c");
    assert_eq!(normalize_cron("  */5   * * *   *  "), "0   */5   * * *   *  ");
}

#[test]
fn five_field_evaluates_like_six_field() {
    // The five-field form and its six-field form with a literal 0 seconds
    // field give the same next occurrence and the same due answer.
    for now in [0i64, 37_795, 37_800, 1_000_000] {
        assert_eq!(
            get_next_run("*/5 * * * *", now),
            get_next_run("0 */5 * * * *", now)
        );
        assert_eq!(is_due("*/5 * * * *", now), is_due("0 */5 * * * *", now));
    }
}

#[test]
fn get_next_run_exact_occurrence() {
    // Jan 1, 10:30:00 of every year; the epoch is Jan 1 1970 00:00:00 UTC,
    // so the next occurrence after it is 10h30m in: 37800 seconds.
    assert_eq!(get_next_run("30 10 1 1 *", 0), Some(37_800));
}

#[test]
fn malformed_expression_yields_nothing_and_is_never_due() {
    assert_eq!(get_next_run("not a cron", 0), None);
    assert!(!is_due("not a cron", 12_345));
    assert_eq!(get_next_run("61 * * * *", 0), None);
}

#[test]
fn is_due_inside_the_window() {
    // The occurrence at 37800 lies 3 seconds before now: inside the 5s
    // window, so the expression is due.
    assert!(is_due("30 10 1 1 *", 37_803));
}

#[test]
fn is_due_outside_the_window() {
    // The occurrence at 37800 lies 10 seconds before now: the window has
    // passed and the next occurrence is a year away.
    assert!(!is_due("30 10 1 1 *", 37_810));
}

#[test]
fn is_due_exactly_at_the_occurrence() {
    assert!(is_due("30 10 1 1 *", 37_800));
}

#[test]
fn compute_next_wake_sleeps_to_the_earliest_occurrence() {
    let config = config_with(vec![wf("yearly", "30 10 1 1 *"), wf("often", "*/5 * * * *")]);
    // At the epoch the five-minutely schedule fires next, at t=300.
    assert_eq!(compute_next_wake(&config, 0), Some(300_000));
}

#[test]
fn compute_next_wake_without_valid_schedules() {
    assert_eq!(compute_next_wake(&config_with(vec![]), 0), None);
    let config = config_with(vec![wf("broken", "nonsense")]);
    assert_eq!(compute_next_wake(&config, 0), None);
}

#[test]
fn occurrence_exactly_at_the_window_edge_is_not_due() {
    // The window starts strictly after now - 5: an occurrence exactly 5
    // seconds old has been handled by an earlier iteration.
    assert!(!is_due("30 10 1 1 *", 37_805));
}

#[test]
fn evaluation_just_below_the_upper_time_bound_yields_nothing() {
    // A schedule's year set is finite, so just below the last
    // representable instant no occurrence remains -- and the evaluator
    // returns rather than failing.
    assert_eq!(get_next_run("* * * * * *", MAX_EVAL_EPOCH_SECS - 1), None);
    assert!(!is_due("* * * * * *", MAX_EVAL_EPOCH_SECS - 1));
}
