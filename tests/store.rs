use step_tracker::goal::{Goal, GoalSlot};
use step_tracker::order::le_text;
use step_tracker::service::{
    generate_token, get_steps_range, save_goal, save_steps, GoalInput, StepInput,
};
use step_tracker::steps::{StepData, StepLog};
use step_tracker::tokens::TokenRegistry;

fn input(date: &str, steps: i32, is_goal: bool) -> StepInput {
    StepInput { date: date.to_string(), steps, is_goal }
}

fn dates(v: &[StepData]) -> Vec<String> {
    v.iter().map(|r| r.date.clone()).collect()
}

#[test]
fn text_order_is_bytewise() {
    assert!(le_text("2024-01-01", "2024-01-01"));
    assert!(le_text("2024-01-01", "2024-01-02"));
    assert!(!le_text("2024-01-02", "2024-01-01"));
    assert!(le_text("2024", "2024-01-01"));
    assert!(!le_text("2024-01-01", "2024"));
    assert!(le_text("", ""));
    assert!(le_text("", "a"));
    assert!(!le_text("a", ""));
    assert!(le_text("Z", "a"));
    assert!(le_text("z", "é"));
    assert!(!le_text("10-01-2024", "09-01-2024"));
}

#[test]
fn token_twice_gives_two_kept_tokens() {
    let mut tokens = TokenRegistry::new();
    let a = generate_token(&mut tokens);
    let b = generate_token(&mut tokens);
    assert_ne!(a, b);
    assert!(tokens.contains(&a));
    assert!(tokens.contains(&b));
    assert!(!tokens.contains(&"not-a-token".to_string()));
}

#[test]
fn token_has_hyphenated_uuid_form() {
    let mut tokens = TokenRegistry::new();
    let t = tokens.issue();
    assert_eq!(t.len(), 36);
    for (i, c) in t.chars().enumerate() {
        if i == 8 || i == 13 || i == 18 || i == 23 {
            assert_eq!(c, '-');
        } else {
            assert!(c.is_ascii_hexdigit() && !c.is_ascii_uppercase());
        }
    }
    assert_eq!(t.chars().nth(14), Some('4'));
    assert!(matches!(t.chars().nth(19), Some('8' | '9' | 'a' | 'b')));
}

#[test]
fn generated_tokens_are_version_four() {
    let mut tokens = TokenRegistry::new();
    for _ in 0..50 {
        let t = generate_token(&mut tokens);
        assert_eq!(t.len(), 36);
        assert_eq!(t.chars().nth(14), Some('4'));
        assert!(matches!(t.chars().nth(19), Some('8' | '9' | 'a' | 'b')));
        assert!(tokens.contains(&t));
    }
}

#[test]
fn token_text_from_value() {
    let mut tokens = TokenRegistry::new();
    let t = tokens.issue_from(0xa1a2a3a4b1b2c1c2d1d2d3d4d5d6d7d8u128);
    assert_eq!(t, "a1a2a3a4-b1b2-c1c2-d1d2-d3d4d5d6d7d8");
    assert!(tokens.contains(&t));
    let z = tokens.issue_from(0);
    assert_eq!(z, "00000000-0000-0000-0000-000000000000");
    let m = tokens.issue_from(u128::MAX);
    assert_eq!(m, "ffffffff-ffff-ffff-ffff-ffffffffffff");
}

#[test]
fn recording_same_token_twice_keeps_one() {
    let mut tokens = TokenRegistry::new();
    let t = tokens.issue_from(7);
    tokens.record(t.clone());
    assert!(tokens.contains(&t));
    assert_eq!(t, "00000000-0000-0000-0000-000000000007");
}

#[test]
fn step_submission_overwrites_same_date() {
    let mut log = StepLog::new();
    let r1 = save_steps(&mut log, input("2024-01-01", 5000, false));
    let r2 = save_steps(&mut log, input("2024-01-01", 7000, true));
    assert_eq!(r1, "Steps saved or updated");
    assert_eq!(r2, "Steps saved or updated");
    assert_eq!(log.len(), 1);
    let got = get_steps_range(&log, "2024-01-01", "2024-01-01");
    assert_eq!(got.len(), 1);
    assert_eq!(got[0].date, "2024-01-01");
    assert_eq!(got[0].steps, 7000);
    assert!(got[0].is_goal);
}

#[test]
fn range_query_keeps_only_dates_inside() {
    let mut log = StepLog::new();
    save_steps(&mut log, input("2024-01-05", 4000, false));
    save_steps(&mut log, input("2024-02-01", 9000, true));
    save_steps(&mut log, input("2023-12-31", 1000, false));
    let got = get_steps_range(&log, "2024-01-01", "2024-01-31");
    assert_eq!(dates(&got), vec!["2024-01-05".to_string()]);
    assert_eq!(got[0].steps, 4000);
    assert!(!got[0].is_goal);
}

#[test]
fn range_query_includes_both_ends() {
    let mut log = StepLog::new();
    save_steps(&mut log, input("2024-01-01", 1, false));
    save_steps(&mut log, input("2024-01-31", 2, false));
    save_steps(&mut log, input("2024-01-15", 3, false));
    let got = get_steps_range(&log, "2024-01-01", "2024-01-31");
    assert_eq!(
        dates(&got),
        vec!["2024-01-01".to_string(), "2024-01-31".to_string(), "2024-01-15".to_string()]
    );
}

#[test]
fn reversed_range_is_empty() {
    let mut log = StepLog::new();
    save_steps(&mut log, input("2024-01-05", 4000, false));
    save_steps(&mut log, input("2024-01-20", 6000, false));
    let got = get_steps_range(&log, "2024-02-01", "2024-01-01");
    assert!(got.is_empty());
}

#[test]
fn range_on_empty_log_is_empty() {
    let log = StepLog::new();
    assert!(get_steps_range(&log, "0000", "9999").is_empty());
}

#[test]
fn range_uses_text_order_not_calendar() {
    let mut log = StepLog::new();
    save_steps(&mut log, input("2-1-2024", 10, false));
    save_steps(&mut log, input("10-1-2024", 20, false));
    let got = get_steps_range(&log, "1-1-2024", "3-1-2024");
    assert_eq!(dates(&got), vec!["2-1-2024".to_string(), "10-1-2024".to_string()]);
}

#[test]
fn distinct_dates_are_all_kept() {
    let mut log = StepLog::new();
    let days = ["2024-03-04", "2024-03-01", "2024-03-03", "2024-03-02"];
    for (k, d) in days.iter().enumerate() {
        save_steps(&mut log, input(d, 100 * (k as i32 + 1), k % 2 == 0));
    }
    assert_eq!(log.len(), 4);
    let got = get_steps_range(&log, "2024-03-01", "2024-03-31");
    assert_eq!(got.len(), 4);
    for (k, d) in days.iter().enumerate() {
        let one = get_steps_range(&log, d, d);
        assert_eq!(one.len(), 1);
        assert_eq!(one[0].steps, 100 * (k as i32 + 1));
    }
}

#[test]
fn many_distinct_dates_lose_no_update() {
    let log = std::sync::Mutex::new(StepLog::new());
    save_steps(&mut log.lock().unwrap(), input("2023-12-31", 42, true));
    let mut days: Vec<String> = (1..=28).map(|d| format!("2024-02-{:02}", d)).collect();
    days.reverse();
    days.swap(3, 17);
    for (k, d) in days.iter().enumerate() {
        let mut guard = log.lock().unwrap();
        save_steps(&mut guard, input(d, 1000 + k as i32, k % 3 == 0));
    }
    let log = log.into_inner().unwrap();
    assert_eq!(log.len(), 29);
    assert_eq!(get_steps_range(&log, "2024-02-01", "2024-02-28").len(), 28);
    for (k, d) in days.iter().enumerate() {
        let one = get_steps_range(&log, d, d);
        assert_eq!(one.len(), 1);
        assert_eq!(one[0].steps, 1000 + k as i32);
        assert_eq!(one[0].is_goal, k % 3 == 0);
    }
    let old = get_steps_range(&log, "2023-12-31", "2023-12-31");
    assert_eq!(old.len(), 1);
    assert_eq!(old[0].steps, 42);
}

#[test]
fn extreme_step_counts_are_stored() {
    let mut log = StepLog::new();
    log.save(StepData::new("a".to_string(), i32::MIN, false));
    log.save(StepData::new("b".to_string(), i32::MAX, true));
    let got = get_steps_range(&log, "a", "b");
    assert_eq!(got[0].steps, i32::MIN);
    assert_eq!(got[1].steps, i32::MAX);
}

#[test]
fn goal_last_write_wins() {
    let mut slot = GoalSlot::new();
    assert_eq!(slot.current(), None);
    assert_eq!(save_goal(&mut slot, GoalInput { goal: 10000 }), "Goal saved");
    assert_eq!(slot.current(), Some(Goal { goal: 10000 }));
    assert_eq!(save_goal(&mut slot, GoalInput { goal: 8000 }), "Goal saved");
    assert_eq!(slot.current(), Some(Goal { goal: 8000 }));
}
