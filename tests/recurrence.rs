use reinschrift::recurrence::{next_due_date, plan_toggle};
use reinschrift::task::{Date, Recurrence, TaskItem, TaskKey};

fn date(year: u16, month: u8, day: u8) -> Date {
    Date { year, month, day }
}

fn recurring(due: Option<Date>, rule: Option<Recurrence>) -> TaskItem {
    TaskItem {
        title: "water plants".to_string(),
        section: "Home".to_string(),
        project: Some("garden".to_string()),
        context: None,
        due,
        recurrence: rule,
        done: false,
        reference: Some("note".to_string()),
        key: Some(TaskKey { position: 4 }),
    }
}

#[test]
fn completing_weekly_task_yields_one_follow_up() {
    let item = recurring(Some(date(2024, 1, 1)), Some(Recurrence::Weekly));
    let out = plan_toggle(&item, true, date(2024, 1, 1));
    assert!(out.updated.done);
    assert_eq!(out.updated.due, Some(date(2024, 1, 1)));
    let next = out.follow_up.expect("a follow-up");
    assert!(!next.done);
    assert_eq!(next.due, Some(date(2024, 1, 8)));
    assert_eq!(next.key, None);
    assert_eq!(next.title, "water plants");
    assert_eq!(next.recurrence, Some(Recurrence::Weekly));
}

#[test]
fn completing_early_keeps_the_due_date() {
    let item = recurring(Some(date(2024, 1, 1)), Some(Recurrence::Weekly));
    let out = plan_toggle(&item, true, date(2023, 12, 20));
    assert_eq!(out.updated.due, Some(date(2024, 1, 1)));
    assert_eq!(out.follow_up.unwrap().due, Some(date(2024, 1, 8)));
}

#[test]
fn overdue_completion_snaps_to_today() {
    let item = recurring(Some(date(2024, 1, 1)), Some(Recurrence::Weekly));
    let out = plan_toggle(&item, true, date(2024, 1, 10));
    assert_eq!(out.updated.due, Some(date(2024, 1, 10)));
    assert_eq!(out.follow_up.unwrap().due, Some(date(2024, 1, 17)));
}

#[test]
fn undated_recurring_task_counts_from_today() {
    let item = recurring(None, Some(Recurrence::Daily));
    let out = plan_toggle(&item, true, date(2024, 2, 28));
    assert_eq!(out.updated.due, None);
    assert_eq!(out.follow_up.unwrap().due, Some(date(2024, 2, 29)));
}

#[test]
fn plain_task_and_reopening_yield_no_follow_up() {
    let item = recurring(Some(date(2024, 1, 1)), None);
    let out = plan_toggle(&item, true, date(2024, 1, 5));
    assert!(out.updated.done);
    assert_eq!(out.updated.due, Some(date(2024, 1, 1)));
    assert!(out.follow_up.is_none());
    let mut done = recurring(Some(date(2024, 1, 1)), Some(Recurrence::Weekly));
    done.done = true;
    let out = plan_toggle(&done, false, date(2024, 1, 5));
    assert!(!out.updated.done);
    assert!(out.follow_up.is_none());
    let out = plan_toggle(&done, true, date(2024, 1, 5));
    assert!(out.follow_up.is_none());
}

#[test]
fn next_due_dates_cross_months_and_years() {
    assert_eq!(next_due_date(date(2023, 12, 31), Recurrence::Daily), date(2024, 1, 1));
    assert_eq!(next_due_date(date(2023, 12, 28), Recurrence::Weekly), date(2024, 1, 4));
    assert_eq!(next_due_date(date(2024, 1, 31), Recurrence::Monthly), date(2024, 2, 29));
    assert_eq!(next_due_date(date(2023, 1, 31), Recurrence::Monthly), date(2023, 2, 28));
    assert_eq!(next_due_date(date(2024, 12, 15), Recurrence::Monthly), date(2025, 1, 15));
    assert_eq!(next_due_date(date(2024, 2, 28), Recurrence::Daily), date(2024, 2, 29));
}

#[test]
fn calendar_validity() {
    assert_eq!(Date::from_ymd(2024, 2, 29), Some(date(2024, 2, 29)));
    assert_eq!(Date::from_ymd(2023, 2, 29), None);
    assert_eq!(Date::from_ymd(2000, 2, 29), Some(date(2000, 2, 29)));
    assert_eq!(Date::from_ymd(1900, 2, 29), None);
    assert_eq!(Date::from_ymd(2024, 13, 1), None);
    assert_eq!(Date::from_ymd(2024, 4, 31), None);
    assert!(date(2023, 12, 31).is_before(&date(2024, 1, 1)));
    assert!(!date(2024, 1, 1).is_before(&date(2024, 1, 1)));
}
