use reinschrift::present::{format_date, format_metadata, join, toggle_notice, Severity};
use reinschrift::task::{Date, TaskItem};

fn item() -> TaskItem {
    TaskItem {
        title: "Call Anna".to_string(),
        section: "Work".to_string(),
        project: Some("phone".to_string()),
        context: Some("office".to_string()),
        due: Some(Date { year: 2024, month: 1, day: 8 }),
        recurrence: None,
        done: false,
        reference: Some("ticket 12".to_string()),
        key: None,
    }
}

#[test]
fn metadata_lists_all_parts() {
    assert_eq!(format_metadata(&item()), "Work • +phone • @office • Fällig: 2024-01-08 • ↗ ticket 12");
}

#[test]
fn metadata_skips_missing_parts() {
    let mut t = item();
    t.section = String::new();
    t.context = None;
    t.reference = None;
    assert_eq!(format_metadata(&t), "+phone • Fällig: 2024-01-08");
    t.project = None;
    t.due = None;
    assert_eq!(format_metadata(&t), "");
}

#[test]
fn dates_are_zero_padded() {
    assert_eq!(format_date(Date { year: 987, month: 3, day: 5 }), "0987-03-05");
    assert_eq!(format_date(Date { year: 12345, month: 12, day: 31 }), "12345-12-31");
}

#[test]
fn join_puts_separator_between_parts() {
    assert_eq!(join(&vec!["a".to_string(), "b".to_string(), "c".to_string()], ", "), "a, b, c");
    assert_eq!(join(&vec!["a".to_string()], ", "), "a");
    assert_eq!(join(&Vec::new(), ", "), "");
}

#[test]
fn toggle_notices_name_the_task() {
    let n = toggle_notice("Call Anna", true);
    assert_eq!(n.severity, Severity::Info);
    assert_eq!(n.text, "Erledigt: Call Anna");
    assert_eq!(toggle_notice("Call Anna", false).text, "Reaktiviert: Call Anna");
}
