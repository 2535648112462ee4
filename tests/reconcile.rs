use reinschrift::reconcile::{reconcile, Entry, Heading, Prior, Scroll, SortMode, ViewCommand, ViewState};
use reinschrift::task::{Date, TaskItem};

fn task(title: &str, section: &str, project: Option<&str>, context: Option<&str>) -> TaskItem {
    TaskItem {
        title: title.to_string(),
        section: section.to_string(),
        project: project.map(|s| s.to_string()),
        context: context.map(|s| s.to_string()),
        due: None,
        recurrence: None,
        done: false,
        reference: None,
        key: None,
    }
}

fn date(year: u16, month: u8, day: u8) -> Date {
    Date { year, month, day }
}

fn view(sort: SortMode) -> ViewState {
    ViewState { sort, search: String::new(), show_done: false, due_only: false }
}

fn no_prior() -> Prior {
    Prior { selected: None, scroll: 0 }
}

fn tasks_of(entries: &[Entry]) -> Vec<usize> {
    entries.iter().map(|e| e.task).collect()
}

fn headed(entries: &[Entry]) -> Vec<bool> {
    entries.iter().map(|e| e.heading.is_some()).collect()
}

#[test]
fn project_mode_sorts_case_insensitively_with_no_project_last() {
    let snapshot = vec![
        task("c", "s", None, None),
        task("b", "s", Some("work"), None),
        task("a", "s", Some("Home"), None),
        task("d", "s", Some("Work"), None),
    ];
    let r = reconcile(&snapshot, &view(SortMode::Project), date(2024, 1, 1), &no_prior());
    // "Home" < "work" == "Work"; the tie on the project goes to the title.
    assert_eq!(tasks_of(&r.entries), vec![2, 1, 3, 0]);
}

#[test]
fn headings_open_each_run_of_a_label() {
    let snapshot = vec![
        task("a", "s", Some("x"), None),
        task("b", "s", Some("x"), None),
        task("c", "s", Some("y"), None),
        task("d", "s", None, None),
    ];
    let r = reconcile(&snapshot, &view(SortMode::Project), date(2024, 1, 1), &no_prior());
    assert_eq!(tasks_of(&r.entries), vec![0, 1, 2, 3]);
    assert_eq!(headed(&r.entries), vec![true, false, true, true]);
    assert!(r.entries.iter().all(|e| e.heading.is_none() || e.heading == Some(Heading::Group)));
}

#[test]
fn ties_break_by_section_then_title_then_context() {
    let snapshot = vec![
        task("b", "s2", Some("p"), None),
        task("b", "s1", Some("p"), Some("z")),
        task("b", "s1", Some("p"), Some("a")),
        task("a", "s2", Some("p"), None),
    ];
    let r = reconcile(&snapshot, &view(SortMode::Project), date(2024, 1, 1), &no_prior());
    assert_eq!(tasks_of(&r.entries), vec![2, 1, 3, 0]);
}

#[test]
fn context_mode_groups_by_context() {
    let snapshot = vec![
        task("a", "s", Some("p"), None),
        task("b", "s", None, Some("office")),
        task("c", "s", None, Some("home")),
    ];
    let r = reconcile(&snapshot, &view(SortMode::Context), date(2024, 1, 1), &no_prior());
    assert_eq!(tasks_of(&r.entries), vec![2, 1, 0]);
    assert_eq!(headed(&r.entries), vec![true, true, true]);
}

#[test]
fn date_mode_puts_undated_last_and_has_no_headings() {
    let mut a = task("a", "s", Some("p"), None);
    a.due = Some(date(2024, 3, 1));
    let b = task("b", "s", Some("p"), None);
    let mut c = task("c", "s", Some("q"), None);
    c.due = Some(date(2024, 2, 1));
    let snapshot = vec![a, b, c];
    let r = reconcile(&snapshot, &view(SortMode::Date), date(2024, 1, 1), &no_prior());
    assert_eq!(tasks_of(&r.entries), vec![2, 0, 1]);
    assert_eq!(headed(&r.entries), vec![false, false, false]);
}

#[test]
fn done_tasks_hidden_unless_shown() {
    let mut a = task("a", "s", None, None);
    a.done = true;
    let snapshot = vec![a, task("b", "s", None, None)];
    let r = reconcile(&snapshot, &view(SortMode::Project), date(2024, 1, 1), &no_prior());
    assert_eq!(tasks_of(&r.entries), vec![1]);
    let mut v = view(SortMode::Project);
    v.show_done = true;
    let r = reconcile(&snapshot, &v, date(2024, 1, 1), &no_prior());
    assert_eq!(tasks_of(&r.entries), vec![0, 1]);
}

#[test]
fn due_filter_keeps_tasks_due_today_or_earlier() {
    let mut a = task("a", "s", None, None);
    a.due = Some(date(2024, 1, 1));
    let mut b = task("b", "s", None, None);
    b.due = Some(date(2024, 1, 2));
    let c = task("c", "s", None, None);
    let mut d = task("d", "s", None, None);
    d.due = Some(date(2023, 12, 31));
    let snapshot = vec![a, b, c, d];
    let mut v = view(SortMode::Project);
    v.due_only = true;
    let r = reconcile(&snapshot, &v, date(2024, 1, 1), &no_prior());
    assert_eq!(tasks_of(&r.entries), vec![0, 3]);
}

#[test]
fn search_fills_three_buckets_each_once() {
    let mut done_hit = task("Buy milk", "s", None, None);
    done_hit.done = true;
    let mut later_hit = task("milk the cow", "s", None, None);
    later_hit.due = Some(date(2024, 5, 1));
    let mut today_hit = task("MILK run", "s", None, None);
    today_hit.due = Some(date(2024, 1, 1));
    let snapshot = vec![
        done_hit,
        task("bread", "s", None, None),
        later_hit,
        today_hit,
        task("other", "s", Some("milky"), None),
    ];
    let v = ViewState { sort: SortMode::Project, search: "Milk".to_string(), show_done: false, due_only: true };
    let r = reconcile(&snapshot, &v, date(2024, 1, 1), &no_prior());
    assert_eq!(
        r.entries,
        vec![
            Entry { task: 3, heading: Some(Heading::Matches) },
            Entry { task: 2, heading: Some(Heading::OtherOpen) },
            Entry { task: 4, heading: None },
            Entry { task: 0, heading: Some(Heading::OtherDone) },
        ]
    );
    let mut seen = tasks_of(&r.entries);
    seen.sort();
    seen.dedup();
    assert_eq!(seen.len(), r.entries.len());
}

#[test]
fn search_with_no_hits_is_empty() {
    let snapshot = vec![task("a", "s", None, None)];
    let v = ViewState { sort: SortMode::Project, search: "zzz".to_string(), show_done: false, due_only: false };
    let r = reconcile(&snapshot, &v, date(2024, 1, 1), &no_prior());
    assert!(r.entries.is_empty());
    assert_eq!(r.scroll, Scroll::Restore(0));
}

#[test]
fn reconciling_twice_gives_the_same_list_and_selection() {
    let snapshot = vec![
        task("b", "s", Some("x"), None),
        task("a", "s", Some("y"), None),
        task("c", "s", Some("x"), None),
    ];
    let v = view(SortMode::Project);
    let prior = Prior { selected: Some(task("c", "s", Some("x"), None)), scroll: 0 };
    let first = reconcile(&snapshot, &v, date(2024, 1, 1), &prior);
    let k = first.selected.unwrap();
    let carried = Prior { selected: Some(snapshot[first.entries[k].task].duplicate()), scroll: k };
    let second = reconcile(&snapshot, &v, date(2024, 1, 1), &carried);
    assert_eq!(first.entries, second.entries);
    assert_eq!(first.selected, second.selected);
    assert_eq!(first.scroll, second.scroll);
}

#[test]
fn selection_survives_an_added_task() {
    let mut snapshot: Vec<TaskItem> = (1..=5).map(|i| task(&format!("task {i}"), "s", None, None)).collect();
    let v = view(SortMode::Project);
    let prior = Prior { selected: Some(task("task 3", "s", None, None)), scroll: 0 };
    let first = reconcile(&snapshot, &v, date(2024, 1, 1), &prior);
    assert_eq!(first.entries.len(), 5);
    let k = first.selected.unwrap();
    assert_eq!(snapshot[first.entries[k].task].title, "task 3");
    snapshot.insert(0, task("task 0", "s", None, None));
    let carried = Prior { selected: Some(snapshot[first.entries[k].task + 1].duplicate()), scroll: k };
    let second = reconcile(&snapshot, &v, date(2024, 1, 1), &carried);
    assert_eq!(second.entries.len(), 6);
    let k2 = second.selected.unwrap();
    assert_eq!(snapshot[second.entries[k2].task].title, "task 3");
    assert_eq!(k2, 3);
    assert_eq!(second.scroll, Scroll::Reveal(3));
}

#[test]
fn lost_selection_restores_clamped_scroll() {
    let snapshot = vec![task("a", "s", None, None), task("b", "s", None, None)];
    let prior = Prior { selected: Some(task("gone", "s", None, None)), scroll: 9 };
    let r = reconcile(&snapshot, &view(SortMode::Project), date(2024, 1, 1), &prior);
    assert_eq!(r.selected, None);
    assert_eq!(r.scroll, Scroll::Restore(1));
    let prior = Prior { selected: None, scroll: 1 };
    let r = reconcile(&snapshot, &view(SortMode::Project), date(2024, 1, 1), &prior);
    assert_eq!(r.scroll, Scroll::Restore(1));
}

#[test]
fn empty_snapshot_renders_nothing() {
    let r = reconcile(&Vec::new(), &view(SortMode::Date), date(2024, 1, 1), &Prior { selected: None, scroll: 4 });
    assert!(r.entries.is_empty());
    assert_eq!(r.scroll, Scroll::Restore(0));
}

#[test]
fn view_commands_change_one_setting() {
    let mut v = view(SortMode::Project);
    v.apply(ViewCommand::SetSort(SortMode::Date));
    assert_eq!(v.sort, SortMode::Date);
    v.apply(ViewCommand::SetSearch("milk".to_string()));
    assert_eq!(v.search, "milk");
    v.apply(ViewCommand::SetShowDone(true));
    v.apply(ViewCommand::SetDueOnly(true));
    assert!(v.show_done && v.due_only);
    assert_eq!(v.sort, SortMode::Date);
    assert_eq!(v.search, "milk");
}
