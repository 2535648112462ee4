use vstd::prelude::*;
use crate::task::{copy_text, date_before, Date, Recurrence, TaskItem, TaskView};

verus! {

/// The number of days in a month of a year.
pub fn days_in_month(year: u16, month: u8) -> (r: u8)
    ensures
        r == Date::days_in_month(year, month),
{
    if month == 2 {
        if (year % 4 == 0 && year % 100 != 0) || year % 400 == 0 {
            29
        } else {
            28
        }
    } else if month == 4 || month == 6 || month == 9 || month == 11 {
        30
    } else {
        31
    }
}

/// The day after `d`.
pub open spec fn next_day(d: Date) -> Date {
    if (d.day as nat) < Date::days_in_month(d.year, d.month) {
        Date { day: (d.day + 1) as u8, ..d }
    } else if d.month < 12 {
        Date { year: d.year, month: (d.month + 1) as u8, day: 1 }
    } else {
        Date { year: (d.year + 1) as u16, month: 1, day: 1 }
    }
}

/// `n` days after `d`.
pub open spec fn add_days(d: Date, n: nat) -> Date
    decreases n,
{
    if n == 0 {
        d
    } else {
        add_days(next_day(d), (n - 1) as nat)
    }
}

/// The same day of the next month, or that month's last day where it is
/// shorter.
pub open spec fn add_month(d: Date) -> Date {
    let (y, m) = if d.month < 12 {
        (d.year, (d.month + 1) as u8)
    } else {
        ((d.year + 1) as u16, 1u8)
    };
    let last = Date::days_in_month(y, m);
    Date { year: y, month: m, day: if (d.day as nat) <= last { d.day } else { last as u8 } }
}

/// When a task that repeats by `rule` comes due next after `d`.
pub open spec fn next_occurrence(d: Date, rule: Recurrence) -> Date {
    match rule {
        Recurrence::Daily => add_days(d, 1),
        Recurrence::Weekly => add_days(d, 7),
        Recurrence::Monthly => add_month(d),
    }
}

/// Dates that the year's width leaves room to move forward from.
pub open spec fn advanceable(d: Date) -> bool {
    d.wf() && d.year < 0xffff
}

fn day_after(d: Date) -> (r: Date)
    requires
        d.wf(),
        d.year < 0xffff || d.month < 12,
    ensures
        r == next_day(d),
        r.wf(),
        r.year <= d.year + 1,
        r.year == d.year || r.month == 1,
{
    let last = days_in_month(d.year, d.month);
    if d.day < last {
        Date { day: d.day + 1, ..d }
    } else if d.month < 12 {
        Date { year: d.year, month: d.month + 1, day: 1 }
    } else {
        Date { year: d.year + 1, month: 1, day: 1 }
    }
}

/// When a task that repeats by `rule` and is due on `d` comes due next.
pub fn next_due_date(d: Date, rule: Recurrence) -> (r: Date)
    requires
        advanceable(d),
    ensures
        r == next_occurrence(d, rule),
        r.wf(),
{
    match rule {
        Recurrence::Monthly => {
            let (y, m) = if d.month < 12 {
                (d.year, d.month + 1)
            } else {
                (d.year + 1, 1u8)
            };
            let last = days_in_month(y, m);
            let day = if d.day <= last {
                d.day
            } else {
                last
            };
            Date { year: y, month: m, day }
        },
        _ => {
            let n: u8 = if rule == Recurrence::Daily {
                1
            } else {
                7
            };
            let mut cur = d;
            let mut k: u8 = 0;
            while k < n
                invariant
                    k <= n,
                    advanceable(d),
                    n == 1 || n == 7,
                    n as nat == (if rule == Recurrence::Daily { 1nat } else { 7nat }),
                    cur.wf(),
                    cur == add_days(d, k as nat),
                    k == 0 ==> cur == d,
                    cur.year == d.year || (cur.year == d.year + 1 && cur.month == 1 && cur.day
                        <= k),
                decreases n - k,
            {
                proof {
                    lemma_add_days_step(d, k as nat);
                }
                cur = day_after(cur);
                k = k + 1;
            }
            cur
        },
    }
}

proof fn lemma_add_days_step(d: Date, k: nat)
    ensures
        add_days(d, k + 1) == next_day(add_days(d, k)),
    decreases k,
{
    if k > 0 {
        lemma_add_days_step(next_day(d), (k - 1) as nat);
        assert(add_days(d, k) == add_days(next_day(d), (k - 1) as nat));
    } else {
        assert(add_days(next_day(d), 0) == next_day(d));
    }
}

/// What toggling a task's done flag comes to: the task as it is to be stored,
/// and the next occurrence to insert, if any.
pub struct ToggleOutcome {
    pub updated: TaskItem,
    pub follow_up: Option<TaskItem>,
}

/// Whether a toggle completes a repeating task.
pub open spec fn completes_recurring(t: TaskView, done: bool) -> bool {
    done && !t.done && t.recurrence is Some
}

/// The due date of a repeating task as it is completed: a past due date
/// moves up to today.
pub open spec fn completed_due(t: TaskView, today: Date) -> Option<Date> {
    match t.due {
        Some(d) => if date_before(d, today) {
            Some(today)
        } else {
            Some(d)
        },
        None => None,
    }
}

/// The date that the next occurrence is counted from: the completed task's
/// due date, or today where it has none.
pub open spec fn base_date(t: TaskView, today: Date) -> Date {
    match completed_due(t, today) {
        Some(d) => d,
        None => today,
    }
}

/// The task as stored after the toggle.
pub open spec fn toggled(t: TaskView, done: bool, today: Date) -> TaskView {
    if completes_recurring(t, done) {
        TaskView { done: true, due: completed_due(t, today), ..t }
    } else {
        TaskView { done, ..t }
    }
}

/// The next occurrence of a repeating task: open, not yet placed in the
/// store, due by its rule after the completed one.
pub open spec fn successor(t: TaskView, today: Date) -> TaskView {
    TaskView {
        done: false,
        key: None,
        due: Some(next_occurrence(base_date(t, today), t.recurrence->0)),
        ..t
    }
}

/// Toggles a task's done flag. Completing a repeating task also yields its
/// next occurrence; a past due date of the completed task moves up to today.
pub fn plan_toggle(item: &TaskItem, done: bool, today: Date) -> (r: ToggleOutcome)
    requires
        advanceable(today),
        item.due matches Some(d) ==> advanceable(d),
    ensures
        r.updated@ == toggled(item@, done, today),
        completes_recurring(item@, done) ==> (r.follow_up matches Some(f) && f@ == successor(
            item@,
            today,
        )),
        !completes_recurring(item@, done) ==> r.follow_up is None,
{
    let mut updated = item.duplicate();
    updated.done = done;
    if !(done && !item.done) {
        return ToggleOutcome { updated, follow_up: None };
    }
    match item.recurrence {
        None => ToggleOutcome { updated, follow_up: None },
        Some(rule) => {
            let due = match item.due {
                Some(d) => if d.is_before(&today) {
                    Some(today)
                } else {
                    Some(d)
                },
                None => None,
            };
            updated.due = due;
            let base = match due {
                Some(d) => d,
                None => today,
            };
            let next = next_due_date(base, rule);
            let follow = TaskItem {
                title: item.title.clone(),
                section: item.section.clone(),
                project: copy_text(&item.project),
                context: copy_text(&item.context),
                due: Some(next),
                recurrence: item.recurrence,
                done: false,
                reference: copy_text(&item.reference),
                key: None,
            };
            ToggleOutcome { updated, follow_up: Some(follow) }
        },
    }
}

} // verus!
