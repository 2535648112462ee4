use vstd::prelude::*;

verus! {

/// A calendar date, compared by year, then month, then day.
#[derive(Clone, Copy, Debug, PartialEq, Eq, Structural)]
pub struct Date {
    pub year: u16,
    pub month: u8,
    pub day: u8,
}

/// How a task repeats once it is done.
#[derive(Clone, Copy, Debug, PartialEq, Eq, Structural)]
pub enum Recurrence {
    Daily,
    Weekly,
    Monthly,
}

/// A task's place in one snapshot of the store. It means nothing against
/// another snapshot.
#[derive(Clone, Copy, Debug, PartialEq, Eq, Structural)]
pub struct TaskKey {
    pub position: usize,
}

/// One task as read from the store.
#[derive(Debug)]
pub struct TaskItem {
    pub title: String,
    pub section: String,
    pub project: Option<String>,
    pub context: Option<String>,
    pub due: Option<Date>,
    pub recurrence: Option<Recurrence>,
    pub done: bool,
    pub reference: Option<String>,
    /// `None` for a task that the store has not placed yet.
    pub key: Option<TaskKey>,
}

/// Whether `a` is an earlier day than `b`.
pub open spec fn date_before(a: Date, b: Date) -> bool {
    a.year < b.year || (a.year == b.year && (a.month < b.month || (a.month == b.month && a.day
        < b.day)))
}

impl Date {
    pub open spec fn days_in_month(year: u16, month: u8) -> nat {
        if month == 2 {
            if (year % 4 == 0 && year % 100 != 0) || year % 400 == 0 {
                29
            } else {
                28
            }
        } else if month == 4 || month == 6 || month == 9 || month == 11 {
            30
        } else {
            31
        }
    }

    /// A date names a day that the calendar has.
    pub open spec fn wf(self) -> bool {
        1 <= self.month <= 12 && 1 <= self.day <= Self::days_in_month(self.year, self.month)
    }

    /// The date of the given year, month and day, where the calendar has it.
    pub fn from_ymd(year: u16, month: u8, day: u8) -> (r: Option<Date>)
        ensures
            r matches Some(d) ==> d.wf() && d == (Date { year, month, day }),
            r is None <==> !(Date { year, month, day }).wf(),
    {
        if month < 1 || month > 12 || day < 1 {
            return None;
        }
        let leap = (year % 4 == 0 && year % 100 != 0) || year % 400 == 0;
        let last: u8 = if month == 2 {
            if leap {
                29
            } else {
                28
            }
        } else if month == 4 || month == 6 || month == 9 || month == 11 {
            30
        } else {
            31
        };
        if day > last {
            None
        } else {
            Some(Date { year, month, day })
        }
    }

    /// Whether `self` comes strictly before `other`.
    pub fn is_before(&self, other: &Date) -> (r: bool)
        ensures
            r == date_before(*self, *other),
    {
        self.year < other.year || (self.year == other.year && (self.month < other.month || (
        self.month == other.month && self.day < other.day)))
    }
}

/// An optional text as a plain sequence.
pub open spec fn opt_text(o: Option<String>) -> Option<Seq<char>> {
    match o {
        Some(s) => Some(s@),
        None => None,
    }
}

/// Texts as plain sequences.
pub open spec fn texts_view(v: Seq<String>) -> Seq<Seq<char>> {
    v.map_values(|s: String| s@)
}

/// What a task is, apart from its key: every field as a plain value.
pub struct TaskView {
    pub title: Seq<char>,
    pub section: Seq<char>,
    pub project: Option<Seq<char>>,
    pub context: Option<Seq<char>>,
    pub due: Option<Date>,
    pub recurrence: Option<Recurrence>,
    pub done: bool,
    pub reference: Option<Seq<char>>,
    pub key: Option<TaskKey>,
}

impl View for TaskItem {
    type V = TaskView;

    open spec fn view(&self) -> TaskView {
        TaskView {
            title: self.title@,
            section: self.section@,
            project: opt_text(self.project),
            context: opt_text(self.context),
            due: self.due,
            recurrence: self.recurrence,
            done: self.done,
            reference: opt_text(self.reference),
            key: self.key,
        }
    }
}

/// Section, title, project, context, due date and recurrence.
pub type Identity = (
    Seq<char>,
    Seq<char>,
    Option<Seq<char>>,
    Option<Seq<char>>,
    Option<Date>,
    Option<Recurrence>,
);

/// What tells a task apart across reloads: its section, its title and its
/// markers. The key and the done flag are not part of it.
pub open spec fn identity(t: TaskView) -> Identity {
    (t.section, t.title, t.project, t.context, t.due, t.recurrence)
}

/// A copy of an optional text.
pub fn copy_text(o: &Option<String>) -> (r: Option<String>)
    ensures
        opt_text(r) == opt_text(*o),
{
    match o {
        Some(s) => Some(s.clone()),
        None => None,
    }
}

fn same_text(a: &Option<String>, b: &Option<String>) -> (r: bool)
    ensures
        r == (opt_text(*a) == opt_text(*b)),
{
    match (a, b) {
        (Some(x), Some(y)) => *x == *y,
        (None, None) => true,
        _ => false,
    }
}

impl TaskItem {
    /// A copy of the task, field for field.
    pub fn duplicate(&self) -> (r: TaskItem)
        ensures
            r@ == self@,
    {
        TaskItem {
            title: self.title.clone(),
            section: self.section.clone(),
            project: copy_text(&self.project),
            context: copy_text(&self.context),
            due: self.due,
            recurrence: self.recurrence,
            done: self.done,
            reference: copy_text(&self.reference),
            key: self.key,
        }
    }

    /// Whether two tasks are the same task as far as a reload can tell.
    pub fn same_identity(&self, other: &TaskItem) -> (r: bool)
        ensures
            r == (identity(self@) == identity(other@)),
    {
        let due_eq = match (self.due, other.due) {
            (Some(x), Some(y)) => x == y,
            (None, None) => true,
            _ => false,
        };
        let rec_eq = match (self.recurrence, other.recurrence) {
            (Some(x), Some(y)) => x == y,
            (None, None) => true,
            _ => false,
        };
        self.section == other.section && self.title == other.title && same_text(
            &self.project,
            &other.project,
        ) && same_text(&self.context, &other.context) && due_eq && rec_eq
    }
}

} // verus!
