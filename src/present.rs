use vstd::prelude::*;
use crate::task::{texts_view, Date, TaskItem, TaskView};

verus! {

/// How prominent a notification is.
#[derive(Clone, Copy, Debug, PartialEq, Eq, Structural)]
pub enum Severity {
    Info,
    Error,
}

/// A short, dismissible notification.
#[derive(Debug)]
pub struct Notice {
    pub severity: Severity,
    pub text: String,
}

/// The decimal digit `n`.
pub open spec fn digit(n: int) -> char {
    "0123456789"@[n]
}

/// The last two decimal digits of `n`.
pub open spec fn two_digits(n: int) -> Seq<char> {
    seq![digit((n / 10) % 10), digit(n % 10)]
}

/// A year in at least four digits.
pub open spec fn year_text(y: int) -> Seq<char> {
    let four = seq![digit((y / 1000) % 10), digit((y / 100) % 10), digit((y / 10) % 10), digit(y % 10)];
    if y >= 10000 {
        seq![digit((y / 10000) % 10)] + four
    } else {
        four
    }
}

/// A date as year-month-day, for instance 2024-01-08.
pub open spec fn date_text(d: Date) -> Seq<char> {
    year_text(d.year as int) + seq!['-'] + two_digits(d.month as int) + seq!['-'] + two_digits(
        d.day as int,
    )
}

/// The parts of a task's metadata line: its section where it has one, its
/// project, its context, its due date and its reference.
pub open spec fn metadata_parts(t: TaskView) -> Seq<Seq<char>> {
    (if t.section.len() > 0 {
        seq![t.section]
    } else {
        Seq::empty()
    }) + (match t.project {
        Some(p) => seq!["+"@ + p],
        None => Seq::empty(),
    }) + (match t.context {
        Some(c) => seq!["@"@ + c],
        None => Seq::empty(),
    }) + (match t.due {
        Some(d) => seq!["Fällig: "@ + date_text(d)],
        None => Seq::empty(),
    }) + (match t.reference {
        Some(r) => seq!["↗ "@ + r],
        None => Seq::empty(),
    })
}

/// The parts with `sep` between each two.
pub open spec fn joined(parts: Seq<Seq<char>>, sep: Seq<char>) -> Seq<char>
    decreases parts.len(),
{
    if parts.len() == 0 {
        Seq::empty()
    } else if parts.len() == 1 {
        parts[0]
    } else {
        joined(parts.drop_last(), sep) + sep + parts.last()
    }
}

fn push_digit(out: &mut String, n: u16)
    requires
        n < 10,
    ensures
        final(out)@ == old(out)@.push(digit(n as int)),
{
    let all = "0123456789";
    proof {
        reveal_strlit("0123456789");
    }
    let d = all.substring_char(n as usize, (n + 1) as usize);
    out.append(d);
    assert(d@ =~= seq![digit(n as int)]);
}

/// The date as year-month-day.
pub fn format_date(d: Date) -> (r: String)
    ensures
        r@ == date_text(d),
{
    let mut out = String::new();
    let y = d.year;
    if y >= 10000 {
        push_digit(&mut out, (y / 10000) % 10);
    }
    push_digit(&mut out, (y / 1000) % 10);
    push_digit(&mut out, (y / 100) % 10);
    push_digit(&mut out, (y / 10) % 10);
    push_digit(&mut out, y % 10);
    proof {
        reveal_strlit("-");
    }
    out.append("-");
    push_digit(&mut out, (d.month as u16 / 10) % 10);
    push_digit(&mut out, d.month as u16 % 10);
    out.append("-");
    push_digit(&mut out, (d.day as u16 / 10) % 10);
    push_digit(&mut out, d.day as u16 % 10);
    assert(out@ =~= date_text(d));
    out
}

fn prefixed(prefix: &str, text: &str) -> (r: String)
    ensures
        r@ == prefix@ + text@,
{
    let mut s = String::from_str(prefix);
    s.append(text);
    s
}

/// The line under a task's title: its section, +project, @context, due date
/// and reference, those that it has, separated by bullets.
pub fn format_metadata(item: &TaskItem) -> (r: String)
    ensures
        r@ == joined(metadata_parts(item@), " • "@),
{
    let mut parts: Vec<String> = Vec::new();
    if item.section.unicode_len() > 0 {
        parts.push(item.section.clone());
    }
    let ghost p1 = texts_view(parts@);
    if let Some(p) = &item.project {
        parts.push(prefixed("+", p.as_str()));
    }
    let ghost p2 = texts_view(parts@);
    if let Some(c) = &item.context {
        parts.push(prefixed("@", c.as_str()));
    }
    let ghost p3 = texts_view(parts@);
    if let Some(d) = item.due {
        let date = format_date(d);
        parts.push(prefixed("Fällig: ", date.as_str()));
    }
    let ghost p4 = texts_view(parts@);
    if let Some(r) = &item.reference {
        parts.push(prefixed("↗ ", r.as_str()));
    }
    assert(texts_view(parts@) =~= metadata_parts(item@));
    join(&parts, " • ")
}

/// The texts with `sep` between each two.
pub fn join(parts: &Vec<String>, sep: &str) -> (r: String)
    ensures
        r@ == joined(texts_view(parts@), sep@),
{
    let ghost all = texts_view(parts@);
    if parts.len() == 0 {
        return String::new();
    }
    let mut out = parts[0].clone();
    assert(all.take(1).drop_last() =~= Seq::<Seq<char>>::empty());
    let mut i: usize = 1;
    while i < parts.len()
        invariant
            1 <= i <= parts@.len(),
            all == texts_view(parts@),
            out@ == joined(all.take(i as int), sep@),
        decreases parts.len() - i,
    {
        out.append(sep);
        out.append(parts[i].as_str());
        assert(all.take(i + 1).drop_last() =~= all.take(i as int));
        i = i + 1;
    }
    assert(all.take(parts@.len() as int) =~= all);
    out
}

/// The notification after a task was checked or unchecked.
pub fn toggle_notice(title: &str, done: bool) -> (r: Notice)
    ensures
        r.severity == Severity::Info,
        r.text@ == (if done {
            "Erledigt: "@
        } else {
            "Reaktiviert: "@
        }) + title@,
{
    let text = if done {
        prefixed("Erledigt: ", title)
    } else {
        prefixed("Reaktiviert: ", title)
    };
    Notice { severity: Severity::Info, text }
}

} // verus!
