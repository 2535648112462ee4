use vstd::prelude::*;
use crate::order::{keys_view, lemma_sorted_unique, sort_by_keys, sorted_by};
use crate::task::{date_before, identity, opt_text, Date, Identity, TaskItem, TaskView};

verus! {

/// How the list is sorted and grouped.
#[derive(Clone, Copy, Debug, PartialEq, Eq, Structural)]
pub enum SortMode {
    /// By project, grouped by project; tasks without one last.
    Project,
    /// By context, grouped by context; tasks without one last.
    Context,
    /// By due date, tasks without one last; no groups.
    Date,
}

/// The list's settings that live only as long as the window.
pub struct ViewState {
    pub sort: SortMode,
    /// Empty when no search is active.
    pub search: String,
    pub show_done: bool,
    pub due_only: bool,
}

/// The view's settings as plain values.
pub struct ViewSpec {
    pub sort: SortMode,
    pub search: Seq<char>,
    pub show_done: bool,
    pub due_only: bool,
}

impl View for ViewState {
    type V = ViewSpec;

    open spec fn view(&self) -> ViewSpec {
        ViewSpec {
            sort: self.sort,
            search: self.search@,
            show_done: self.show_done,
            due_only: self.due_only,
        }
    }
}

/// The heading shown above an entry.
#[derive(Clone, Copy, Debug, PartialEq, Eq, Structural)]
pub enum Heading {
    /// The group of the entry's project or context (see `group_label`).
    Group,
    /// Search hits among the tasks that the filters let through.
    Matches,
    /// Search hits among the other open tasks.
    OtherOpen,
    /// Search hits among the other done tasks.
    OtherDone,
}

/// One line of the list: a task of the snapshot, by index, and the heading
/// that opens before it, if any.
#[derive(Clone, Copy, Debug, PartialEq, Eq, Structural)]
pub struct Entry {
    pub task: usize,
    pub heading: Option<Heading>,
}

/// Where the list scrolls after a rebuild.
#[derive(Clone, Copy, Debug, PartialEq, Eq, Structural)]
pub enum Scroll {
    /// Bring this entry into view at once.
    Reveal(usize),
    /// Go back to this offset once the layout has settled.
    Restore(usize),
}

/// What the list showed before a rebuild: the selected task, if any, and the
/// scroll offset in entries.
pub struct Prior {
    pub selected: Option<TaskItem>,
    pub scroll: usize,
}

/// The rebuilt list.
pub struct Rendered {
    pub entries: Vec<Entry>,
    /// The index of the selected entry.
    pub selected: Option<usize>,
    pub scroll: Scroll,
}

/// The tasks of a snapshot as plain values.
pub open spec fn views(s: Seq<TaskItem>) -> Seq<TaskView> {
    s.map_values(|t: TaskItem| t@)
}

// ---- filters and search ----
/// The status and due filters: done tasks only with `show_done`, and with
/// `due_only` only tasks due today or earlier.
pub open spec fn visible(t: TaskView, v: ViewSpec, today: Date) -> bool {
    (v.show_done || !t.done) && (!v.due_only || (t.due matches Some(d) && !date_before(today, d)))
}

/// ASCII letters folded to lower case; other characters as they are.
pub open spec fn fold(c: char) -> u64 {
    if 65 <= (c as u32) <= 90 {
        (c as u32 + 32) as u64
    } else {
        c as u64
    }
}

/// A text with ASCII letters folded to lower case.
pub open spec fn fold_seq(s: Seq<char>) -> Seq<u64> {
    s.map_values(|c: char| fold(c))
}

/// `n` occurs in `h` as a contiguous run.
pub open spec fn contains_run(h: Seq<u64>, n: Seq<u64>) -> bool {
    exists|k: int| 0 <= k && k + n.len() <= h.len() && #[trigger] h.subrange(k, k + n.len()) == n
}

/// `term` occurs in `s`, ignoring ASCII case.
pub open spec fn text_has(s: Seq<char>, term: Seq<char>) -> bool {
    contains_run(fold_seq(s), fold_seq(term))
}

/// A task matches a search term that occurs in its title, project or context.
pub open spec fn matches(t: TaskView, term: Seq<char>) -> bool {
    text_has(t.title, term) || (t.project matches Some(p) && text_has(p, term)) || (
    t.context matches Some(c) && text_has(c, term))
}

/// The search bucket of a task: hits that pass the filters, other open hits,
/// other done hits; `None` for a task that does not match.
pub open spec fn bucket_of(t: TaskView, v: ViewSpec, today: Date) -> Option<Heading> {
    if !matches(t, v.search) {
        None
    } else if visible(t, v, today) {
        Some(Heading::Matches)
    } else if !t.done {
        Some(Heading::OtherOpen)
    } else {
        Some(Heading::OtherDone)
    }
}

/// The indices below `n`, ascending, whose bucket is `h`.
pub open spec fn select_bucket(b: Seq<Option<Heading>>, h: Heading, n: nat) -> Seq<usize>
    decreases n,
{
    if n == 0 {
        Seq::empty()
    } else if b[n - 1] == Some(h) {
        select_bucket(b, h, (n - 1) as nat).push((n - 1) as usize)
    } else {
        select_bucket(b, h, (n - 1) as nat)
    }
}

/// A bucket's entries: its heading before the first.
pub open spec fn block(s: Seq<usize>, h: Heading) -> Seq<Entry> {
    Seq::new(
        s.len(),
        |k: int| Entry { task: s[k], heading: if k == 0 { Some(h) } else { None } },
    )
}

/// The search bucket of each task of a snapshot.
pub open spec fn buckets(tasks: Seq<TaskView>, v: ViewSpec, today: Date) -> Seq<Option<Heading>> {
    tasks.map_values(|t: TaskView| bucket_of(t, v, today))
}

/// The list while a search is active: the three buckets in turn, each in
/// snapshot order.
pub open spec fn search_entries(tasks: Seq<TaskView>, v: ViewSpec, today: Date) -> Seq<Entry> {
    let b = buckets(tasks, v, today);
    block(select_bucket(b, Heading::Matches, tasks.len()), Heading::Matches) + block(
        select_bucket(b, Heading::OtherOpen, tasks.len()),
        Heading::OtherOpen,
    ) + block(select_bucket(b, Heading::OtherDone, tasks.len()), Heading::OtherDone)
}

// ---- sorting and grouping ----
/// A text as a sort key: folded characters, each raised by one, then a 0, so
/// that the parts of a key compare one after the other.
pub open spec fn text_key(s: Seq<char>) -> Seq<u64> {
    s.map_values(|c: char| (fold(c) + 1) as u64).push(0)
}

/// An optional text as a sort key: present before absent.
pub open spec fn opt_key(o: Option<Seq<char>>) -> Seq<u64> {
    match o {
        Some(s) => seq![0u64] + text_key(s),
        None => seq![1u64],
    }
}

/// A due date as a sort key: dated before undated, earlier first.
pub open spec fn due_key(d: Option<Date>) -> Seq<u64> {
    match d {
        Some(d) => seq![0u64, d.year as u64, d.month as u64, d.day as u64],
        None => seq![1u64],
    }
}

/// By project, then section, then title, then context.
pub open spec fn project_key(t: TaskView) -> Seq<u64> {
    opt_key(t.project) + text_key(t.section) + text_key(t.title) + opt_key(t.context)
}

/// By context, then section, then title, then project.
pub open spec fn context_key(t: TaskView) -> Seq<u64> {
    opt_key(t.context) + text_key(t.section) + text_key(t.title) + opt_key(t.project)
}

/// The key that a task is sorted by in a mode; by date, ties go by project order.
pub open spec fn sort_key(t: TaskView, mode: SortMode) -> Seq<u64> {
    match mode {
        SortMode::Project => project_key(t),
        SortMode::Context => context_key(t),
        SortMode::Date => due_key(t.due) + project_key(t),
    }
}

/// The sort key of each task of a snapshot.
pub open spec fn keys_of(tasks: Seq<TaskView>, mode: SortMode) -> Seq<Seq<u64>> {
    tasks.map_values(|t: TaskView| sort_key(t, mode))
}

/// The label that a task is grouped under.
pub open spec fn group_label(t: TaskView, mode: SortMode) -> Option<Seq<char>> {
    match mode {
        SortMode::Context => t.context,
        _ => t.project,
    }
}

/// The task indices of the entries, in order.
pub open spec fn order_of(entries: Seq<Entry>) -> Seq<usize> {
    entries.map_values(|e: Entry| e.task)
}

/// The heading of the `k`-th entry in a sorted list: a group heading exactly
/// where the label differs from the entry before; none when sorted by date.
pub open spec fn group_heading(tasks: Seq<TaskView>, mode: SortMode, order: Seq<usize>, k: int) -> Option<Heading> {
    if mode == SortMode::Date {
        None
    } else if k == 0 || group_label(tasks[order[k] as int], mode) != group_label(
        tasks[order[k - 1] as int],
        mode,
    ) {
        Some(Heading::Group)
    } else {
        None
    }
}

/// The list without a search: exactly the visible tasks, sorted, with group
/// headings where the label changes.
pub open spec fn sorted_entries_ok(tasks: Seq<TaskView>, v: ViewSpec, today: Date, entries: Seq<Entry>) -> bool {
    let order = order_of(entries);
    &&& sorted_by(keys_of(tasks, v.sort), order)
    &&& forall|x: usize| #[trigger]
        order.contains(x) <==> (x < tasks.len() && visible(tasks[x as int], v, today))
    &&& forall|k: int|
        0 <= k < entries.len() ==> #[trigger] entries[k].heading == group_heading(
            tasks,
            v.sort,
            order,
            k,
        )
}

/// The entries that the view asks for: the buckets while searching, else the sorted list.
pub open spec fn entries_ok(tasks: Seq<TaskView>, v: ViewSpec, today: Date, entries: Seq<Entry>) -> bool {
    if v.search.len() > 0 {
        entries == search_entries(tasks, v, today)
    } else {
        sorted_entries_ok(tasks, v, today, entries)
    }
}

// ---- selection ----
/// The entry to select: the first whose task has the identity `id`.
pub open spec fn selection_ok(
    tasks: Seq<TaskView>,
    entries: Seq<Entry>,
    id: Option<Identity>,
    selected: Option<usize>,
) -> bool {
    match selected {
        Some(k) => id matches Some(i) && k < entries.len() && entries[k as int].task < tasks.len()
            && identity(tasks[entries[k as int].task as int]) == i && forall|j: int|
            0 <= j < k ==> identity(tasks[#[trigger] entries[j].task as int]) != i,
        None => id matches Some(i) ==> forall|j: int|
            0 <= j < entries.len() ==> identity(tasks[#[trigger] entries[j].task as int]) != i,
    }
}

/// An offset kept within the list's bounds.
pub open spec fn clamp(s: usize, len: nat) -> usize {
    if len == 0 {
        0
    } else if s < len {
        s
    } else {
        (len - 1) as usize
    }
}

/// A selected entry is revealed; without one the old offset comes back within bounds.
pub open spec fn scroll_ok(entries_len: nat, selected: Option<usize>, prior_scroll: usize, scroll: Scroll) -> bool {
    match selected {
        Some(k) => scroll == Scroll::Reveal(k),
        None => scroll == Scroll::Restore(clamp(prior_scroll, entries_len)),
    }
}

/// A rebuild of the list from `tasks`: the entries that the view asks for,
/// the previously selected task selected again where it is still there, and
/// the scroll position.
pub open spec fn reconciled(
    tasks: Seq<TaskView>,
    v: ViewSpec,
    today: Date,
    id: Option<Identity>,
    prior_scroll: usize,
    entries: Seq<Entry>,
    selected: Option<usize>,
    scroll: Scroll,
) -> bool {
    &&& entries_ok(tasks, v, today, entries)
    &&& selection_ok(tasks, entries, id, selected)
    &&& scroll_ok(entries.len(), selected, prior_scroll, scroll)
}

/// The identity of the task that was selected, if any.
pub open spec fn prior_identity(p: Option<TaskItem>) -> Option<Identity> {
    match p {
        Some(t) => Some(identity(t@)),
        None => None,
    }
}

// ---- executable parts ----
fn fold_char(c: char) -> (r: u64)
    ensures
        r == fold(c),
{
    let v = c as u32;
    if 65 <= v && v <= 90 {
        (v + 32) as u64
    } else {
        v as u64
    }
}

fn fold_text(s: &str) -> (r: Vec<u64>)
    ensures
        r@ == fold_seq(s@),
{
    let n = s.unicode_len();
    let mut out: Vec<u64> = Vec::new();
    let mut i: usize = 0;
    while i < n
        invariant
            n == s@.len(),
            i <= n,
            out@ == fold_seq(s@.take(i as int)),
        decreases n - i,
    {
        let c = s.get_char(i);
        out.push(fold_char(c));
        assert(fold_seq(s@.take(i + 1)) =~= fold_seq(s@.take(i as int)).push(fold(c)));
        i = i + 1;
    }
    assert(s@.take(n as int) =~= s@);
    out
}

fn has_run(h: &Vec<u64>, n: &Vec<u64>) -> (r: bool)
    ensures
        r == contains_run(h@, n@),
{
    if n.len() > h.len() {
        return false;
    }
    if n.len() == 0 {
        assert(h@.subrange(0, 0 + n@.len() as int) =~= n@);
        return true;
    }
    let last = h.len() - n.len();
    let mut k: usize = 0;
    while k <= last
        invariant
            last == h@.len() - n@.len(),
            n@.len() <= h@.len(),
            h@.len() <= usize::MAX,
            n@.len() > 0,
            forall|j: int| 0 <= j < k ==> #[trigger] h@.subrange(j, j + n@.len()) != n@,
        decreases last + 1 - k,
    {
        let mut j: usize = 0;
        let mut same = true;
        while j < n.len()
            invariant
                k <= last,
                last == h@.len() - n@.len(),
                n@.len() <= h@.len(),
                h@.len() <= usize::MAX,
                j <= n@.len(),
                same <==> forall|l: int| 0 <= l < j ==> h@[k + l] == n@[l],
            decreases n.len() - j,
        {
            if h[k + j] != n[j] {
                same = false;
            }
            j = j + 1;
        }
        if same {
            assert(h@.subrange(k as int, k + n@.len()) =~= n@);
            return true;
        }
        assert(h@.subrange(k as int, k + n@.len()) != n@) by {
            let l = choose|l: int| 0 <= l < n@.len() && h@[k + l] != n@[l];
            assert(h@.subrange(k as int, k + n@.len())[l] == h@[k + l]);
        }
        k = k + 1;
    }
    false
}

fn text_has_exec(s: &str, term: &Vec<u64>) -> (r: bool)
    ensures
        r == contains_run(fold_seq(s@), term@),
{
    let h = fold_text(s);
    has_run(&h, term)
}

fn task_matches(t: &TaskItem, term: &Vec<u64>, term_text: Ghost<Seq<char>>) -> (r: bool)
    requires
        term@ == fold_seq(term_text@),
    ensures
        r == matches(t@, term_text@),
{
    if text_has_exec(t.title.as_str(), term) {
        return true;
    }
    let in_project = match &t.project {
        Some(p) => text_has_exec(p.as_str(), term),
        None => false,
    };
    if in_project {
        return true;
    }
    match &t.context {
        Some(c) => text_has_exec(c.as_str(), term),
        None => false,
    }
}

fn is_visible(t: &TaskItem, v: &ViewState, today: Date) -> (r: bool)
    ensures
        r == visible(t@, v@, today),
{
    if !v.show_done && t.done {
        return false;
    }
    if !v.due_only {
        return true;
    }
    match t.due {
        Some(d) => !today.is_before(&d),
        None => false,
    }
}

fn push_text_key(out: &mut Vec<u64>, s: &str)
    ensures
        final(out)@ == old(out)@ + text_key(s@),
{
    let ghost start = out@;
    let n = s.unicode_len();
    let mut i: usize = 0;
    while i < n
        invariant
            n == s@.len(),
            i <= n,
            out@ == start + s@.take(i as int).map_values(|c: char| (fold(c) + 1) as u64),
        decreases n - i,
    {
        let c = s.get_char(i);
        let f = fold_char(c);
        assert(f <= 0xffff_ffff);
        out.push(f + 1);
        assert(s@.take(i + 1).map_values(|c: char| (fold(c) + 1) as u64) =~= s@.take(
            i as int,
        ).map_values(|c: char| (fold(c) + 1) as u64).push((f + 1) as u64));
        i = i + 1;
    }
    assert(s@.take(n as int) =~= s@);
    out.push(0);
    assert(out@ =~= start + text_key(s@));
}

fn push_opt_key(out: &mut Vec<u64>, o: &Option<String>)
    ensures
        final(out)@ == old(out)@ + opt_key(opt_text(*o)),
{
    let ghost start = out@;
    match o {
        Some(s) => {
            out.push(0);
            push_text_key(out, s.as_str());
            assert(out@ =~= start + (seq![0u64] + text_key(s@)));
        },
        None => {
            out.push(1);
            assert(out@ =~= start + seq![1u64]);
        },
    }
}

fn push_project_key(out: &mut Vec<u64>, t: &TaskItem)
    ensures
        final(out)@ == old(out)@ + project_key(t@),
{
    let ghost start = out@;
    push_opt_key(out, &t.project);
    push_text_key(out, t.section.as_str());
    push_text_key(out, t.title.as_str());
    push_opt_key(out, &t.context);
    assert(out@ =~= start + project_key(t@));
}

fn sort_key_of(t: &TaskItem, mode: SortMode) -> (r: Vec<u64>)
    ensures
        r@ == sort_key(t@, mode),
{
    let mut out: Vec<u64> = Vec::new();
    match mode {
        SortMode::Project => {
            push_project_key(&mut out, t);
            assert(out@ =~= project_key(t@));
        },
        SortMode::Context => {
            push_opt_key(&mut out, &t.context);
            push_text_key(&mut out, t.section.as_str());
            push_text_key(&mut out, t.title.as_str());
            push_opt_key(&mut out, &t.project);
            assert(out@ =~= context_key(t@));
        },
        SortMode::Date => {
            match t.due {
                Some(d) => {
                    out.push(0);
                    out.push(d.year as u64);
                    out.push(d.month as u64);
                    out.push(d.day as u64);
                },
                None => {
                    out.push(1);
                },
            }
            assert(out@ =~= due_key(t@.due));
            push_project_key(&mut out, t);
            assert(out@ =~= due_key(t@.due) + project_key(t@));
        },
    }
    out
}

fn same_label(a: &TaskItem, b: &TaskItem, mode: SortMode) -> (r: bool)
    ensures
        r == (group_label(a@, mode) == group_label(b@, mode)),
{
    let (x, y) = match mode {
        SortMode::Context => (&a.context, &b.context),
        _ => (&a.project, &b.project),
    };
    match (x, y) {
        (Some(p), Some(q)) => *p == *q,
        (None, None) => true,
        _ => false,
    }
}

proof fn lemma_select_bucket(b: Seq<Option<Heading>>, h: Heading, n: nat)
    requires
        n <= b.len(),
        b.len() <= usize::MAX,
    ensures
        forall|x: usize| #[trigger]
            select_bucket(b, h, n).contains(x) <==> (x < n && b[x as int] == Some(h)),
    decreases n,
{
    if n > 0 {
        lemma_select_bucket(b, h, (n - 1) as nat);
        let prev = select_bucket(b, h, (n - 1) as nat);
        assert forall|x: usize| #[trigger]
            select_bucket(b, h, n).contains(x) <==> (x < n && b[x as int] == Some(h)) by {
            if b[n - 1] == Some(h) {
                let cur = prev.push((n - 1) as usize);
                if cur.contains(x) {
                    let a = choose|a: int| 0 <= a < cur.len() && cur[a] == x;
                    if a < prev.len() {
                        assert(prev[a] == x);
                        assert(prev.contains(x));
                    }
                }
                if x < n && b[x as int] == Some(h) {
                    if x < n - 1 {
                        assert(prev.contains(x));
                        let a = choose|a: int| 0 <= a < prev.len() && prev[a] == x;
                        assert(cur[a] == x);
                    } else {
                        assert(cur[prev.len() as int] == x);
                    }
                }
            }
        }
    }
}

fn push_bucket(entries: &mut Vec<Entry>, b: &Vec<Option<Heading>>, h: Heading)
    ensures
        final(entries)@ == old(entries)@ + block(select_bucket(b@, h, b@.len()), h),
{
    let ghost start = entries@;
    let mut count: usize = 0;
    let mut i: usize = 0;
    assert(block(select_bucket(b@, h, 0), h) =~= Seq::<Entry>::empty());
    assert(entries@ =~= start + block(select_bucket(b@, h, 0), h));
    while i < b.len()
        invariant
            i <= b@.len(),
            count == select_bucket(b@, h, i as nat).len(),
            count <= i,
            entries@ == start + block(select_bucket(b@, h, i as nat), h),
        decreases b.len() - i,
    {
        let ghost before = select_bucket(b@, h, i as nat);
        if b[i] == Some(h) {
            let heading = if count == 0 {
                Some(h)
            } else {
                None
            };
            entries.push(Entry { task: i, heading });
            assert(select_bucket(b@, h, (i + 1) as nat) == before.push(i));
            assert(block(before.push(i), h) =~= block(before, h).push(Entry { task: i, heading }));
            count = count + 1;
        }
        i = i + 1;
    }
    assert(b@.len() == i);
}

fn bucket_exec(t: &TaskItem, v: &ViewState, today: Date, term: &Vec<u64>) -> (r: Option<Heading>)
    requires
        term@ == fold_seq(v@.search),
    ensures
        r == bucket_of(t@, v@, today),
{
    if !task_matches(t, term, Ghost(v@.search)) {
        None
    } else if is_visible(t, v, today) {
        Some(Heading::Matches)
    } else if !t.done {
        Some(Heading::OtherOpen)
    } else {
        Some(Heading::OtherDone)
    }
}

fn search_list(snapshot: &Vec<TaskItem>, v: &ViewState, today: Date) -> (r: Vec<Entry>)
    ensures
        r@ == search_entries(views(snapshot@), v@, today),
{
    let term = fold_text(v.search.as_str());
    let mut b: Vec<Option<Heading>> = Vec::new();
    let mut i: usize = 0;
    while i < snapshot.len()
        invariant
            i <= snapshot@.len(),
            term@ == fold_seq(v@.search),
            b@ == buckets(views(snapshot@), v@, today).take(i as int),
        decreases snapshot.len() - i,
    {
        let x = bucket_exec(&snapshot[i], v, today, &term);
        b.push(x);
        assert(buckets(views(snapshot@), v@, today).take(i + 1) =~= buckets(
            views(snapshot@),
            v@,
            today,
        ).take(i as int).push(x));
        i = i + 1;
    }
    assert(b@ =~= buckets(views(snapshot@), v@, today));
    let mut entries: Vec<Entry> = Vec::new();
    push_bucket(&mut entries, &b, Heading::Matches);
    push_bucket(&mut entries, &b, Heading::OtherOpen);
    push_bucket(&mut entries, &b, Heading::OtherDone);
    assert(entries@ =~= search_entries(views(snapshot@), v@, today));
    entries
}

fn sorted_list(snapshot: &Vec<TaskItem>, v: &ViewState, today: Date) -> (r: Vec<Entry>)
    ensures
        sorted_entries_ok(views(snapshot@), v@, today, r@),
{
    let ghost tasks = views(snapshot@);
    let mode = v.sort;
    let mut keys: Vec<Vec<u64>> = Vec::new();
    let mut ids: Vec<usize> = Vec::new();
    let mut i: usize = 0;
    while i < snapshot.len()
        invariant
            i <= snapshot@.len(),
            tasks == views(snapshot@),
            mode == v@.sort,
            keys@.len() == i,
            forall|a: int| 0 <= a < i ==> (#[trigger] keys@[a])@ == sort_key(tasks[a], mode),
            forall|a: int, c: int| 0 <= a < c < ids@.len() ==> ids@[a] < ids@[c],
            forall|a: int| 0 <= a < ids@.len() ==> #[trigger] ids@[a] < i,
            forall|x: usize| #[trigger]
                ids@.contains(x) <==> (x < i && visible(tasks[x as int], v@, today)),
        decreases snapshot.len() - i,
    {
        let k = sort_key_of(&snapshot[i], mode);
        assert(tasks[i as int] == snapshot@[i as int]@);
        keys.push(k);
        let ghost old_ids = ids@;
        if is_visible(&snapshot[i], v, today) {
            ids.push(i);
        }
        assert forall|x: usize| #[trigger]
            ids@.contains(x) <==> (x < i + 1 && visible(tasks[x as int], v@, today)) by {
            if ids@.contains(x) {
                let a = choose|a: int| 0 <= a < ids@.len() && ids@[a] == x;
                if a < old_ids.len() {
                    assert(old_ids[a] == x);
                    assert(old_ids.contains(x));
                }
            }
            if x < i + 1 && visible(tasks[x as int], v@, today) {
                if x < i {
                    assert(old_ids.contains(x));
                    let a = choose|a: int| 0 <= a < old_ids.len() && old_ids[a] == x;
                    assert(ids@[a] == x);
                } else {
                    assert(ids@[old_ids.len() as int] == x);
                }
            }
        }
        i = i + 1;
    }
    assert(keys_view(keys@) =~= keys_of(tasks, mode));
    assert(ids@.no_duplicates());
    assert(forall|a: int| 0 <= a < ids@.len() ==> #[trigger] ids@[a] < keys@.len());
    let order = sort_by_keys(&keys, &ids);
    assert(keys@.len() == snapshot@.len()) by {
        assert(keys_view(keys@).len() == keys@.len());
    }
    let mut entries: Vec<Entry> = Vec::new();
    let mut k: usize = 0;
    while k < order.len()
        invariant
            k <= order@.len(),
            tasks == views(snapshot@),
            mode == v@.sort,
            forall|a: int| 0 <= a < order@.len() ==> #[trigger] order@[a] < snapshot@.len(),
            entries@.len() == k,
            forall|a: int| 0 <= a < k ==> (#[trigger] entries@[a]).task == order@[a],
            forall|a: int|
                0 <= a < k ==> #[trigger] entries@[a].heading == group_heading(
                    tasks,
                    mode,
                    order@,
                    a,
                ),
        decreases order.len() - k,
    {
        let x = order[k];
        let heading = if mode == SortMode::Date {
            None
        } else if k == 0 {
            Some(Heading::Group)
        } else if !same_label(&snapshot[x], &snapshot[order[k - 1]], mode) {
            Some(Heading::Group)
        } else {
            None
        };
        entries.push(Entry { task: x, heading });
        k = k + 1;
    }
    assert(order_of(entries@) =~= order@);
    entries
}

/// Index of the first entry whose task has the identity of `wanted`.
fn find_selected(snapshot: &Vec<TaskItem>, entries: &Vec<Entry>, wanted: &TaskItem) -> (r: Option<usize>)
    requires
        forall|a: int| 0 <= a < entries@.len() ==> #[trigger] entries@[a].task < snapshot@.len(),
    ensures
        selection_ok(views(snapshot@), entries@, Some(identity(wanted@)), r),
{
    let ghost tasks = views(snapshot@);
    let mut k: usize = 0;
    while k < entries.len()
        invariant
            k <= entries@.len(),
            tasks == views(snapshot@),
            forall|a: int| 0 <= a < entries@.len() ==> #[trigger] entries@[a].task < snapshot@.len(),
            forall|j: int|
                0 <= j < k ==> identity(tasks[#[trigger] entries@[j].task as int]) != identity(
                    wanted@,
                ),
        decreases entries.len() - k,
    {
        if snapshot[entries[k].task].same_identity(wanted) {
            return Some(k);
        }
        k = k + 1;
    }
    None
}

proof fn lemma_entries_in_bounds(tasks: Seq<TaskView>, v: ViewSpec, today: Date, entries: Seq<Entry>)
    requires
        entries_ok(tasks, v, today, entries),
        tasks.len() <= usize::MAX,
    ensures
        forall|a: int| 0 <= a < entries.len() ==> #[trigger] entries[a].task < tasks.len(),
{
    if v.search.len() > 0 {
        let b = buckets(tasks, v, today);
        lemma_select_bucket(b, Heading::Matches, tasks.len());
        lemma_select_bucket(b, Heading::OtherOpen, tasks.len());
        lemma_select_bucket(b, Heading::OtherDone, tasks.len());
        let s1 = select_bucket(b, Heading::Matches, tasks.len());
        let s2 = select_bucket(b, Heading::OtherOpen, tasks.len());
        let s3 = select_bucket(b, Heading::OtherDone, tasks.len());
        assert forall|a: int| 0 <= a < entries.len() implies #[trigger] entries[a].task
            < tasks.len() by {
            if a < s1.len() {
                assert(s1.contains(s1[a]));
            } else if a < s1.len() + s2.len() {
                assert(s2.contains(s2[a - s1.len()]));
            } else {
                assert(s3.contains(s3[a - s1.len() - s2.len()]));
            }
        }
    } else {
        let order = order_of(entries);
        assert forall|a: int| 0 <= a < entries.len() implies #[trigger] entries[a].task
            < tasks.len() by {
            assert(order[a] == entries[a].task);
            assert(order.contains(order[a]));
        }
    }
}

/// Rebuilds the list from a fresh snapshot of the store.
///
/// Without a search the entries are the tasks that the filters let through,
/// sorted by the view's mode, with a group heading before each entry whose
/// label differs from the one before. With a search they are the three
/// buckets of hits in turn. The task that was selected before is selected
/// again, found by identity, and revealed; where it is gone the old scroll
/// offset is restored within the new bounds.
pub fn reconcile(snapshot: &Vec<TaskItem>, v: &ViewState, today: Date, prior: &Prior) -> (r: Rendered)
    ensures
        reconciled(
            views(snapshot@),
            v@,
            today,
            prior_identity(prior.selected),
            prior.scroll,
            r.entries@,
            r.selected,
            r.scroll,
        ),
{
    let searching = v.search.unicode_len() > 0;
    let entries = if searching {
        search_list(snapshot, v, today)
    } else {
        sorted_list(snapshot, v, today)
    };
    let total = snapshot.len();
    proof {
        assert(views(snapshot@).len() == total);
        lemma_entries_in_bounds(views(snapshot@), v@, today, entries@);
    }
    let selected = match &prior.selected {
        Some(t) => find_selected(snapshot, &entries, t),
        None => None,
    };
    let scroll = match selected {
        Some(k) => Scroll::Reveal(k),
        None => {
            let n = entries.len();
            let s = if n == 0 {
                0
            } else if prior.scroll < n {
                prior.scroll
            } else {
                n - 1
            };
            Scroll::Restore(s)
        },
    };
    Rendered { entries, selected, scroll }
}

// ---- view commands ----
/// A change to the view that a user gesture asks for.
#[derive(Debug)]
pub enum ViewCommand {
    SetSort(SortMode),
    SetSearch(String),
    SetShowDone(bool),
    SetDueOnly(bool),
}

/// The view after a command: the one setting it names changes.
pub open spec fn commanded(v: ViewSpec, c: ViewCommand) -> ViewSpec {
    match c {
        ViewCommand::SetSort(m) => ViewSpec { sort: m, ..v },
        ViewCommand::SetSearch(s) => ViewSpec { search: s@, ..v },
        ViewCommand::SetShowDone(b) => ViewSpec { show_done: b, ..v },
        ViewCommand::SetDueOnly(b) => ViewSpec { due_only: b, ..v },
    }
}

impl ViewState {
    /// Carries out a view command.
    pub fn apply(&mut self, c: ViewCommand)
        ensures
            final(self)@ == commanded(old(self)@, c),
    {
        let ghost cv = c;
        match c {
            ViewCommand::SetSort(m) => {
                self.sort = m;
            },
            ViewCommand::SetSearch(s) => {
                self.search = s;
            },
            ViewCommand::SetShowDone(b) => {
                self.show_done = b;
            },
            ViewCommand::SetDueOnly(b) => {
                self.due_only = b;
            },
        }
        assert(self@ == commanded(old(self)@, cv));
    }
}

// ---- laws ----
/// The identity of the task selected by a rebuild, to carry into the next.
pub open spec fn carried_identity(tasks: Seq<TaskView>, entries: Seq<Entry>, selected: Option<usize>) -> Option<Identity> {
    match selected {
        Some(k) => Some(identity(tasks[entries[k as int].task as int])),
        None => None,
    }
}

/// The scroll offset that a rebuild leaves behind.
pub open spec fn offset_of(s: Scroll) -> usize {
    match s {
        Scroll::Reveal(k) => k,
        Scroll::Restore(k) => k,
    }
}

/// Rebuilding a second time from the same snapshot and view, with the
/// selection and scroll that the first rebuild left, gives the same entries,
/// the same selection and the same scroll.
pub proof fn lemma_reconcile_idempotent(
    tasks: Seq<TaskView>,
    v: ViewSpec,
    today: Date,
    id: Option<Identity>,
    prior_scroll: usize,
    e1: Seq<Entry>,
    sel1: Option<usize>,
    sc1: Scroll,
    e2: Seq<Entry>,
    sel2: Option<usize>,
    sc2: Scroll,
)
    requires
        reconciled(tasks, v, today, id, prior_scroll, e1, sel1, sc1),
        reconciled(tasks, v, today, carried_identity(tasks, e1, sel1), offset_of(sc1), e2, sel2, sc2),
    ensures
        e2 == e1,
        sel2 == sel1,
        sc2 == sc1,
{
    if v.search.len() == 0 {
        let keys = keys_of(tasks, v.sort);
        let o1 = order_of(e1);
        let o2 = order_of(e2);
        assert forall|x: usize| o1.contains(x) <==> o2.contains(x) by {
            assert(o1.contains(x) <==> (x < tasks.len() && visible(tasks[x as int], v, today)));
            assert(o2.contains(x) <==> (x < tasks.len() && visible(tasks[x as int], v, today)));
        }
        lemma_sorted_unique(keys, o2, o1);
        assert forall|k: int| 0 <= k < e1.len() implies e2[k] == e1[k] by {
            assert(o1[k] == e1[k].task);
            assert(o2[k] == e2[k].task);
            assert(e1[k].heading == group_heading(tasks, v.sort, o1, k));
            assert(e2[k].heading == group_heading(tasks, v.sort, o2, k));
        }
        assert(e1.len() == o1.len() && e2.len() == o2.len());
        assert(e2 =~= e1);
    }
    match sel1 {
        Some(k) => {
            match sel2 {
                Some(k2) => {
                    if k2 < k {
                        assert(identity(tasks[e1[k2 as int].task as int]) != id->0);
                    }
                    if k2 > k {
                        assert(identity(tasks[e2[k as int].task as int]) != identity(
                            tasks[e1[k as int].task as int],
                        ));
                    }
                },
                None => {
                    assert(identity(tasks[e2[k as int].task as int]) != identity(
                        tasks[e1[k as int].task as int],
                    ));
                },
            }
        },
        None => {},
    }
}

/// Without a search and outside the date order, an entry has a heading
/// exactly when it is the first or its group label differs from the label of
/// the entry before it.
pub proof fn lemma_grouping(
    tasks: Seq<TaskView>,
    v: ViewSpec,
    today: Date,
    id: Option<Identity>,
    prior_scroll: usize,
    entries: Seq<Entry>,
    selected: Option<usize>,
    scroll: Scroll,
    k: int,
)
    requires
        reconciled(tasks, v, today, id, prior_scroll, entries, selected, scroll),
        v.search.len() == 0,
        v.sort != SortMode::Date,
        0 <= k < entries.len(),
    ensures
        entries[k].heading is Some <==> (k == 0 || group_label(tasks[entries[k].task as int], v.sort)
            != group_label(tasks[entries[k - 1].task as int], v.sort)),
{
    let o = order_of(entries);
    assert(o[k] == entries[k].task);
    if k > 0 {
        assert(o[k - 1] == entries[k - 1].task);
    }
    assert(entries[k].heading == group_heading(tasks, v.sort, o, k));
}

/// One where `b` holds, else zero.
pub open spec fn one_if(b: bool) -> int {
    if b {
        1
    } else {
        0
    }
}

/// While searching, a task that matches the term stands in exactly one of the
/// three buckets.
pub proof fn lemma_search_bucket_unique(tasks: Seq<TaskView>, v: ViewSpec, today: Date, i: usize)
    requires
        tasks.len() <= usize::MAX,
        i < tasks.len(),
        matches(tasks[i as int], v.search),
    ensures
        one_if(select_bucket(buckets(tasks, v, today), Heading::Matches, tasks.len()).contains(i))
            + one_if(select_bucket(buckets(tasks, v, today), Heading::OtherOpen, tasks.len()).contains(i))
            + one_if(select_bucket(buckets(tasks, v, today), Heading::OtherDone, tasks.len()).contains(i))
            == 1,
{
    let b = buckets(tasks, v, today);
    lemma_select_bucket(b, Heading::Matches, tasks.len());
    lemma_select_bucket(b, Heading::OtherOpen, tasks.len());
    lemma_select_bucket(b, Heading::OtherDone, tasks.len());
    assert(b[i as int] == bucket_of(tasks[i as int], v, today));
}

/// Where the previously selected task is still among the entries, found by
/// identity, the rebuild selects it again: the first entry with its identity.
pub proof fn lemma_selection_preserved(
    tasks: Seq<TaskView>,
    v: ViewSpec,
    today: Date,
    id: Identity,
    prior_scroll: usize,
    entries: Seq<Entry>,
    selected: Option<usize>,
    scroll: Scroll,
    j: int,
)
    requires
        reconciled(tasks, v, today, Some(id), prior_scroll, entries, selected, scroll),
        0 <= j < entries.len(),
        identity(tasks[entries[j].task as int]) == id,
    ensures
        selected matches Some(k) && k <= j && identity(tasks[entries[k as int].task as int]) == id,
        scroll == Scroll::Reveal(selected->0),
{
    if let Some(k) = selected {
        if k > j {
            assert(identity(tasks[entries[j].task as int]) != id);
        }
    } else {
        assert(identity(tasks[entries[j].task as int]) != id);
    }
}

} // verus!
