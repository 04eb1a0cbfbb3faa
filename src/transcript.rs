//! Rebuilding the completed tasks of a session from its transcript.
use vstd::prelude::*;
use crate::tasks::{Task, TaskView, task_views, sorted_by_id, sort_tasks_by_id};
use crate::text::{
    chars_of, occurs_at, occurs_at_exec, occurs_in, occurs_in_exec, split_on, split_chars, views, slice_chars, same_chars,
    string_from_chars,
};

verus! {

/// What one transcript line says about tasks.
pub enum LineEvent {
    /// A task was created; its id is given only when the line carries one.
    Created { subject: String, id: Option<String> },
    /// A task's status was set.
    Updated { task_id: String, status: String },
    /// A tool result gave the permanent id of the latest task still without one.
    IdAssigned { permanent_id: String },
    /// Nothing about tasks.
    Other,
}

/// What a `LineEvent` holds, as plain sequences.
pub enum EventView {
    Created { subject: Seq<char>, id: Option<Seq<char>> },
    Updated { task_id: Seq<char>, status: Seq<char> },
    IdAssigned { permanent_id: Seq<char> },
    Other,
}

impl View for LineEvent {
    type V = EventView;

    open spec fn view(&self) -> EventView {
        match self {
            LineEvent::Created { subject, id } => EventView::Created {
                subject: subject@,
                id: match id {
                    Some(i) => Some(i@),
                    None => None,
                },
            },
            LineEvent::Updated { task_id, status } => EventView::Updated {
                task_id: task_id@,
                status: status@,
            },
            LineEvent::IdAssigned { permanent_id } => EventView::IdAssigned { permanent_id: permanent_id@ },
            LineEvent::Other => EventView::Other,
        }
    }
}

pub open spec fn create_marker() -> Seq<char> {
    seq!['T', 'a', 's', 'k', 'C', 'r', 'e', 'a', 't', 'e']
}

pub open spec fn update_marker() -> Seq<char> {
    seq!['T', 'a', 's', 'k', 'U', 'p', 'd', 'a', 't', 'e']
}

pub open spec fn result_marker() -> Seq<char> {
    seq!['t', 'o', 'o', 'l', '_', 'r', 'e', 's', 'u', 'l', 't']
}

pub open spec fn subject_key() -> Seq<char> {
    seq!['"', 's', 'u', 'b', 'j', 'e', 'c', 't', '"']
}

pub open spec fn id_key() -> Seq<char> {
    seq!['"', 'i', 'd', '"']
}

pub open spec fn task_id_key() -> Seq<char> {
    seq!['"', 't', 'a', 's', 'k', 'I', 'd', '"']
}

pub open spec fn status_key() -> Seq<char> {
    seq!['"', 's', 't', 'a', 't', 'u', 's', '"']
}

pub open spec fn pending() -> Seq<char> {
    seq!['p', 'e', 'n', 'd', 'i', 'n', 'g']
}

pub open spec fn completed() -> Seq<char> {
    seq!['c', 'o', 'm', 'p', 'l', 'e', 't', 'e', 'd']
}

/// The first position at or after `i` that is not a space.
pub open spec fn skip_spaces(s: Seq<char>, i: int) -> int
    decreases s.len() - i,
{
    if 0 <= i < s.len() && s[i] == ' ' {
        skip_spaces(s, i + 1)
    } else {
        i
    }
}

/// The first position at or after `i` that holds a double quote, or the end.
pub open spec fn quote_end(s: Seq<char>, i: int) -> int
    decreases s.len() - i,
{
    if 0 <= i < s.len() && s[i] != '"' {
        quote_end(s, i + 1)
    } else {
        i
    }
}

/// Where the value of a field whose quoted name starts at `p` begins.
pub open spec fn value_start(s: Seq<char>, key: Seq<char>, p: int) -> int {
    skip_spaces(s, skip_spaces(s, p + key.len()) + 1) + 1
}

/// At `p` stands the quoted name `key`, then (spaces allowed around the
/// colon) `:` and a string value closed by a double quote.
pub open spec fn field_at(s: Seq<char>, key: Seq<char>, p: int) -> bool {
    let a = skip_spaces(s, p + key.len());
    let b = skip_spaces(s, a + 1);
    &&& occurs_at(s, key, p)
    &&& a < s.len()
    &&& s[a] == ':'
    &&& b < s.len()
    &&& s[b] == '"'
    &&& quote_end(s, b + 1) < s.len()
}

/// The leftmost position at or after `from` where the field `key` stands.
pub open spec fn leftmost_field(s: Seq<char>, key: Seq<char>, from: int) -> Option<int>
    decreases s.len() + 1 - from,
{
    if from < 0 || from > s.len() {
        None
    } else if field_at(s, key, from) {
        Some(from)
    } else {
        leftmost_field(s, key, from + 1)
    }
}

/// The value of the leftmost field `key` of a line (`key` holds the quotes).
pub open spec fn field(s: Seq<char>, key: Seq<char>) -> Option<Seq<char>> {
    match leftmost_field(s, key, 0) {
        Some(p) => Some(s.subrange(value_start(s, key, p), quote_end(s, value_start(s, key, p)))),
        None => None,
    }
}

/// What a line says: a line naming `TaskCreate` creates a task when it has a
/// `"subject"`; else one naming `TaskUpdate` sets a status when it has a
/// `"taskId"` and a `"status"`; else a `tool_result` line with an `"id"`
/// assigns that id.
pub open spec fn classify(line: Seq<char>) -> EventView {
    if occurs_in(line, create_marker()) {
        match field(line, subject_key()) {
            Some(subject) => EventView::Created { subject, id: field(line, id_key()) },
            None => EventView::Other,
        }
    } else if occurs_in(line, update_marker()) {
        match (field(line, task_id_key()), field(line, status_key())) {
            (Some(task_id), Some(status)) => EventView::Updated { task_id, status },
            _ => EventView::Other,
        }
    } else if occurs_in(line, result_marker()) {
        match field(line, id_key()) {
            Some(id) => EventView::IdAssigned { permanent_id: id },
            None => EventView::Other,
        }
    } else {
        EventView::Other
    }
}

proof fn lemma_skip_spaces_bounds(s: Seq<char>, i: int)
    requires
        0 <= i <= s.len(),
    ensures
        i <= skip_spaces(s, i) <= s.len(),
    decreases s.len() - i,
{
    if i < s.len() && s[i] == ' ' {
        lemma_skip_spaces_bounds(s, i + 1);
    }
}

proof fn lemma_quote_end_bounds(s: Seq<char>, i: int)
    requires
        0 <= i <= s.len(),
    ensures
        i <= quote_end(s, i) <= s.len(),
    decreases s.len() - i,
{
    if i < s.len() && s[i] != '"' {
        lemma_quote_end_bounds(s, i + 1);
    }
}

fn skip_spaces_exec(s: &Vec<char>, i: usize) -> (r: usize)
    requires
        i <= s.len(),
    ensures
        r == skip_spaces(s@, i as int),
        i <= r <= s.len(),
{
    proof {
        lemma_skip_spaces_bounds(s@, i as int);
    }
    let mut e: usize = i;
    while e < s.len() && s[e] == ' '
        invariant
            i <= e <= s.len(),
            skip_spaces(s@, i as int) == skip_spaces(s@, e as int),
        decreases s.len() - e,
    {
        e = e + 1;
    }
    e
}

fn quote_end_exec(s: &Vec<char>, i: usize) -> (r: usize)
    requires
        i <= s.len(),
    ensures
        r == quote_end(s@, i as int),
        i <= r <= s.len(),
{
    proof {
        lemma_quote_end_bounds(s@, i as int);
    }
    let mut e: usize = i;
    while e < s.len() && s[e] != '"'
        invariant
            i <= e <= s.len(),
            quote_end(s@, i as int) == quote_end(s@, e as int),
        decreases s.len() - e,
    {
        e = e + 1;
    }
    e
}

/// The bounds of the value of the field `key` at `p`, where one stands there.
fn field_at_exec(s: &Vec<char>, key: &Vec<char>, p: usize) -> (r: Option<(usize, usize)>)
    ensures
        r is Some <==> field_at(s@, key@, p as int),
        match r {
            Some((a, b)) => {
                &&& a == value_start(s@, key@, p as int)
                &&& b == quote_end(s@, a as int)
                &&& a <= b <= s.len()
            },
            None => true,
        },
{
    if !occurs_at_exec(s, key, p) {
        return None;
    }
    let plen = key.len();
    assert(p + plen <= s.len());
    let a = skip_spaces_exec(s, p + plen);
    if a >= s.len() || s[a] != ':' {
        return None;
    }
    let b = skip_spaces_exec(s, a + 1);
    if b >= s.len() || s[b] != '"' {
        return None;
    }
    let e = quote_end_exec(s, b + 1);
    if e >= s.len() {
        return None;
    }
    Some((b + 1, e))
}

/// The value of the leftmost field `key` of a line (see `field`).
fn find_field(s: &Vec<char>, key: &Vec<char>) -> (r: Option<Vec<char>>)
    ensures
        match field(s@, key@) {
            Some(v) => r is Some && r->0@ == v,
            None => r is None,
        },
{
    let mut p: usize = 0;
    loop
        invariant
            p <= s.len(),
            leftmost_field(s@, key@, 0) == leftmost_field(s@, key@, p as int),
        decreases s.len() - p,
    {
        match field_at_exec(s, key, p) {
            Some((a, b)) => {
                assert(leftmost_field(s@, key@, p as int) == Some(p as int));
                return Some(slice_chars(s, a, b));
            },
            None => {},
        }
        if p == s.len() {
            assert(leftmost_field(s@, key@, p + 1) is None);
            return None;
        }
        p = p + 1;
    }
}

fn chars_create_marker() -> (r: Vec<char>)
    ensures
        r@ == create_marker(),
{
    let r = vec!['T', 'a', 's', 'k', 'C', 'r', 'e', 'a', 't', 'e'];
    assert(r@ == create_marker());
    r
}

fn chars_update_marker() -> (r: Vec<char>)
    ensures
        r@ == update_marker(),
{
    let r = vec!['T', 'a', 's', 'k', 'U', 'p', 'd', 'a', 't', 'e'];
    assert(r@ == update_marker());
    r
}

fn chars_result_marker() -> (r: Vec<char>)
    ensures
        r@ == result_marker(),
{
    let r = vec!['t', 'o', 'o', 'l', '_', 'r', 'e', 's', 'u', 'l', 't'];
    assert(r@ == result_marker());
    r
}

fn chars_subject_key() -> (r: Vec<char>)
    ensures
        r@ == subject_key(),
{
    let r = vec!['"', 's', 'u', 'b', 'j', 'e', 'c', 't', '"'];
    assert(r@ == subject_key());
    r
}

fn chars_id_key() -> (r: Vec<char>)
    ensures
        r@ == id_key(),
{
    let r = vec!['"', 'i', 'd', '"'];
    assert(r@ == id_key());
    r
}

fn chars_task_id_key() -> (r: Vec<char>)
    ensures
        r@ == task_id_key(),
{
    let r = vec!['"', 't', 'a', 's', 'k', 'I', 'd', '"'];
    assert(r@ == task_id_key());
    r
}

fn chars_status_key() -> (r: Vec<char>)
    ensures
        r@ == status_key(),
{
    let r = vec!['"', 's', 't', 'a', 't', 'u', 's', '"'];
    assert(r@ == status_key());
    r
}

fn classify_chars(line: &Vec<char>) -> (r: LineEvent)
    ensures
        r@ == classify(line@),
{
    if occurs_in_exec(line, &chars_create_marker()) {
        match find_field(line, &chars_subject_key()) {
            Some(subject) => {
                let id = match find_field(line, &chars_id_key()) {
                    Some(v) => Some(string_from_chars(v.as_slice())),
                    None => None,
                };
                LineEvent::Created { subject: string_from_chars(subject.as_slice()), id }
            },
            None => LineEvent::Other,
        }
    } else if occurs_in_exec(line, &chars_update_marker()) {
        let task_id = find_field(line, &chars_task_id_key());
        let status = find_field(line, &chars_status_key());
        match (task_id, status) {
            (Some(t), Some(s)) => LineEvent::Updated {
                task_id: string_from_chars(t.as_slice()),
                status: string_from_chars(s.as_slice()),
            },
            _ => LineEvent::Other,
        }
    } else if occurs_in_exec(line, &chars_result_marker()) {
        match find_field(line, &chars_id_key()) {
            Some(id) => LineEvent::IdAssigned { permanent_id: string_from_chars(id.as_slice()) },
            None => LineEvent::Other,
        }
    } else {
        LineEvent::Other
    }
}

/// Reads what a transcript line says about tasks (see `classify`).
pub fn classify_line(line: &str) -> (r: LineEvent)
    ensures
        r@ == classify(line@),
{
    classify_chars(&chars_of(line))
}

/// A task while the transcript is replayed, under the key it is known by.
pub struct SlotView {
    pub key: Seq<char>,
    pub subject: Seq<char>,
    pub status: Seq<char>,
    /// The key is a stand-in until the permanent id arrives.
    pub placeholder: bool,
}

pub open spec fn placeholder_prefix() -> Seq<char> {
    seq!['n', 'e', 'w', '_']
}

pub open spec fn digit_char(d: nat) -> char {
    ((48 + d % 10) as u8) as char
}

/// The decimal digits of `n`.
pub open spec fn decimal(n: nat) -> Seq<char>
    decreases n,
{
    if n < 10 {
        seq![digit_char(n)]
    } else {
        decimal(n / 10).push(digit_char(n % 10))
    }
}

/// The stand-in key of the task inserted when `n` tasks are known: `new_<n>`.
pub open spec fn placeholder_key(n: nat) -> Seq<char> {
    placeholder_prefix() + decimal(n)
}

/// The first slot, from `from` on, known by `key`.
pub open spec fn key_index(st: Seq<SlotView>, key: Seq<char>, from: int) -> Option<int>
    decreases st.len() - from,
{
    if from < 0 || from >= st.len() {
        None
    } else if st[from].key == key {
        Some(from)
    } else {
        key_index(st, key, from + 1)
    }
}

/// The last of the first `n` slots that still has a stand-in key.
pub open spec fn last_placeholder(st: Seq<SlotView>, n: int) -> Option<int>
    decreases n,
{
    if n <= 0 || n > st.len() {
        None
    } else if st[n - 1].placeholder {
        Some(n - 1)
    } else {
        last_placeholder(st, n - 1)
    }
}

/// `slot` stored under its key: in place of the slot known by that key, or
/// after all others.
pub open spec fn put(st: Seq<SlotView>, slot: SlotView) -> Seq<SlotView> {
    match key_index(st, slot.key, 0) {
        Some(i) => st.update(i, slot),
        None => st.push(slot),
    }
}

/// The tasks known after one more line.
pub open spec fn step(st: Seq<SlotView>, ev: EventView) -> Seq<SlotView> {
    match ev {
        EventView::Created { subject, id } => match id {
            Some(k) => put(st, SlotView { key: k, subject, status: pending(), placeholder: false }),
            None => put(
                st,
                SlotView { key: placeholder_key(st.len()), subject, status: pending(), placeholder: true },
            ),
        },
        EventView::Updated { task_id, status } => match key_index(st, task_id, 0) {
            Some(i) => st.update(i, SlotView { status, ..st[i] }),
            None => st,
        },
        EventView::IdAssigned { permanent_id } => match last_placeholder(st, st.len() as int) {
            Some(i) => put(st.remove(i), SlotView { key: permanent_id, placeholder: false, ..st[i] }),
            None => st,
        },
        EventView::Other => st,
    }
}

/// The tasks known after the first `n` lines.
pub open spec fn replay(lines: Seq<Seq<char>>, n: int) -> Seq<SlotView>
    decreases n,
{
    if n <= 0 || n > lines.len() {
        Seq::empty()
    } else {
        step(replay(lines, n - 1), classify(lines[n - 1]))
    }
}

/// The task a slot stands for, under its current key.
pub open spec fn slot_task(s: SlotView) -> TaskView {
    TaskView { id: s.key, subject: s.subject, status: s.status, active_form: None, blocked_by: Seq::empty() }
}

/// The completed ones among the slots, as tasks, in slot order.
pub open spec fn completed_tasks(st: Seq<SlotView>) -> Seq<TaskView>
    decreases st.len(),
{
    if st.len() == 0 {
        Seq::empty()
    } else if st.last().status == completed() {
        completed_tasks(st.drop_last()).push(slot_task(st.last()))
    } else {
        completed_tasks(st.drop_last())
    }
}

/// The completed tasks of a transcript, in ascending order of numeric id.
pub open spec fn mined_tasks(transcript: Seq<char>) -> Seq<TaskView> {
    let lines = split_on(transcript, '\n');
    sorted_by_id(completed_tasks(replay(lines, lines.len() as int)))
}

/// An empty transcript gives no completed task.
pub proof fn lemma_empty_transcript_mines_nothing()
    ensures
        mined_tasks(Seq::empty()) == Seq::<TaskView>::empty(),
{
    let lines = split_on(Seq::<char>::empty(), '\n');
    assert(lines =~= seq![Seq::<char>::empty()]);
    assert(!occurs_in(lines[0], create_marker())) by {
        assert forall|p: int| !occurs_at(lines[0], create_marker(), p) by {}
    }
    assert(!occurs_in(lines[0], update_marker())) by {
        assert forall|p: int| !occurs_at(lines[0], update_marker(), p) by {}
    }
    assert(!occurs_in(lines[0], result_marker())) by {
        assert forall|p: int| !occurs_at(lines[0], result_marker(), p) by {}
    }
    assert(classify(lines[0]) == EventView::Other);
    assert(replay(lines, 0) == Seq::<SlotView>::empty());
    assert(replay(lines, 1) == Seq::<SlotView>::empty());
    assert(completed_tasks(Seq::<SlotView>::empty()) == Seq::<TaskView>::empty());
}

struct Slot {
    key: Vec<char>,
    subject: Vec<char>,
    status: Vec<char>,
    placeholder: bool,
}

impl View for Slot {
    type V = SlotView;

    closed spec fn view(&self) -> SlotView {
        SlotView { key: self.key@, subject: self.subject@, status: self.status@, placeholder: self.placeholder }
    }
}

spec fn slot_views(v: Seq<Slot>) -> Seq<SlotView> {
    v.map_values(|s: Slot| s@)
}

fn push_decimal(out: &mut Vec<char>, n: usize)
    ensures
        final(out)@ == old(out)@ + decimal(n as nat),
    decreases n,
{
    if n >= 10 {
        push_decimal(out, n / 10);
    }
    let d = (n % 10) as u8;
    out.push((48 + d) as char);
    assert(out@ =~= old(out)@ + decimal(n as nat));
}

fn key_index_exec(st: &Vec<Slot>, key: &Vec<char>) -> (r: Option<usize>)
    ensures
        match key_index(slot_views(st@), key@, 0) {
            Some(i) => r == Some(i as usize) && 0 <= i < st.len(),
            None => r is None,
        },
{
    let ghost sv = slot_views(st@);
    let mut i: usize = 0;
    while i < st.len()
        invariant
            i <= st.len(),
            sv == slot_views(st@),
            key_index(sv, key@, 0) == key_index(sv, key@, i as int),
        decreases st.len() - i,
    {
        if same_chars(&st[i].key, key) {
            return Some(i);
        }
        i = i + 1;
    }
    None
}

fn last_placeholder_exec(st: &Vec<Slot>) -> (r: Option<usize>)
    ensures
        match last_placeholder(slot_views(st@), st.len() as int) {
            Some(i) => r == Some(i as usize) && 0 <= i < st.len(),
            None => r is None,
        },
{
    let ghost sv = slot_views(st@);
    let mut n: usize = st.len();
    while n > 0
        invariant
            n <= st.len(),
            sv == slot_views(st@),
            last_placeholder(sv, st.len() as int) == last_placeholder(sv, n as int),
        decreases n,
    {
        if st[n - 1].placeholder {
            return Some(n - 1);
        }
        n = n - 1;
    }
    None
}

fn put_exec(st: &mut Vec<Slot>, slot: Slot)
    ensures
        slot_views(final(st)@) == put(slot_views(old(st)@), slot@),
{
    let ghost before = slot_views(st@);
    match key_index_exec(st, &slot.key) {
        Some(i) => {
            st.remove(i);
            st.insert(i, slot);
            assert(slot_views(st@) =~= before.update(i as int, slot@));
        },
        None => {
            st.push(slot);
            assert(slot_views(st@) =~= before.push(slot@));
        },
    }
}

fn chars_pending() -> (r: Vec<char>)
    ensures
        r@ == pending(),
{
    let r = vec!['p', 'e', 'n', 'd', 'i', 'n', 'g'];
    assert(r@ == pending());
    r
}

fn chars_completed() -> (r: Vec<char>)
    ensures
        r@ == completed(),
{
    let r = vec!['c', 'o', 'm', 'p', 'l', 'e', 't', 'e', 'd'];
    assert(r@ == completed());
    r
}

/// Applies what one line says to the tasks known so far.
fn apply_event(st: &mut Vec<Slot>, ev: &LineEvent)
    ensures
        slot_views(final(st)@) == step(slot_views(old(st)@), ev@),
{
    let ghost before = slot_views(st@);
    match ev {
        LineEvent::Created { subject, id } => {
            let key = match id {
                Some(k) => chars_of(k.as_str()),
                None => {
                    let mut k = vec!['n', 'e', 'w', '_'];
                    assert(k@ == placeholder_prefix());
                    push_decimal(&mut k, st.len());
                    k
                },
            };
            let slot = Slot {
                key,
                subject: chars_of(subject.as_str()),
                status: chars_pending(),
                placeholder: id.is_none(),
            };
            put_exec(st, slot);
        },
        LineEvent::Updated { task_id, status } => {
            let k = chars_of(task_id.as_str());
            match key_index_exec(st, &k) {
                Some(i) => {
                    let old_slot = st.remove(i);
                    let slot = Slot {
                        key: old_slot.key,
                        subject: old_slot.subject,
                        status: chars_of(status.as_str()),
                        placeholder: old_slot.placeholder,
                    };
                    st.insert(i, slot);
                    assert(slot_views(st@) =~= step(before, ev@));
                },
                None => {},
            }
        },
        LineEvent::IdAssigned { permanent_id } => {
            match last_placeholder_exec(st) {
                Some(i) => {
                    let old_slot = st.remove(i);
                    assert(slot_views(st@) =~= before.remove(i as int));
                    let slot = Slot {
                        key: chars_of(permanent_id.as_str()),
                        subject: old_slot.subject,
                        status: old_slot.status,
                        placeholder: false,
                    };
                    put_exec(st, slot);
                },
                None => {},
            }
        },
        LineEvent::Other => {},
    }
}

/// Rebuilds the completed tasks of a session from its transcript: replays
/// the lines in order (see `step`), keeps the tasks whose status is
/// `completed`, and orders them by numeric id. An empty transcript gives none.
pub fn mine_completed_tasks(transcript: &str) -> (r: Vec<Task>)
    ensures
        task_views(r@) == mined_tasks(transcript@),
{
    let text = chars_of(transcript);
    let lines = split_chars(&text, '\n');
    let ghost ls = views(lines@);
    let mut st: Vec<Slot> = Vec::new();
    for n in 0..lines.len()
        invariant
            ls == views(lines@),
            ls == split_on(transcript@, '\n'),
            slot_views(st@) == replay(ls, n as int),
    {
        let ev = classify_chars(&lines[n]);
        apply_event(&mut st, &ev);
    }
    let ghost sv = slot_views(st@);
    let done = chars_completed();
    let mut found: Vec<Task> = Vec::new();
    for i in 0..st.len()
        invariant
            sv == slot_views(st@),
            done@ == completed(),
            task_views(found@) == completed_tasks(sv.take(i as int)),
    {
        assert(sv.take(i + 1).drop_last() == sv.take(i as int));
        let s = &st[i];
        if same_chars(&s.status, &done) {
            let t = Task {
                id: string_from_chars(s.key.as_slice()),
                subject: string_from_chars(s.subject.as_slice()),
                status: string_from_chars(s.status.as_slice()),
                active_form: None,
                blocked_by: Vec::new(),
            };
            let ghost before = found@;
            found.push(t);
            assert(t@.blocked_by =~= Seq::<Seq<char>>::empty());
            assert(task_views(found@) =~= task_views(before).push(t@));
        }
    }
    assert(sv.take(st.len() as int) == sv);
    sort_tasks_by_id(found)
}

} // verus!
