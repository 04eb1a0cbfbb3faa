//! Tasks and their order by numeric id.
use vstd::prelude::*;
use crate::branch::{is_digit, digits_value, digits_value_exec};
use crate::text::chars_of;

verus! {

/// One task of an assistant session.
pub struct Task {
    pub id: String,
    pub subject: String,
    /// `pending`, `in_progress`, `completed`, or any other word.
    pub status: String,
    pub active_form: Option<String>,
    /// Ids of the tasks that this one waits for.
    pub blocked_by: Vec<String>,
}

/// What a task holds, as plain sequences.
pub struct TaskView {
    pub id: Seq<char>,
    pub subject: Seq<char>,
    pub status: Seq<char>,
    pub active_form: Option<Seq<char>>,
    pub blocked_by: Seq<Seq<char>>,
}

impl View for Task {
    type V = TaskView;

    open spec fn view(&self) -> TaskView {
        TaskView {
            id: self.id@,
            subject: self.subject@,
            status: self.status@,
            active_form: match self.active_form {
                Some(a) => Some(a@),
                None => None,
            },
            blocked_by: self.blocked_by@.map_values(|b: String| b@),
        }
    }
}

/// The views of a sequence of tasks.
pub open spec fn task_views(ts: Seq<Task>) -> Seq<TaskView> {
    ts.map_values(|t: Task| t@)
}

/// The numeric value of an id: the number its decimal digits denote, or `0`
/// when it is empty, holds anything but digits, or exceeds `u32::MAX`.
pub open spec fn numeric_id(id: Seq<char>) -> nat {
    if id.len() > 0 && (forall|j: int| 0 <= j < id.len() ==> is_digit(#[trigger] id[j]))
        && digits_value(id) <= u32::MAX {
        digits_value(id)
    } else {
        0
    }
}

/// The key tasks are ordered by.
pub open spec fn task_key(t: TaskView) -> nat {
    numeric_id(t.id)
}

/// `t` placed into `sorted` after every task whose key is not greater than its own.
pub open spec fn insert_by_key(sorted: Seq<TaskView>, t: TaskView) -> Seq<TaskView>
    decreases sorted.len(),
{
    if sorted.len() == 0 {
        seq![t]
    } else if task_key(sorted.last()) <= task_key(t) {
        sorted.push(t)
    } else {
        insert_by_key(sorted.drop_last(), t).push(sorted.last())
    }
}

/// The tasks in ascending order of numeric id; tasks with equal keys keep
/// their relative order.
pub open spec fn sorted_by_id(s: Seq<TaskView>) -> Seq<TaskView>
    decreases s.len(),
{
    if s.len() == 0 {
        s
    } else {
        insert_by_key(sorted_by_id(s.drop_last()), s.last())
    }
}

/// The tasks stand in ascending order of key.
pub open spec fn is_sorted_by_key(s: Seq<TaskView>) -> bool {
    forall|i: int, j: int| 0 <= i < j < s.len() ==> task_key(s[i]) <= task_key(s[j])
}

/// The numeric value of an id (see `numeric_id`).
pub fn numeric_id_of(id: &str) -> (r: u32)
    ensures
        r as nat == numeric_id(id@),
{
    let cs = chars_of(id);
    if cs.len() == 0 {
        return 0;
    }
    let mut i: usize = 0;
    while i < cs.len()
        invariant
            cs@ == id@,
            i <= cs.len(),
            forall|j: int| 0 <= j < i ==> is_digit(cs@[j]),
        decreases cs.len() - i,
    {
        if !('0' <= cs[i] && cs[i] <= '9') {
            assert(!is_digit(cs@[i as int]));
            return 0;
        }
        i = i + 1;
    }
    assert(cs@.subrange(0, cs.len() as int) == cs@);
    match digits_value_exec(&cs, 0, cs.len()) {
        Some(v) => v,
        None => 0,
    }
}

proof fn lemma_insert_at(s: Seq<TaskView>, t: TaskView, j: int)
    requires
        0 <= j <= s.len(),
        forall|m: int| j <= m < s.len() ==> task_key(s[m]) > task_key(t),
        j == 0 || task_key(s[j - 1]) <= task_key(t),
    ensures
        insert_by_key(s, t) == s.insert(j, t),
    decreases s.len(),
{
    if s.len() == j {
        if j == 0 {
            assert(s.insert(j, t) =~= seq![t]);
        } else {
            assert(s.insert(j, t) =~= s.push(t));
        }
    } else {
        let d = s.drop_last();
        lemma_insert_at(d, t, j);
        assert(s.insert(j, t) =~= d.insert(j, t).push(s.last()));
    }
}

proof fn lemma_insert_keeps_sorted(s: Seq<TaskView>, t: TaskView)
    requires
        is_sorted_by_key(s),
    ensures
        is_sorted_by_key(insert_by_key(s, t)),
        insert_by_key(s, t).to_multiset() == s.to_multiset().insert(t),
    decreases s.len(),
{
    broadcast use vstd::seq_lib::group_to_multiset_ensures;
    if s.len() == 0 {
        assert(seq![t] =~= Seq::<TaskView>::empty().push(t));
    } else if task_key(s.last()) <= task_key(t) {
    } else {
        let d = s.drop_last();
        lemma_insert_keeps_sorted(d, t);
        let r = insert_by_key(d, t);
        assert(s =~= d.push(s.last()));
        assert forall|x: TaskView| r.contains(x) implies task_key(x) <= task_key(s.last()) by {
            assert(r.to_multiset().count(x) > 0);
            assert(d.to_multiset().insert(t).count(x) > 0);
            if x != t {
                assert(d.to_multiset().count(x) > 0);
                let k = choose|k: int| 0 <= k < d.len() && d[k] == x;
                assert(s[k] == d[k]);
            }
        }
        assert forall|i: int, j: int| 0 <= i < j < r.len() + 1 implies task_key(
            r.push(s.last())[i],
        ) <= task_key(r.push(s.last())[j]) by {
            if j == r.len() {
                assert(r.contains(r[i]));
            }
        }
    }
}

/// The law of ordering: the result is sorted by numeric id and holds exactly
/// the tasks it was given.
pub proof fn lemma_sorted_by_id(s: Seq<TaskView>)
    ensures
        is_sorted_by_key(sorted_by_id(s)),
        sorted_by_id(s).to_multiset() == s.to_multiset(),
    decreases s.len(),
{
    broadcast use vstd::seq_lib::group_to_multiset_ensures;
    if s.len() > 0 {
        lemma_sorted_by_id(s.drop_last());
        lemma_insert_keeps_sorted(sorted_by_id(s.drop_last()), s.last());
        assert(s =~= s.drop_last().push(s.last()));
    }
}

/// Orders tasks by the numeric value of their ids, ascending; ids that are not
/// numbers count as `0`, and tasks with equal keys keep their order.
pub fn sort_tasks_by_id(tasks: Vec<Task>) -> (r: Vec<Task>)
    ensures
        task_views(r@) == sorted_by_id(task_views(tasks@)),
        is_sorted_by_key(task_views(r@)),
        task_views(r@).to_multiset() == task_views(tasks@).to_multiset(),
{
    let ghost input = task_views(tasks@);
    let ghost orig = tasks@;
    let total = tasks.len();
    let mut rest = tasks;
    let mut out: Vec<Task> = Vec::new();
    let mut keys: Vec<u32> = Vec::new();
    let mut n: usize = 0;
    while rest.len() > 0
        invariant
            n + rest.len() == input.len(),
            input.len() == total,
            input == task_views(orig),
            rest@ == orig.skip(n as int),
            task_views(out@) == sorted_by_id(input.take(n as int)),
            keys.len() == out.len(),
            forall|m: int| 0 <= m < out.len() ==> keys@[m] as nat == task_key(#[trigger] out@[m]@),
        decreases rest.len(),
    {
        let t = rest.remove(0);
        assert(input.take(n + 1).drop_last() == input.take(n as int));
        assert(input.take(n + 1).last() == t@);
        let k = numeric_id_of(t.id.as_str());
        let mut j: usize = out.len();
        while j > 0 && keys[j - 1] > k
            invariant
                j <= out.len(),
                keys.len() == out.len(),
                forall|m: int| 0 <= m < out.len() ==> keys@[m] as nat == task_key(#[trigger] out@[m]@),
                forall|m: int| j <= m < out.len() ==> task_key(#[trigger] out@[m]@) > task_key(t@),
                k as nat == task_key(t@),
            decreases j,
        {
            j = j - 1;
        }
        let ghost before_out = out@;
        let ghost before_keys = keys@;
        proof {
            lemma_insert_at(task_views(before_out), t@, j as int);
        }
        out.insert(j, t);
        keys.insert(j, k);
        assert(task_views(out@) =~= task_views(before_out).insert(j as int, t@));
        assert forall|m: int| 0 <= m < out.len() implies keys@[m] as nat == task_key(
            #[trigger] out@[m]@,
        ) by {
            if m < j {
                assert(out@[m] == before_out[m] && keys@[m] == before_keys[m]);
            } else if m > j {
                assert(out@[m] == before_out[m - 1] && keys@[m] == before_keys[m - 1]);
            }
        }
        n = n + 1;
        assert(rest@ =~= orig.skip(n as int));
    }
    assert(input.take(n as int) == input);
    proof {
        lemma_sorted_by_id(input);
    }
    out
}

} // verus!
