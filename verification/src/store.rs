use vstd::prelude::*;

use crate::task::Task;
use crate::task::TaskView;

verus! {

/// Holds whenever some record in `s` carries the identifier `id`.
pub open spec fn has_id(s: Seq<TaskView>, id: int) -> bool {
    exists|i: int| 0 <= i < s.len() && s[i].id == id
}

/// The position of the record carrying `id`; meaningful only when
/// `has_id(s, id)` holds and identifiers are unique, which the store
/// guarantees.
pub open spec fn index_of_id(s: Seq<TaskView>, id: int) -> int {
    choose|i: int| 0 <= i < s.len() && s[i].id == id
}

/// No two records carry the same identifier.
pub open spec fn ids_unique(s: Seq<TaskView>) -> bool {
    forall|i: int, j: int| 0 <= i < j < s.len() ==> s[i].id != s[j].id
}

/// Every identifier in `s` lies strictly below `bound`.
pub open spec fn ids_below(s: Seq<TaskView>, bound: int) -> bool {
    forall|i: int| 0 <= i < s.len() ==> s[i].id < bound
}

/// Every record of `s` whose identifier equals `id`, marked done; all other
/// records unchanged.
pub open spec fn mark_done(s: Seq<TaskView>, id: int) -> Seq<TaskView> {
    Seq::new(
        s.len(),
        |i: int|
            if s[i].id == id {
                TaskView { id: s[i].id, title: s[i].title, priority: s[i].priority, done: true }
            } else {
                s[i]
            },
    )
}

/// The models of the tasks in `s`, in order.
pub open spec fn task_views(s: Seq<Task>) -> Seq<TaskView> {
    s.map_values(|t: Task| t@)
}

/// The models of the tasks referred to by `s`, in order.
pub open spec fn ref_views(s: Seq<&Task>) -> Seq<TaskView> {
    s.map_values(|t: &Task| t@)
}

/// The records of `s` whose priority equals `p`, in their original order.
pub open spec fn with_priority(s: Seq<TaskView>, p: Seq<char>) -> Seq<TaskView> {
    s.filter(|tv: TaskView| tv.priority == p)
}

/// The position of the first task in `tasks` whose identifier equals
/// `task_id`, or `None` when no task matches.
fn find_index(tasks: &Vec<Task>, task_id: i32) -> (r: Option<usize>)
    ensures
        match r {
            Some(i) => i < tasks@.len() && tasks@[i as int].id == task_id,
            None => forall|j: int| 0 <= j < tasks@.len() ==> tasks@[j].id != task_id,
        },
{
    let n = tasks.len();
    let mut i: usize = 0;
    while i < n
        invariant
            i <= n,
            n == tasks@.len(),
            forall|j: int| 0 <= j < i ==> tasks@[j].id != task_id,
        decreases n - i,
    {
        if tasks[i].id == task_id {
            return Some(i);
        }
        i = i + 1;
    }
    None
}

/// The store: an ordered collection of tasks (insertion order is creation
/// order) together with the next identifier to issue. Identifiers are unique,
/// never reused, and always strictly below `next_id`.
pub struct TaskManager {
    tasks: Vec<Task>,
    next_id: i32,
}

impl View for TaskManager {
    type V = Seq<TaskView>;

    closed spec fn view(&self) -> Seq<TaskView> {
        task_views(self.tasks@)
    }
}

impl TaskManager {
    /// The identifier the next added task will receive.
    pub closed spec fn next_id(self) -> int {
        self.next_id as int
    }

    #[verifier::type_invariant]
    spec fn wf(self) -> bool {
        &&& 1 <= self.next_id
        &&& ids_below(self@, self.next_id as int)
        &&& ids_unique(self@)
    }

    /// An empty store whose first issued identifier will be 1.
    pub fn new() -> (m: TaskManager)
        ensures
            m@ == Seq::<TaskView>::empty(),
            m.next_id() == 1,
    {
        let m = TaskManager { tasks: Vec::new(), next_id: 1 };
        proof {
            assert(m@ =~= Seq::<TaskView>::empty());
        }
        m
    }

    /// Creates a task with the next identifier, `done` false, and the given
    /// labels, appends it to the collection, and returns a copy of it.
    /// Always succeeds; the bound on `next_id` is only the machine limit on
    /// the identifier counter.
    pub fn add_task(&mut self, title: String, priority: String) -> (t: Task)
        requires
            old(self).next_id() < i32::MAX,
        ensures
            t@ == (TaskView {
                id: old(self).next_id(),
                title: title@,
                priority: priority@,
                done: false,
            }),
            final(self)@ == old(self)@.push(t@),
            final(self).next_id() == old(self).next_id() + 1,
            ids_unique(final(self)@),
            ids_below(final(self)@, final(self).next_id()),
    {
        proof {
            use_type_invariant(&*self);
        }
        let ghost pre = self@;
        let id = self.next_id;
        let mut tasks: Vec<Task> = Vec::new();
        std::mem::swap(&mut tasks, &mut self.tasks);
        proof {
            assert(self@ =~= Seq::<TaskView>::empty());
        }
        self.next_id = id + 1;
        let task = Task { id, title, priority, done: false };
        let result = task.clone();
        tasks.push(task);
        proof {
            let s2 = tasks@.map_values(|t: Task| t@);
            assert(s2 =~= pre.push(result@));
            assert forall|i: int, j: int| 0 <= i < j < s2.len() implies s2[i].id
                != s2[j].id by {
                if j < pre.len() {
                    assert(s2[i] == pre[i] && s2[j] == pre[j]);
                } else {
                    assert(s2[i] == pre[i] && s2[j] == result@);
                    assert(pre[i].id < id as int);
                }
            }
            assert forall|i: int| 0 <= i < s2.len() implies s2[i].id < id + 1 by {
                if i < pre.len() {
                    assert(s2[i] == pre[i]);
                    assert(pre[i].id < id as int);
                } else {
                    assert(s2[i] == result@);
                }
            }
        }
        self.tasks = tasks;
        proof {
            assert(self@ =~= pre.push(result@));
            use_type_invariant(&*self);
        }
        result
    }

    /// Sets the `done` flag of the task whose identifier equals `task_id`;
    /// when no task matches, the store is left unchanged (the lenient
    /// reading: a missing identifier is not an error).
    pub fn complete_task(&mut self, task_id: i32)
        ensures
            final(self)@ == mark_done(old(self)@, task_id as int),
            final(self).next_id() == old(self).next_id(),
            ids_unique(final(self)@),
            ids_below(final(self)@, final(self).next_id()),
    {
        proof {
            use_type_invariant(&*self);
        }
        let ghost pre = self@;
        let mut tasks: Vec<Task> = Vec::new();
        std::mem::swap(&mut tasks, &mut self.tasks);
        proof {
            assert(self@ =~= Seq::<TaskView>::empty());
        }
        match find_index(&tasks, task_id) {
            Some(i) => {
                proof {
                    assert(pre[i as int].id == task_id as int);
                }
                let title = tasks[i].title.clone();
                let priority = tasks[i].priority.clone();
                tasks.set(i, Task { id: task_id, title, priority, done: true });
                proof {
                    let s2 = tasks@.map_values(|t: Task| t@);
                    assert forall|j: int| 0 <= j < s2.len() implies s2[j] == mark_done(
                        pre,
                        task_id as int,
                    )[j] by {
                        if j < i as int {
                            assert(pre[j].id != pre[i as int].id);
                        } else if j > i as int {
                            assert(pre[i as int].id != pre[j].id);
                        }
                    }
                    assert(s2 =~= mark_done(pre, task_id as int));
                }
            },
            None => {
                proof {
                    let s2 = tasks@.map_values(|t: Task| t@);
                    assert(s2 =~= mark_done(pre, task_id as int));
                }
            },
        }
        proof {
            let s2 = tasks@.map_values(|t: Task| t@);
            assert forall|j: int| 0 <= j < s2.len() implies s2[j].id == pre[j].id by {}
            assert(ids_below(s2, self.next_id as int));
            assert(ids_unique(s2));
        }
        self.tasks = tasks;
        proof {
            use_type_invariant(&*self);
        }
    }

    /// Removes the task whose identifier equals `task_id`, shifting later
    /// tasks left to close the gap; when no task matches, the store is left
    /// unchanged. A removed identifier is never reissued, since `next_id`
    /// only ever grows.
    pub fn remove_task(&mut self, task_id: i32)
        ensures
            has_id(old(self)@, task_id as int) ==> final(self)@ == old(self)@.remove(
                index_of_id(old(self)@, task_id as int),
            ),
            has_id(old(self)@, task_id as int) ==> final(self)@.len() == old(self)@.len() - 1,
            !has_id(old(self)@, task_id as int) ==> final(self)@ == old(self)@,
            !has_id(final(self)@, task_id as int),
            final(self).next_id() == old(self).next_id(),
            ids_unique(final(self)@),
            ids_below(final(self)@, final(self).next_id()),
    {
        proof {
            use_type_invariant(&*self);
        }
        let ghost pre = self@;
        let mut tasks: Vec<Task> = Vec::new();
        std::mem::swap(&mut tasks, &mut self.tasks);
        proof {
            assert(self@ =~= Seq::<TaskView>::empty());
        }
        match find_index(&tasks, task_id) {
            Some(i) => {
                proof {
                    assert(pre[i as int].id == task_id as int);
                    assert(has_id(pre, task_id as int));
                }
                tasks.remove(i);
                proof {
                    let s2 = tasks@.map_values(|t: Task| t@);
                    let k = index_of_id(pre, task_id as int);
                    if k < i as int {
                        assert(pre[k].id != pre[i as int].id);
                    } else if k > i as int {
                        assert(pre[i as int].id != pre[k].id);
                    }
                    assert(k == i as int);
                    pre.remove_ensures(i as int);
                    assert(s2 =~= pre.remove(i as int));
                    assert forall|j: int| 0 <= j < s2.len() implies s2[j].id != task_id as int by {
                        if j < i as int {
                            assert(s2[j] == pre[j]);
                            assert(pre[j].id != pre[i as int].id);
                        } else {
                            assert(s2[j] == pre[j + 1]);
                            assert(pre[i as int].id != pre[j + 1].id);
                        }
                    }
                    assert forall|a: int, b: int| 0 <= a < b < s2.len() implies s2[a].id
                        != s2[b].id by {
                        if b < i as int {
                            assert(s2[a] == pre[a] && s2[b] == pre[b]);
                            assert(pre[a].id != pre[b].id);
                        } else if a < i as int {
                            assert(s2[a] == pre[a] && s2[b] == pre[b + 1]);
                            assert(pre[a].id != pre[b + 1].id);
                        } else {
                            assert(s2[a] == pre[a + 1] && s2[b] == pre[b + 1]);
                            assert(pre[a + 1].id != pre[b + 1].id);
                        }
                    }
                    assert forall|j: int| 0 <= j < s2.len() implies s2[j].id < self.next_id
                        as int by {
                        if j < i as int {
                            assert(s2[j] == pre[j]);
                        } else {
                            assert(s2[j] == pre[j + 1]);
                        }
                    }
                    assert(ids_unique(s2) && ids_below(s2, self.next_id as int));
                }
            },
            None => {
                proof {
                    let s2 = tasks@.map_values(|t: Task| t@);
                    assert(s2 =~= pre);
                }
            },
        }
        self.tasks = tasks;
        proof {
            use_type_invariant(&*self);
        }
    }

    /// A read-only view of all tasks, in insertion order.
    pub fn list_tasks(&self) -> (r: &Vec<Task>)
        ensures
            task_views(r@) == self@,
            ids_unique(self@),
            ids_below(self@, self.next_id()),
    {
        proof {
            use_type_invariant(&*self);
        }
        &self.tasks
    }

    /// References to the tasks whose priority equals `priority`, in their
    /// original relative order; empty when none matches.
    pub fn filter_by_priority<'a>(&'a self, priority: &str) -> (r: Vec<&'a Task>)
        ensures
            ref_views(r@) == with_priority(self@, priority@),
    {
        let p: String = priority.to_owned();
        let mut r: Vec<&Task> = Vec::new();
        let n = self.tasks.len();
        let mut i: usize = 0;
        while i < n
            invariant
                i <= n,
                n == self.tasks@.len(),
                p@ == priority@,
                ref_views(r@) == with_priority(self@.subrange(0, i as int), priority@),
            decreases n - i,
        {
            let ghost prefix = self@.subrange(0, i as int);
            if self.tasks[i].priority == p {
                r.push(&self.tasks[i]);
            }
            proof {
                reveal(Seq::filter);
                let next = self@.subrange(0, i + 1);
                assert(next.drop_last() =~= prefix);
                assert(next.last() == self@[i as int]);
                assert(ref_views(r@) =~= with_priority(next, priority@));
            }
            i = i + 1;
        }
        proof {
            assert(self@.subrange(0, n as int) =~= self@);
        }
        r
    }
}

/// Law: completing the same identifier twice is the same as completing it
/// once.
pub proof fn lemma_mark_done_idempotent(s: Seq<TaskView>, id: int)
    ensures
        mark_done(mark_done(s, id), id) == mark_done(s, id),
{
    assert(mark_done(mark_done(s, id), id) =~= mark_done(s, id));
}

/// Law: completing an identifier that no record carries changes nothing.
pub proof fn lemma_mark_done_absent(s: Seq<TaskView>, id: int)
    requires
        !has_id(s, id),
    ensures
        mark_done(s, id) == s,
{
    assert forall|i: int| 0 <= i < s.len() implies mark_done(s, id)[i] == s[i] by {
        assert(s[i].id != id);
    }
    assert(mark_done(s, id) =~= s);
}

/// Law: completing a task neither adds nor removes identifiers.
pub proof fn lemma_mark_done_preserves_ids(s: Seq<TaskView>, id: int, other: int)
    ensures
        has_id(mark_done(s, id), other) == has_id(s, other),
{
    let s2 = mark_done(s, id);
    assert forall|i: int| 0 <= i < s.len() implies s2[i].id == s[i].id by {}
    if has_id(s, other) {
        let i = choose|i: int| 0 <= i < s.len() && s[i].id == other;
        assert(s2[i].id == other);
    }
    if has_id(s2, other) {
        let i = choose|i: int| 0 <= i < s2.len() && s2[i].id == other;
        assert(s[i].id == other);
    }
}

/// Law: an identifier absent from the store stays absent when a task with a
/// different identifier is appended. In particular a removed identifier
/// never reappears in the store: `remove_task` ensures `ids_below`, so the
/// removed identifier lay below `next_id()` at removal, `next_id()` never
/// shrinks, and each later `add_task` appends a record carrying exactly the
/// `next_id()` of its call.
pub proof fn lemma_absent_id_stays_absent(s: Seq<TaskView>, t: TaskView, id: int)
    requires
        !has_id(s, id),
        t.id != id,
    ensures
        !has_id(s.push(t), id),
{
    assert forall|i: int| 0 <= i < s.push(t).len() implies s.push(t)[i].id != id by {
        if i < s.len() {
            assert(s.push(t)[i] == s[i]);
            assert(s[i].id != id);
        } else {
            assert(s.push(t)[i] == t);
        }
    }
}

} // verus!
