//! The task list and its operations.

use vstd::prelude::*;
use crate::vals::TaskStatus;
use crate::text::trim_owned;

verus! {

/// A task as contracts see it: id, name and status.
pub type TaskView = (u16, Seq<char>, TaskStatus);

/// The view of one stored task.
pub open spec fn task_view(t: (u16, String, TaskStatus)) -> TaskView {
    (t.0, t.1@, t.2)
}

/// The view of a sequence of stored tasks.
pub open spec fn tasks_view(s: Seq<(u16, String, TaskStatus)>) -> Seq<TaskView> {
    s.map_values(|t: (u16, String, TaskStatus)| task_view(t))
}

/// Whether some task of `s` has the id `id`.
pub open spec fn has_id(s: Seq<TaskView>, id: int) -> bool {
    exists|i: int| 0 <= i < s.len() && #[trigger] s[i].0 == id
}

/// Whether `i` is the first position of `s` that holds the id `id`.
pub open spec fn is_first_index(s: Seq<TaskView>, id: int, i: int) -> bool {
    &&& 0 <= i < s.len()
    &&& s[i].0 == id
    &&& forall|j: int| 0 <= j < i ==> #[trigger] s[j].0 != id
}

/// The first position of `s` that holds the id `id` (meaningful when
/// `has_id(s, id)`).
pub open spec fn first_index(s: Seq<TaskView>, id: int) -> int {
    choose|i: int| is_first_index(s, id, i)
}

/// `s` after removing the first task with the id `id`, if there is one.
pub open spec fn removed(s: Seq<TaskView>, id: int) -> Seq<TaskView> {
    if has_id(s, id) {
        s.remove(first_index(s, id))
    } else {
        s
    }
}

/// Whether `k` is the smallest positive id that no task of `s` uses.
pub open spec fn is_next_free_id(s: Seq<TaskView>, k: int) -> bool {
    &&& 1 <= k
    &&& !has_id(s, k)
    &&& forall|j: int| 1 <= j < k ==> has_id(s, j)
}

/// The smallest positive id that no task of `s` uses.
pub open spec fn next_free_id(s: Seq<TaskView>) -> int {
    choose|k: int| is_next_free_id(s, k)
}

/// Whether some id in `1..=65535` is still unused in `s`.
pub open spec fn has_free_id(s: Seq<TaskView>) -> bool {
    exists|k: int| 1 <= k <= u16::MAX && !has_id(s, k)
}

/// `s` after adding a task named `name` (trimmed) with status `status`
/// under the smallest free id.
pub open spec fn added(s: Seq<TaskView>, name: Seq<char>, status: TaskStatus) -> Seq<TaskView> {
    s.push((next_free_id(s) as u16, crate::text::trimmed(name), status))
}

/// One task after an edit of the task with id `id`: it gets the name
/// `name`, and the status `status` unless `status` is `Nth`.
pub open spec fn edited_task(t: TaskView, id: int, name: Seq<char>, status: TaskStatus) -> TaskView {
    if t.0 == id {
        (t.0, name, if status == TaskStatus::Nth { t.2 } else { status })
    } else {
        t
    }
}

/// `s` after editing every task with the id `id`.
pub open spec fn edited(s: Seq<TaskView>, id: int, name: Seq<char>, status: TaskStatus) -> Seq<TaskView> {
    s.map_values(|t: TaskView| edited_task(t, id, name, status))
}

/// Holds of a task exactly when its status is `status`.
pub open spec fn status_is(status: TaskStatus) -> spec_fn(TaskView) -> bool {
    |t: TaskView| t.2 == status
}

/// The tasks of `s` with the status `status`, in their order.
pub open spec fn with_status(s: Seq<TaskView>, status: TaskStatus) -> Seq<TaskView> {
    s.filter(status_is(status))
}

/// No two tasks of `s` share an id.
pub open spec fn ids_unique(s: Seq<TaskView>) -> bool {
    forall|i: int, j: int| 0 <= i < s.len() && 0 <= j < s.len() && i != j ==> s[i].0 != s[j].0
}

/// The first position that holds an id is unique.
pub proof fn lemma_first_index(s: Seq<TaskView>, id: int, i: int)
    requires
        is_first_index(s, id, i),
    ensures
        first_index(s, id) == i,
        has_id(s, id),
{
    let c = first_index(s, id);
    assert(is_first_index(s, id, c));
    if c < i {
        assert(s[c].0 != id);
    }
    if i < c {
        assert(s[i].0 != id);
    }
}

/// The smallest free id is unique.
pub proof fn lemma_next_free_id(s: Seq<TaskView>, k: int)
    requires
        is_next_free_id(s, k),
    ensures
        next_free_id(s) == k,
{
    let c = next_free_id(s);
    assert(is_next_free_id(s, c));
    if c < k {
        assert(has_id(s, c));
    }
    if k < c {
        assert(has_id(s, k));
    }
}

/// Whether `s` is in ascending order.
pub open spec fn sorted_ids(s: Seq<u16>) -> bool {
    forall|i: int, j: int| 0 <= i <= j < s.len() ==> s[i] <= s[j]
}

/// Calls `slice::sort_unstable` on a vector of ids: afterwards it is in
/// ascending order and holds the same ids, each as often as before.
#[verifier::external_body]
fn sort_ids(v: &mut Vec<u16>)
    ensures
        sorted_ids(final(v)@),
        final(v)@.to_multiset() == old(v)@.to_multiset(),
{
    v.sort_unstable();
}

/// The stored task list.
pub struct BaseTasks {
    pub alltasks: Vec<(u16, String, TaskStatus)>,
}

impl View for BaseTasks {
    type V = Seq<TaskView>;

    open spec fn view(&self) -> Seq<TaskView> {
        tasks_view(self.alltasks@)
    }
}

impl BaseTasks {
    /// A fresh, empty task list: what a new task file holds.
    pub fn init() -> (b: BaseTasks)
        ensures
            b@ == Seq::<TaskView>::empty(),
    {
        let b = BaseTasks { alltasks: Vec::new() };
        assert(b@ =~= Seq::<TaskView>::empty());
        b
    }

    /// The tasks that a read of the task file yields: those of the parsed
    /// list, or none when the file could not be parsed.
    pub fn read_tasks(parsed: Option<BaseTasks>) -> (tasks: Vec<(u16, String, TaskStatus)>)
        ensures
            match parsed {
                Some(b) => tasks@ == b.alltasks@,
                None => tasks@.len() == 0,
            },
    {
        match parsed {
            Some(b) => b.alltasks,
            None => Vec::new(),
        }
    }

    /// Whether some task of `contents` has the id `id`.
    pub fn check_id(id: u16, contents: &[(u16, String, TaskStatus)]) -> (r: bool)
        ensures
            r == has_id(tasks_view(contents@), id as int),
    {
        let ghost v = tasks_view(contents@);
        let mut i: usize = 0;
        while i < contents.len()
            invariant
                0 <= i <= contents@.len(),
                v == tasks_view(contents@),
                forall|j: int| 0 <= j < i ==> #[trigger] v[j].0 != id,
            decreases contents@.len() - i,
        {
            if contents[i].0 == id {
                assert(v[i as int].0 == id);
                return true;
            }
            i += 1;
        }
        false
    }

    /// Removes the first task with the id `task_id`; tells whether there
    /// was one. The list is unchanged when there was none.
    pub fn remove_task(&mut self, task_id: u16) -> (found: bool)
        ensures
            found == has_id(old(self)@, task_id as int),
            final(self)@ == removed(old(self)@, task_id as int),
    {
        let ghost v = self@;
        let mut i: usize = 0;
        while i < self.alltasks.len()
            invariant
                0 <= i <= self.alltasks@.len(),
                v == self@,
                v == old(self)@,
                forall|j: int| 0 <= j < i ==> #[trigger] v[j].0 != task_id,
            decreases self.alltasks@.len() - i,
        {
            if self.alltasks[i].0 == task_id {
                proof {
                    lemma_first_index(v, task_id as int, i as int);
                }
                self.alltasks.remove(i);
                assert(self@ =~= v.remove(i as int));
                return true;
            }
            i += 1;
        }
        assert(!has_id(v, task_id as int));
        false
    }

    /// Gives every task with the id `task_id` the name `new_name` and,
    /// unless `new_status` is `Nth`, the status `new_status`; tells whether
    /// such a task exists. Other tasks are left as they are.
    pub fn edit_task(&mut self, task_id: u16, new_name: String, new_status: TaskStatus) -> (found: bool)
        ensures
            found == has_id(old(self)@, task_id as int),
            final(self)@ == edited(old(self)@, task_id as int, new_name@, new_status),
    {
        let found = BaseTasks::check_id(task_id, self.alltasks.as_slice());
        let ghost v = self@;
        let ghost target = edited(v, task_id as int, new_name@, new_status);
        let mut i: usize = 0;
        while i < self.alltasks.len()
            invariant
                0 <= i <= self.alltasks@.len(),
                v == old(self)@,
                v.len() == self@.len(),
                target == edited(v, task_id as int, new_name@, new_status),
                forall|j: int| 0 <= j < i ==> #[trigger] self@[j] == target[j],
                forall|j: int| i <= j < self@.len() ==> #[trigger] self@[j] == v[j],
            decreases self.alltasks@.len() - i,
        {
            if self.alltasks[i].0 == task_id {
                let st = if new_status == TaskStatus::Nth {
                    self.alltasks[i].2
                } else {
                    new_status
                };
                let name = new_name.clone();
                assert(target[i as int] == edited_task(v[i as int], task_id as int, new_name@, new_status));
                let ghost before = self.alltasks@;
                let ghost prev = self@;
                assert(v[i as int] == self@[i as int]);
                assert(v[i as int] == task_view(before[i as int]));
                self.alltasks[i] = (task_id, name, st);
                assert(self@[i as int] == task_view(self.alltasks@[i as int]));
                assert(self@[i as int] == target[i as int]);
                assert forall|j: int| 0 <= j < self@.len() && j != i implies #[trigger] self@[j] == prev[j] by {
                    assert(self.alltasks@[j] == before[j]);
                }
            } else {
                assert(target[i as int] == edited_task(v[i as int], task_id as int, new_name@, new_status));
            }
            i += 1;
        }
        assert(self@ =~= target);
        found
    }

    /// The tasks with the status `status`, in list order.
    pub fn tasks_with_status(&self, status: TaskStatus) -> (r: Vec<(u16, String, TaskStatus)>)
        ensures
            tasks_view(r@) == with_status(self@, status),
    {
        let ghost v = self@;
        let mut r: Vec<(u16, String, TaskStatus)> = Vec::new();
        let mut i: usize = 0;
        while i < self.alltasks.len()
            invariant
                0 <= i <= self.alltasks@.len(),
                v == self@,
                tasks_view(r@) == with_status(v.take(i as int), status),
            decreases self.alltasks@.len() - i,
        {
            proof {
                reveal_with_fuel(Seq::<_>::filter, 1);
                assert(v.take(i + 1).drop_last() =~= v.take(i as int));
            }
            if self.alltasks[i].2 == status {
                let t = (self.alltasks[i].0, self.alltasks[i].1.clone(), self.alltasks[i].2);
                r.push(t);
                assert(tasks_view(r@) =~= with_status(v.take(i + 1), status));
            } else {
                assert(tasks_view(r@) =~= with_status(v.take(i + 1), status));
            }
            i += 1;
        }
        assert(v.take(i as int) =~= v);
        r
    }

    /// The id a new task gets: the smallest positive id that no task uses.
    /// The ids are sorted and walked in order until the first gap.
    pub fn next_task_id(&self) -> (taskid: u16)
        requires
            has_free_id(self@),
        ensures
            is_next_free_id(self@, taskid as int),
            taskid == next_free_id(self@),
    {
        let ghost v = self@;
        let mut ids: Vec<u16> = Vec::new();
        let mut i: usize = 0;
        while i < self.alltasks.len()
            invariant
                0 <= i <= self.alltasks@.len(),
                v == self@,
                ids@.len() == i,
                forall|j: int| 0 <= j < i ==> #[trigger] ids@[j] == v[j].0,
            decreases self.alltasks@.len() - i,
        {
            ids.push(self.alltasks[i].0);
            i += 1;
        }
        let ghost unsorted = ids@;
        assert forall|k: int| 0 <= k <= u16::MAX implies (#[trigger] has_id(v, k) <==> unsorted.contains(k as u16)) by {
            if has_id(v, k) {
                let j = choose|j: int| 0 <= j < v.len() && #[trigger] v[j].0 == k;
                assert(unsorted[j] == k as u16);
            }
            if unsorted.contains(k as u16) {
                let j = choose|j: int| 0 <= j < unsorted.len() && unsorted[j] == k as u16;
                assert(v[j].0 == k);
            }
        }
        sort_ids(&mut ids);
        proof {
            broadcast use vstd::seq_lib::group_to_multiset_ensures;
            assert forall|x: u16| #[trigger] ids@.contains(x) <==> unsorted.contains(x) by {
                assert(ids@.contains(x) <==> ids@.to_multiset().count(x) > 0);
                assert(unsorted.contains(x) <==> unsorted.to_multiset().count(x) > 0);
            }
            let w = choose|k: int| 1 <= k <= u16::MAX && !has_id(v, k);
            assert(!ids@.contains(w as u16));
        }
        let n = ids.len();
        let mut taskid: u16 = 1;
        let mut i: usize = 0;
        while i < n
            invariant
                n == ids@.len(),
                0 <= i <= n,
                sorted_ids(ids@),
                1 <= taskid,
                i == 0 ==> taskid == 1,
                i > 0 ==> taskid == ids@[i - 1] + 1,
                forall|k: int| 1 <= k < taskid ==> #[trigger] ids@.contains(k as u16),
                exists|k: int| 1 <= k <= u16::MAX && !#[trigger] ids@.contains(k as u16),
            ensures
                1 <= taskid,
                forall|k: int| 1 <= k < taskid ==> #[trigger] ids@.contains(k as u16),
                !ids@.contains(taskid),
            decreases n - i,
        {
            let id = ids[i];
            if taskid < id {
                assert forall|j: int| 0 <= j < n implies #[trigger] ids@[j] != taskid by {
                    if j < i {
                        assert(ids@[j] <= ids@[i - 1]);
                    } else {
                        assert(ids@[i as int] <= ids@[j]);
                    }
                }
                break;
            }
            assert(ids@.contains(id)) by {
                assert(ids@[i as int] == id);
            }
            proof {
                if id == u16::MAX {
                    let w = choose|k: int| 1 <= k <= u16::MAX && !#[trigger] ids@.contains(k as u16);
                    assert(false);
                }
                if i > 0 {
                    assert(ids@[i - 1] <= ids@[i as int]);
                }
            }
            taskid = id + 1;
            i += 1;
        }
        proof {
            if i == n {
                assert forall|j: int| 0 <= j < n implies #[trigger] ids@[j] != taskid by {
                    assert(ids@[j] <= ids@[n - 1]);
                }
            }
            assert(is_next_free_id(v, taskid as int)) by {
                assert forall|k: int| 1 <= k < taskid implies has_id(v, k) by {
                    assert(ids@.contains(k as u16));
                }
            }
            lemma_next_free_id(v, taskid as int);
        }
        taskid
    }

    /// Adds a task named `task_name` (without its surrounding white space)
    /// with the status `status` at the end of the list, under the smallest
    /// free id, and returns that id.
    pub fn add_task(&mut self, task_name: String, status: TaskStatus) -> (taskid: u16)
        requires
            has_free_id(old(self)@),
        ensures
            taskid == next_free_id(old(self)@),
            final(self)@ == added(old(self)@, task_name@, status),
    {
        let taskid = self.next_task_id();
        let name = trim_owned(task_name.as_str());
        let ghost before = self.alltasks@;
        self.alltasks.push((taskid, name, status));
        assert(self@ =~= tasks_view(before).push((taskid, name@, status)));
        taskid
    }
}

} // verus!
