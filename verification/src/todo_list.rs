//! The task store: an ordered sequence of tasks and every list-level
//! operation on it. Contracts are stated over the store's view, a
//! sequence of task views.

use vstd::prelude::*;
use vstd::multiset::Multiset;
use crate::task::{render_spec, Task, TaskView};
use crate::error::{TodoError, TodoResult};
use crate::cli::UpdateTaskArgs;
use crate::clock::{date_shape, today};
use crate::strings::str_eq;

verus! {

broadcast use vstd::seq_lib::group_seq_properties;

/// Whether some task in `s` bears `name`.
pub open spec fn contains_name(s: Seq<TaskView>, name: Seq<char>) -> bool {
    exists|i: int| 0 <= i < s.len() && s[i].name == name
}

/// The first task in `s` named `name`, if any.
pub open spec fn find_spec(s: Seq<TaskView>, name: Seq<char>) -> Option<TaskView>
    decreases s.len(),
{
    if s.len() == 0 {
        None
    } else if s[0].name == name {
        Some(s[0])
    } else {
        find_spec(s.drop_first(), name)
    }
}

/// The predicate "is not named `name`".
pub open spec fn name_ne(name: Seq<char>) -> spec_fn(TaskView) -> bool {
    |t: TaskView| t.name != name
}

/// The predicate "is not completed".
pub open spec fn not_completed() -> spec_fn(TaskView) -> bool {
    |t: TaskView| !t.completed
}

/// `s` without every task named `name`, order otherwise kept.
pub open spec fn remove_name(s: Seq<TaskView>, name: Seq<char>) -> Seq<TaskView> {
    s.filter(name_ne(name))
}

/// `s` without every completed task, order otherwise kept.
pub open spec fn keep_active(s: Seq<TaskView>) -> Seq<TaskView> {
    s.filter(not_completed())
}

/// The views of a sequence of tasks, element for element.
pub open spec fn task_views(ts: Seq<Task>) -> Seq<TaskView> {
    ts.map_values(|t: Task| t@)
}

/// `t` with its date defaulted to `d` when unset.
pub open spec fn with_date(t: TaskView, d: Seq<char>) -> TaskView {
    TaskView {
        name: t.name,
        description: t.description,
        date: if t.date.len() == 0 {
            d
        } else {
            t.date
        },
        completed: t.completed,
    }
}

/// `t` with its completion flag replaced.
pub open spec fn with_completed(t: TaskView, c: bool) -> TaskView {
    TaskView { name: t.name, description: t.description, date: t.date, completed: c }
}

/// Whether an update request carries at least one replacement value.
pub open spec fn has_patch(p: UpdateTaskArgs) -> bool {
    ||| p.new_name is Some
    ||| p.description is Some
    ||| p.date is Some
    ||| p.completed is Some
}

/// `t` with each field replaced by the patch's value where one is given.
pub open spec fn patched(t: TaskView, p: UpdateTaskArgs) -> TaskView {
    TaskView {
        name: match p.new_name {
            Some(n) => n@,
            None => t.name,
        },
        description: match p.description {
            Some(d) => d@,
            None => t.description,
        },
        date: match p.date {
            Some(d) => d@,
            None => t.date,
        },
        completed: match p.completed {
            Some(c) => c,
            None => t.completed,
        },
    }
}

/// Whether a requested rename collides with a different existing task.
pub open spec fn rename_collision(s: Seq<TaskView>, task_name: Seq<char>, p: UpdateTaskArgs) -> bool {
    match p.new_name {
        Some(n) => n@ != task_name && contains_name(s, n@),
        None => false,
    }
}

/// The store's invariant: no two tasks share a name.
pub open spec fn unique_names(s: Seq<TaskView>) -> bool {
    forall|i: int, j: int| 0 <= i < j < s.len() ==> s[i].name != s[j].name
}

/// The first match exists exactly when some task bears the name, and it
/// is a member of the sequence bearing that name.
pub proof fn lemma_find_spec_contains(s: Seq<TaskView>, name: Seq<char>)
    ensures
        (find_spec(s, name) is Some) <==> contains_name(s, name),
        match find_spec(s, name) {
            Some(t) => t.name == name && s.contains(t),
            None => true,
        },
    decreases s.len(),
{
    if s.len() == 0 {
    } else if s[0].name == name {
        assert(contains_name(s, name));
    } else {
        let s1 = s.drop_first();
        lemma_find_spec_contains(s1, name);
        if contains_name(s, name) {
            let i = choose|i: int| 0 <= i < s.len() && s[i].name == name;
            assert(s1[i - 1] == s[i]);
            assert(contains_name(s1, name));
        }
        if contains_name(s1, name) {
            let i = choose|i: int| 0 <= i < s1.len() && s1[i].name == name;
            assert(s[i + 1] == s1[i]);
            assert(contains_name(s, name));
        }
        match find_spec(s1, name) {
            Some(t) => {
                let i = choose|i: int| 0 <= i < s1.len() && s1[i] == t;
                assert(s[i + 1] == s1[i]);
                assert(s.contains(t));
            },
            None => {},
        }
    }
}

/// Removing a name that no task bears leaves the sequence as it was.
pub proof fn lemma_remove_name_noop(s: Seq<TaskView>, name: Seq<char>)
    ensures
        !contains_name(s, name) ==> remove_name(s, name) == s,
    decreases s.len(),
{
    broadcast use vstd::seq::Seq::lemma_filter_push;

    reveal(Seq::filter);
    if s.len() == 0 {
        assert(remove_name(s, name) =~= s);
    } else {
        let s0 = s.drop_last();
        lemma_remove_name_noop(s0, name);
        assert(s =~= s0.push(s.last()));
        if !contains_name(s, name) {
            assert(forall|i: int| 0 <= i < s0.len() ==> s0[i] == s[i]);
            assert(!contains_name(s0, name));
            assert(remove_name(s, name) =~= s);
        }
    }
}

/// In a store with unique names, removing a present name drops exactly
/// the found task and nothing else.
pub proof fn lemma_remove_unique(s: Seq<TaskView>, name: Seq<char>)
    requires
        unique_names(s),
        contains_name(s, name),
    ensures
        remove_name(s, name).len() == s.len() - 1,
        !contains_name(remove_name(s, name), name),
        match find_spec(s, name) {
            Some(t) => s.to_multiset() == remove_name(s, name).to_multiset().insert(t),
            None => false,
        },
    decreases s.len(),
{
    broadcast use vstd::seq_lib::group_filter_ensures;
    broadcast use vstd::seq_lib::group_to_multiset_ensures;

    reveal(Seq::filter);
    lemma_find_spec_contains(s, name);
    let pred = name_ne(name);
    let s1 = s.drop_first();
    assert(s =~= seq![s[0]] + s1);
    Seq::<TaskView>::filter_distributes_over_add(seq![s[0]], s1, pred);
    assert(seq![s[0]].drop_last() =~= Seq::<TaskView>::empty());
    assert(Seq::<TaskView>::empty().filter(pred) =~= Seq::<TaskView>::empty());
    vstd::seq_lib::lemma_multiset_commutative(seq![s[0]], s1);
    vstd::seq_lib::lemma_multiset_commutative(seq![s[0]], remove_name(s1, name));
    assert(seq![s[0]].to_multiset() =~= Multiset::<TaskView>::empty().insert(s[0])) by {
        assert(seq![s[0]] =~= Seq::<TaskView>::empty().push(s[0]));
        assert(Seq::<TaskView>::empty().to_multiset() =~= Multiset::<TaskView>::empty());
    }
    if s[0].name == name {
        assert(find_spec(s, name) == Some(s[0]));
        assert(forall|i: int, j: int|
            0 <= i < j < s1.len() ==> s1[i] == s[i + 1] && s1[j] == s[j + 1]);
        assert(!contains_name(s1, name)) by {
            if contains_name(s1, name) {
                let i = choose|i: int| 0 <= i < s1.len() && s1[i].name == name;
                assert(s[i + 1] == s1[i]);
            }
        }
        lemma_remove_name_noop(s1, name);
        assert(remove_name(s, name) =~= s1);
        assert(s.to_multiset() =~= remove_name(s, name).to_multiset().insert(s[0]));
        assert(!contains_name(remove_name(s, name), name)) by {
            if contains_name(s1, name) {
            }
        }
    } else {
        assert(contains_name(s1, name)) by {
            let i = choose|i: int| 0 <= i < s.len() && s[i].name == name;
            assert(s1[i - 1] == s[i]);
        }
        assert(unique_names(s1)) by {
            assert(forall|i: int, j: int|
                0 <= i < j < s1.len() ==> s1[i] == s[i + 1] && s1[j] == s[j + 1]);
        }
        lemma_remove_unique(s1, name);
        assert(remove_name(s, name) =~= seq![s[0]] + remove_name(s1, name));
        assert(find_spec(s, name) == find_spec(s1, name));
        let t = find_spec(s1, name)->Some_0;
        assert(!contains_name(remove_name(s, name), name)) by {
            let r = remove_name(s, name);
            if contains_name(r, name) {
                let i = choose|i: int| 0 <= i < r.len() && r[i].name == name;
                if i == 0 {
                } else {
                    assert(r[i] == remove_name(s1, name)[i - 1]);
                    assert(contains_name(remove_name(s1, name), name));
                }
            }
        }
        assert(s.to_multiset() =~= remove_name(s, name).to_multiset().insert(t)) by {
            assert(s.to_multiset() == seq![s[0]].to_multiset().add(s1.to_multiset()));
            assert(s1.to_multiset() == remove_name(s1, name).to_multiset().insert(t));
            assert(remove_name(s, name).to_multiset() == seq![s[0]].to_multiset().add(
                remove_name(s1, name).to_multiset(),
            ));
        }
    }
}

/// The in-memory task store. Order is the order of insertion; a sort by
/// date is imposed only when the store is encoded for saving.
#[derive(Debug)]
pub struct TodoList {
    pub tasks: Vec<Task>,
}

impl View for TodoList {
    type V = Seq<TaskView>;

    open spec fn view(&self) -> Seq<TaskView> {
        task_views(self.tasks@)
    }
}

impl Clone for TodoList {
    /// A copy whose view equals the original's.
    fn clone(&self) -> (r: Self)
        ensures
            r@ == self@,
    {
        let mut ts: Vec<Task> = Vec::new();
        let n = self.tasks.len();
        let mut i: usize = 0;
        while i < n
            invariant
                n == self.tasks.len(),
                i <= n,
                ts@ == self.tasks@.subrange(0, i as int),
            decreases n - i,
        {
            ts.push(self.tasks[i].clone());
            assert(ts@ =~= self.tasks@.subrange(0, i + 1 as int));
            i += 1;
        }
        assert(ts@ =~= self.tasks@);
        TodoList { tasks: ts }
    }
}

impl TodoList {
    /// The empty store.
    pub fn new() -> (r: Self)
        ensures
            r@ == Seq::<TaskView>::empty(),
    {
        let r = TodoList { tasks: Vec::new() };
        proof {
            assert(r@ =~= Seq::<TaskView>::empty());
        }
        r
    }

    /// Appends a task unconditionally.
    pub fn push(&mut self, task: Task)
        ensures
            final(self)@ == old(self)@.push(task@),
    {
        self.tasks.push(task);
        proof {
            assert(self@ =~= old(self)@.push(self.tasks@.last()@));
        }
    }

    /// The first task with the given name, by linear scan.
    pub fn find(&self, name: &str) -> (r: Option<&Task>)
        ensures
            match r {
                Some(t) => find_spec(self@, name@) == Some(t@),
                None => find_spec(self@, name@) is None,
            },
    {
        let n = self.tasks.len();
        let mut i: usize = 0;
        while i < n
            invariant
                n == self.tasks.len(),
                i <= n,
                find_spec(self@, name@) == find_spec(self@.skip(i as int), name@),
            decreases n - i,
        {
            if str_eq(self.tasks[i].name.as_str(), name) {
                proof {
                    assert(self@.skip(i as int)[0] == self@[i as int]);
                }
                return Some(&self.tasks[i]);
            }
            proof {
                assert(self@.skip(i as int).drop_first() =~= self@.skip(i + 1 as int));
                assert(self@.skip(i as int)[0] == self@[i as int]);
            }
            i += 1;
        }
        proof {
            assert(self@.skip(n as int) =~= Seq::<TaskView>::empty());
        }
        None
    }

    /// Deletes every task with the given name, keeping the rest in order.
    pub fn retain(&mut self, name: &str)
        ensures
            final(self)@ == remove_name(old(self)@, name@),
    {
        let ghost s = old(self)@;
        let ghost pred = name_ne(name@);
        let mut kept: Vec<Task> = Vec::new();
        let n = self.tasks.len();
        let mut i: usize = 0;
        proof {
            reveal(Seq::filter);
            assert(s.subrange(0, 0).filter(pred) =~= Seq::<TaskView>::empty());
            assert(task_views(kept@) =~= Seq::<TaskView>::empty());
        }
        while i < n
            invariant
                n == self.tasks.len(),
                i <= n,
                self.tasks@ == old(self).tasks@,
                s == self@,
                pred == name_ne(name@),
                task_views(kept@) == s.subrange(0, i as int).filter(pred),
            decreases n - i,
        {
            let ghost prefix = s.subrange(0, i as int);
            let ghost kv = task_views(kept@);
            let keep = !str_eq(self.tasks[i].name.as_str(), name);
            if keep {
                kept.push(self.tasks[i].clone());
            }
            proof {
                broadcast use vstd::seq::Seq::lemma_filter_push;

                assert(s.subrange(0, i + 1 as int) =~= prefix.push(s[i as int]));
                assert(pred(s[i as int]) == keep);
                if keep {
                    assert(task_views(kept@) =~= kv.push(s[i as int]));
                }
            }
            i += 1;
        }
        proof {
            assert(s.subrange(0, n as int) =~= s);
        }
        self.tasks = kept;
    }

    /// Appends the task unless one of its name already exists; an unset
    /// date is first replaced by the given one.
    pub fn add_dated(&mut self, task: Task, date: String) -> (r: TodoResult<()>)
        ensures
            contains_name(old(self)@, task@.name) ==> r == Err::<(), TodoError>(
                TodoError::DuplicateTask,
            ) && *final(self) == *old(self),
            !contains_name(old(self)@, task@.name) ==> r is Ok && final(self)@ == old(self)@.push(with_date(task@, date@)),
    {
        let ghost t0 = task@;
        let mut task = task;
        if task.date.as_str().is_empty() {
            task.date = date;
        }
        proof {
            lemma_find_spec_contains(self@, t0.name);
        }
        if self.find(task.name.as_str()).is_some() {
            return Err(TodoError::DuplicateTask);
        }
        let ghost pre = self.tasks@;
        let ghost tv = task@;
        self.tasks.push(task);
        proof {
            assert(task_views(self.tasks@) =~= task_views(pre).push(tv));
            assert(tv == with_date(t0, date@));
        }
        Ok(())
    }

    /// Appends the task, assigning today's date where none was given;
    /// fails with `DuplicateTask` when the name is already present.
    pub fn add(&mut self, task: Task) -> (r: TodoResult<()>)
        ensures
            contains_name(old(self)@, task@.name) ==> r == Err::<(), TodoError>(
                TodoError::DuplicateTask,
            ) && *final(self) == *old(self),
            !contains_name(old(self)@, task@.name) && task@.date.len() > 0 ==> r is Ok && final(self)@ == old(self)@.push(task@),
            !contains_name(old(self)@, task@.name) ==> r is Ok && exists|d: Seq<char>|
                #[trigger] date_shape(d) && final(self)@ == old(self)@.push(with_date(task@, d)),
    {
        let ghost t0 = task@;
        let d = today();
        let ghost dv = d@;
        let r = self.add_dated(task, d);
        proof {
            if !contains_name(old(self)@, t0.name) {
                assert(date_shape(dv) && self@ == old(self)@.push(with_date(t0, dv)));
                if t0.date.len() > 0 {
                    assert(with_date(t0, dv) == t0);
                }
            }
        }
        r
    }

    /// Deletes the task of the given name; fails with `TaskNotFound`
    /// when no task bears it.
    pub fn remove(&mut self, task_name: &str) -> (r: TodoResult<()>)
        ensures
            contains_name(old(self)@, task_name@) ==> r is Ok && final(self)@ == remove_name(
                old(self)@,
                task_name@,
            ),
            !contains_name(old(self)@, task_name@) ==> r == Err::<(), TodoError>(
                TodoError::TaskNotFound,
            ) && *final(self) == *old(self),
    {
        proof {
            lemma_find_spec_contains(self@, task_name@);
        }
        if self.find(task_name).is_none() {
            return Err(TodoError::TaskNotFound);
        }
        self.retain(task_name);
        Ok(())
    }

    /// Marks the named task completed, moving it to the end of the
    /// sequence; fails with `TaskNotFound` when absent.
    pub fn complete(&mut self, task_name: &str) -> (r: TodoResult<()>)
        ensures
            match find_spec(old(self)@, task_name@) {
                Some(t) => r is Ok && final(self)@ == remove_name(old(self)@, task_name@).push(
                    with_completed(t, true),
                ),
                None => r == Err::<(), TodoError>(TodoError::TaskNotFound) && *final(self) == *old(self),
            },
    {
        let found: Task = match self.find(task_name) {
            Some(t) => t.clone(),
            None => {
                return Err(TodoError::TaskNotFound);
            },
        };
        let mut found = found;
        found.completed = true;
        self.retain(task_name);
        let ghost pre = self.tasks@;
        let ghost fv = found@;
        self.tasks.push(found);
        proof {
            assert(task_views(self.tasks@) =~= task_views(pre).push(fv));
        }
        Ok(())
    }

    /// Marks the named task not completed, moving it to the end of the
    /// sequence; fails with `TaskNotFound` when absent.
    pub fn uncomplete(&mut self, task_name: &str) -> (r: TodoResult<()>)
        ensures
            match find_spec(old(self)@, task_name@) {
                Some(t) => r is Ok && final(self)@ == remove_name(old(self)@, task_name@).push(
                    with_completed(t, false),
                ),
                None => r == Err::<(), TodoError>(TodoError::TaskNotFound) && *final(self) == *old(self),
            },
    {
        let found: Task = match self.find(task_name) {
            Some(t) => t.clone(),
            None => {
                return Err(TodoError::TaskNotFound);
            },
        };
        let mut found = found;
        found.completed = false;
        self.retain(task_name);
        let ghost pre = self.tasks@;
        let ghost fv = found@;
        self.tasks.push(found);
        proof {
            assert(task_views(self.tasks@) =~= task_views(pre).push(fv));
        }
        Ok(())
    }

    /// Replaces the named task by one with each patched field changed
    /// and every other field kept, appending the replacement at the end.
    /// An empty patch is rejected with `InvalidTaskState`, an unknown
    /// name with `TaskNotFound`, and a rename to the name of a different
    /// existing task with `DuplicateTask`.
    pub fn update(&mut self, task_name: &str, updated_task: UpdateTaskArgs) -> (r: TodoResult<
        TodoList,
    >)
        ensures
            !has_patch(updated_task) ==> r == Err::<TodoList, TodoError>(
                TodoError::InvalidTaskState,
            ) && *final(self) == *old(self),
            has_patch(updated_task) ==> match find_spec(old(self)@, task_name@) {
                None => r == Err::<TodoList, TodoError>(TodoError::TaskNotFound) && *final(self)
                    == *old(self),
                Some(t) => {
                    if rename_collision(old(self)@, task_name@, updated_task) {
                        r == Err::<TodoList, TodoError>(TodoError::DuplicateTask) && *final(self)
                            == *old(self)
                    } else {
                        &&& final(self)@ == remove_name(old(self)@, task_name@).push(
                            patched(t, updated_task),
                        )
                        &&& match r {
                            Ok(l) => l@ == final(self)@,
                            Err(_) => false,
                        }
                    }
                },
            },
    {
        if updated_task.new_name.is_none() && updated_task.description.is_none()
            && updated_task.date.is_none() && updated_task.completed.is_none() {
            return Err(TodoError::InvalidTaskState);
        }
        let found: Task = match self.find(task_name) {
            Some(t) => t.clone(),
            None => {
                return Err(TodoError::TaskNotFound);
            },
        };
        match &updated_task.new_name {
            Some(n) => {
                if !str_eq(n.as_str(), task_name) {
                    proof {
                        lemma_find_spec_contains(self@, n@);
                    }
                    if self.find(n.as_str()).is_some() {
                        return Err(TodoError::DuplicateTask);
                    }
                }
            },
            None => {},
        }
        let new_task = Task {
            name: match updated_task.new_name {
                Some(n) => n,
                None => found.name,
            },
            description: match updated_task.description {
                Some(d) => d,
                None => found.description,
            },
            date: match updated_task.date {
                Some(d) => d,
                None => found.date,
            },
            completed: match updated_task.completed {
                Some(c) => c,
                None => found.completed,
            },
        };
        self.retain(task_name);
        let ghost pre = self.tasks@;
        let ghost nv = new_task@;
        self.tasks.push(new_task);
        proof {
            assert(task_views(self.tasks@) =~= task_views(pre).push(nv));
        }
        Ok(self.clone())
    }

    /// Deletes every completed task, keeping the rest in order.
    pub fn clear_completed(&mut self)
        ensures
            final(self)@ == keep_active(old(self)@),
    {
        let ghost s = old(self)@;
        let ghost pred = not_completed();
        let mut kept: Vec<Task> = Vec::new();
        let n = self.tasks.len();
        let mut i: usize = 0;
        proof {
            reveal(Seq::filter);
            assert(s.subrange(0, 0).filter(pred) =~= Seq::<TaskView>::empty());
            assert(task_views(kept@) =~= Seq::<TaskView>::empty());
        }
        while i < n
            invariant
                n == self.tasks.len(),
                i <= n,
                self.tasks@ == old(self).tasks@,
                s == self@,
                pred == not_completed(),
                task_views(kept@) == s.subrange(0, i as int).filter(pred),
            decreases n - i,
        {
            let ghost prefix = s.subrange(0, i as int);
            let ghost kv = task_views(kept@);
            let keep = !self.tasks[i].completed;
            if keep {
                kept.push(self.tasks[i].clone());
            }
            proof {
                broadcast use vstd::seq::Seq::lemma_filter_push;

                assert(s.subrange(0, i + 1 as int) =~= prefix.push(s[i as int]));
                assert(pred(s[i as int]) == keep);
                if keep {
                    assert(task_views(kept@) =~= kv.push(s[i as int]));
                }
            }
            i += 1;
        }
        proof {
            assert(s.subrange(0, n as int) =~= s);
        }
        self.tasks = kept;
    }

    /// Empties the store unconditionally.
    pub fn clear_all(&mut self)
        ensures
            final(self)@ == Seq::<TaskView>::empty(),
    {
        self.tasks = Vec::new();
        proof {
            assert(task_views(self.tasks@) =~= Seq::<TaskView>::empty());
        }
    }

    /// The display line of every task, in the store's current order.
    pub fn render_lines(&self) -> (r: Vec<String>)
        ensures
            r@.len() == self@.len(),
            forall|i: int| 0 <= i < r@.len() ==> #[trigger] r@[i]@ == render_spec(self@[i]),
    {
        let mut r: Vec<String> = Vec::new();
        let n = self.tasks.len();
        let mut i: usize = 0;
        while i < n
            invariant
                n == self.tasks.len(),
                i <= n,
                r@.len() == i,
                forall|j: int| 0 <= j < i ==> #[trigger] r@[j]@ == render_spec(self@[j]),
            decreases n - i,
        {
            r.push(self.tasks[i].render());
            i += 1;
        }
        r
    }
}

} // verus!
