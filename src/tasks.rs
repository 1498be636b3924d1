//! The task store: one ordered collection of tasks per user id.
use crate::domains::{Task, TaskView, text_of};
use std::collections::HashMap;
use vstd::prelude::*;

verus! {

/// The tasks of `s` whose id differs from `id`, in their order.
pub open spec fn without_id(s: Seq<Task>, id: u32) -> Seq<Task> {
    s.filter(|t: Task| t.id != id)
}

/// Whether some task of `s` has the id `id`.
pub open spec fn has_id(s: Seq<Task>, id: u32) -> bool {
    exists|i: int| 0 <= i < s.len() && #[trigger] s[i].id == id
}

/// `k` is the position of the first task of `s` with the id `id`.
pub open spec fn is_first_with_id(s: Seq<Task>, id: u32, k: int) -> bool {
    &&& 0 <= k < s.len()
    &&& s[k].id == id
    &&& forall|j: int| 0 <= j < k ==> #[trigger] s[j].id != id
}

/// The position of the first task of `s` with the id `id`.
pub open spec fn first_with_id(s: Seq<Task>, id: u32) -> int {
    choose|k: int| is_first_with_id(s, id, k)
}

/// The position just after the last task of `s`, counted from the end, whose id
/// is at most `id`: where a stable insertion by id puts a task with that id.
pub open spec fn slot_for(s: Seq<Task>, id: u32) -> int
    decreases s.len(),
{
    if s.len() == 0 {
        0
    } else if s.last().id <= id {
        s.len() as int
    } else {
        slot_for(s.drop_last(), id)
    }
}

/// `s` with `t` inserted after every element whose id is at most `t.id` that
/// ends `s`: one step of a stable insertion sort.
pub open spec fn insert_by_id(s: Seq<Task>, t: Task) -> Seq<Task> {
    s.insert(slot_for(s, t.id), t)
}

/// `s` sorted by ascending id, tasks with equal ids kept in their order.
pub open spec fn sort_by_id(s: Seq<Task>) -> Seq<Task>
    decreases s.len(),
{
    if s.len() == 0 {
        s
    } else {
        insert_by_id(sort_by_id(s.drop_last()), s.last())
    }
}

/// The task that results from applying an update to `old`: every field given
/// replaces the current one, the others are kept; `completed` is always set.
pub open spec fn merged_task(
    old: TaskView,
    name: Option<Seq<char>>,
    description: Option<Seq<char>>,
    deadline: Option<Seq<char>>,
    completed: bool,
) -> TaskView {
    TaskView {
        id: old.id,
        name: match name {
            Some(n) => n,
            None => old.name,
        },
        description: match description {
            Some(d) => d,
            None => old.description,
        },
        deadline: match deadline {
            Some(d) => d,
            None => old.deadline,
        },
        completed,
    }
}

proof fn lemma_slot_bounds(s: Seq<Task>, id: u32)
    ensures
        0 <= slot_for(s, id) <= s.len(),
    decreases s.len(),
{
    if s.len() > 0 {
        lemma_slot_bounds(s.drop_last(), id);
    }
}

proof fn lemma_insert_by_id_elements(s: Seq<Task>, t: Task)
    ensures
        insert_by_id(s, t).len() == s.len() + 1,
        forall|x: Task| #[trigger] insert_by_id(s, t).contains(x) <==> (x == t || s.contains(x)),
{
    let k = slot_for(s, t.id);
    lemma_slot_bounds(s, t.id);
    let r = s.insert(k, t);
    assert forall|x: Task| #[trigger] r.contains(x) <==> (x == t || s.contains(x)) by {
        if r.contains(x) {
            let j = choose|j: int| 0 <= j < r.len() && r[j] == x;
            if j > k {
                assert(s[j - 1] == x);
            }
        }
        if x == t {
            assert(r[k] == t);
        } else if s.contains(x) {
            let j = choose|j: int| 0 <= j < s.len() && s[j] == x;
            if j < k {
                assert(r[j] == x);
            } else {
                assert(r[j + 1] == x);
            }
        }
    }
}

/// Sorting by id keeps exactly the tasks it is given.
pub proof fn lemma_sort_by_id_elements(s: Seq<Task>)
    ensures
        sort_by_id(s).len() == s.len(),
        forall|x: Task| #[trigger] sort_by_id(s).contains(x) <==> s.contains(x),
    decreases s.len(),
{
    if s.len() > 0 {
        lemma_sort_by_id_elements(s.drop_last());
        lemma_insert_by_id_elements(sort_by_id(s.drop_last()), s.last());
        assert forall|x: Task| #[trigger] s.contains(x) <==> (x == s.last() || s.drop_last().contains(x)) by {
            if s.contains(x) {
                let j = choose|j: int| 0 <= j < s.len() && s[j] == x;
                if j < s.len() - 1 {
                    assert(s.drop_last()[j] == x);
                }
            }
            if s.drop_last().contains(x) {
                let j = choose|j: int| 0 <= j < s.drop_last().len() && s.drop_last()[j] == x;
                assert(s[j] == x);
            }
        }
    }
}

/// Whether the ids of `s` never decrease.
pub open spec fn ids_ascending(s: Seq<Task>) -> bool {
    forall|i: int, j: int| 0 <= i < j < s.len() ==> #[trigger] s[i].id <= #[trigger] s[j].id
}

proof fn lemma_slot_splits(s: Seq<Task>, id: u32)
    requires
        ids_ascending(s),
    ensures
        forall|j: int| 0 <= j < slot_for(s, id) ==> #[trigger] s[j].id <= id,
        forall|j: int| slot_for(s, id) <= j < s.len() ==> #[trigger] s[j].id > id,
    decreases s.len(),
{
    if s.len() > 0 {
        if s.last().id <= id {
            assert forall|j: int| 0 <= j < slot_for(s, id) implies #[trigger] s[j].id <= id by {
                if j < s.len() - 1 {
                    assert(s[j].id <= s[s.len() - 1].id);
                }
            }
        } else {
            let d = s.drop_last();
            assert(ids_ascending(d)) by {
                assert forall|i: int, j: int| 0 <= i < j < d.len() implies #[trigger] d[i].id <= #[trigger] d[j].id by {
                    assert(s[i].id <= s[j].id);
                }
            }
            lemma_slot_splits(d, id);
            lemma_slot_bounds(d, id);
            assert forall|j: int| slot_for(s, id) <= j < s.len() implies #[trigger] s[j].id > id by {
                if j < s.len() - 1 {
                    assert(d[j] == s[j]);
                }
            }
            assert forall|j: int| 0 <= j < slot_for(s, id) implies #[trigger] s[j].id <= id by {
                assert(d[j] == s[j]);
            }
        }
    }
}

/// Sorting by id yields a collection whose ids never decrease.
pub proof fn lemma_sort_by_id_ascending(s: Seq<Task>)
    ensures
        ids_ascending(sort_by_id(s)),
    decreases s.len(),
{
    if s.len() > 0 {
        let p = sort_by_id(s.drop_last());
        let t = s.last();
        lemma_sort_by_id_ascending(s.drop_last());
        lemma_slot_splits(p, t.id);
        lemma_slot_bounds(p, t.id);
        let k = slot_for(p, t.id);
        let r = p.insert(k, t);
        assert forall|i: int, j: int| 0 <= i < j < r.len() implies #[trigger] r[i].id <= #[trigger] r[j].id by {
            if j < k {
                assert(r[i] == p[i] && r[j] == p[j]);
            } else if j == k {
                assert(r[i] == p[i]);
            } else if i < k {
                assert(r[i] == p[i] && r[j] == p[j - 1]);
            } else if i == k {
                assert(r[j] == p[j - 1]);
            } else {
                assert(r[i] == p[i - 1] && r[j] == p[j - 1]);
            }
        }
    }
}

/// Dropping an id that no task has leaves the collection as it is.
pub proof fn lemma_without_absent_id(s: Seq<Task>, id: u32)
    requires
        !has_id(s, id),
    ensures
        without_id(s, id) == s,
    decreases s.len(),
{
    reveal(Seq::filter);
    if s.len() > 0 {
        assert(!has_id(s.drop_last(), id)) by {
            if has_id(s.drop_last(), id) {
                let j = choose|j: int| 0 <= j < s.drop_last().len() && #[trigger] s.drop_last()[j].id == id;
                assert(s[j].id == id);
            }
        }
        lemma_without_absent_id(s.drop_last(), id);
        assert(s[s.len() - 1].id != id);
        assert(s.drop_last().push(s.last()) =~= s);
    }
}

/// A created task is the last one that the user's collection then lists, with
/// the fields it was given and not completed; the tasks before it stay.
pub proof fn lemma_create_then_list(
    m: Map<u32, Seq<Task>>,
    user: u32,
    name: String,
    description: String,
    deadline: String,
)
    requires
        tasks_of(m, user).len() < u32::MAX,
    ensures
        ({
            let before = tasks_of(m, user);
            let t = Task {
                id: before.len() as u32,
                name,
                description,
                deadline,
                completed: false,
            };
            let after = tasks_of(m.insert(user, before.push(t)), user);
            &&& after.len() == before.len() + 1
            &&& after.take(before.len() as int) == before
            &&& after.last()@ == (TaskView {
                id: before.len() as u32,
                name: name@,
                description: description@,
                deadline: deadline@,
                completed: false,
            })
        }),
{
    let before = tasks_of(m, user);
    let t = Task { id: before.len() as u32, name, description, deadline, completed: false };
    assert(before.push(t).take(before.len() as int) =~= before);
}

/// An update that sets only `completed` keeps the task's id, name,
/// description and deadline; listing afterwards shows that task as the only
/// one with its id.
pub proof fn lemma_update_completed_only(s: Seq<Task>, task_id: u32, completed: bool, t: Task)
    requires
        has_id(s, task_id),
        t@ == merged_task(s[first_with_id(s, task_id)]@, None, None, None, completed),
    ensures
        ({
            let old_t = s[first_with_id(s, task_id)];
            let after = sort_by_id(without_id(s, task_id).push(t));
            &&& t.id == task_id
            &&& t.name@ == old_t.name@
            &&& t.description@ == old_t.description@
            &&& t.deadline@ == old_t.deadline@
            &&& t.completed == completed
            &&& after.contains(t)
            &&& forall|i: int| 0 <= i < after.len() && #[trigger] after[i].id == task_id ==> after[i] == t
        }),
{
    broadcast use vstd::seq_lib::group_filter_ensures;

    let k = first_with_id(s, task_id);
    let j0 = choose|j: int| 0 <= j < s.len() && #[trigger] s[j].id == task_id;
    assert(is_first_with_id(s, task_id, k)) by {
        lemma_first_with_id_exists(s, task_id, j0);
    }
    let rest = without_id(s, task_id);
    let pushed = rest.push(t);
    let after = sort_by_id(pushed);
    lemma_sort_by_id_elements(pushed);
    assert(pushed[rest.len() as int] == t);
    assert forall|i: int| 0 <= i < after.len() && #[trigger] after[i].id == task_id implies after[i] == t by {
        assert(after.contains(after[i]));
        assert(pushed.contains(after[i]));
        let j = choose|j: int| 0 <= j < pushed.len() && pushed[j] == after[i];
        if j < rest.len() {
            assert(pushed[j] == rest[j]);
        }
    }
}

proof fn lemma_first_with_id_exists(s: Seq<Task>, id: u32, j: int)
    requires
        0 <= j < s.len(),
        s[j].id == id,
    ensures
        is_first_with_id(s, id, first_with_id(s, id)),
    decreases j,
{
    if forall|i: int| 0 <= i < j ==> #[trigger] s[i].id != id {
        assert(is_first_with_id(s, id, j));
    } else {
        let i = choose|i: int| 0 <= i < j && #[trigger] s[i].id == id;
        lemma_first_with_id_exists(s, id, i);
    }
}

/// Copies the tasks of `v` whose id differs from `id`.
fn copy_without_id(v: &Vec<Task>, id: u32) -> (r: Vec<Task>)
    ensures
        r@ == without_id(v@, id),
{
    let mut r: Vec<Task> = Vec::new();
    let mut i: usize = 0;
    while i < v.len()
        invariant
            i <= v@.len(),
            r@ == without_id(v@.take(i as int), id),
        decreases v@.len() - i,
    {
        proof {
            reveal(Seq::filter);
            assert(v@.take(i + 1).drop_last() =~= v@.take(i as int));
        }
        if v[i].id != id {
            r.push(v[i].clone());
        }
        i += 1;
    }
    assert(v@.take(v@.len() as int) =~= v@);
    r
}

/// The position of the first task of `v` with the id `id`, if any.
fn find_id(v: &Vec<Task>, id: u32) -> (r: Option<usize>)
    ensures
        match r {
            Some(k) => is_first_with_id(v@, id, k as int),
            None => !has_id(v@, id),
        },
{
    let mut i: usize = 0;
    while i < v.len()
        invariant
            i <= v@.len(),
            forall|j: int| 0 <= j < i ==> #[trigger] v@[j].id != id,
        decreases v@.len() - i,
    {
        if v[i].id == id {
            return Some(i);
        }
        i += 1;
    }
    None
}

/// Inserts `t` into `v` as one step of a stable insertion sort by id.
fn insert_sorted(v: &mut Vec<Task>, t: Task)
    ensures
        final(v)@ == insert_by_id(old(v)@, t),
{
    let ghost s = v@;
    let mut k: usize = v.len();
    assert(s.take(s.len() as int) =~= s);
    while k > 0 && v[k - 1].id > t.id
        invariant
            v@ == s,
            k <= s.len(),
            slot_for(s, t.id) == slot_for(s.take(k as int), t.id),
        decreases k,
    {
        proof {
            assert(s.take(k as int).drop_last() =~= s.take(k - 1));
        }
        k -= 1;
    }
    v.insert(k, t);
}

/// `v` sorted by ascending id, tasks with equal ids kept in their order.
fn sorted_by_id(v: &Vec<Task>) -> (r: Vec<Task>)
    ensures
        r@ == sort_by_id(v@),
{
    let mut r: Vec<Task> = Vec::new();
    let mut i: usize = 0;
    while i < v.len()
        invariant
            i <= v@.len(),
            r@ == sort_by_id(v@.take(i as int)),
        decreases v@.len() - i,
    {
        proof {
            assert(v@.take(i + 1).drop_last() =~= v@.take(i as int));
        }
        insert_sorted(&mut r, v[i].clone());
        i += 1;
    }
    assert(v@.take(v@.len() as int) =~= v@);
    r
}

/// Why a task operation was refused.
#[derive(Debug, Clone, Copy, PartialEq, Eq, Structural)]
pub enum StoreError {
    /// The user has no task collection, or the task is not in it.
    NotFound,
}

/// Per-user task collections. Each collection keeps its tasks in insertion
/// order until an update sorts it by id.
pub struct TaskStore {
    tasks: HashMap<u32, Vec<Task>>,
}

/// The tasks that `m` holds for `user`; none if it has no collection for them.
pub open spec fn tasks_of(m: Map<u32, Seq<Task>>, user: u32) -> Seq<Task> {
    if m.contains_key(user) {
        m[user]
    } else {
        Seq::empty()
    }
}

impl View for TaskStore {
    type V = Map<u32, Seq<Task>>;

    closed spec fn view(&self) -> Map<u32, Seq<Task>> {
        self.tasks@.map_values(|v: Vec<Task>| v@)
    }
}

impl TaskStore {
    /// A store without any collection.
    pub fn new() -> (r: TaskStore)
        ensures
            r@ == Map::<u32, Seq<Task>>::empty(),
    {
        let r = TaskStore { tasks: HashMap::new() };
        assert(r@ =~= Map::<u32, Seq<Task>>::empty());
        r
    }

    /// Takes the collection of `user` out of the store, or an empty one.
    fn take_collection(&mut self, user: u32) -> (r: Vec<Task>)
        ensures
            r@ == tasks_of(old(self)@, user),
            final(self)@ == old(self)@.remove(user),
    {
        let r = match self.tasks.remove(&user) {
            Some(v) => v,
            None => Vec::new(),
        };
        assert(self@ =~= old(self)@.remove(user));
        r
    }

    /// Puts `v` in the store as the collection of `user`.
    fn put_collection(&mut self, user: u32, v: Vec<Task>)
        ensures
            final(self)@ == old(self)@.insert(user, v@),
    {
        let ghost w = v@;
        self.tasks.insert(user, v);
        assert(self@ =~= old(self)@.insert(user, w));
    }

    /// Appends a new, uncompleted task to the collection of `user` (made if
    /// absent) and returns its id: the collection's length before the call.
    pub fn create(&mut self, user: u32, name: String, description: String, deadline: String) -> (id: u32)
        requires
            tasks_of(old(self)@, user).len() < u32::MAX,
        ensures
            id == tasks_of(old(self)@, user).len(),
            final(self)@ == old(self)@.insert(
                user,
                tasks_of(old(self)@, user).push(
                    Task { id, name, description, deadline, completed: false },
                ),
            ),
    {
        let mut v = self.take_collection(user);
        let id = v.len() as u32;
        v.push(Task { id, name, description, deadline, completed: false });
        self.put_collection(user, v);
        proof {
            assert(old(self)@.remove(user).insert(user, v@) =~= old(self)@.insert(user, v@));
        }
        id
    }

    /// The number of tasks of `user`.
    pub fn count(&self, user: u32) -> (r: usize)
        ensures
            r == tasks_of(self@, user).len(),
    {
        match self.tasks.get(&user) {
            Some(v) => v.len(),
            None => 0,
        }
    }

    /// Whether `user` has a task with the id `task_id`.
    pub fn has_task(&self, user: u32, task_id: u32) -> (r: bool)
        ensures
            r == (self@.contains_key(user) && has_id(self@[user], task_id)),
    {
        match self.tasks.get(&user) {
            Some(v) => find_id(v, task_id).is_some(),
            None => false,
        }
    }

    /// A copy of the tasks of `user`, in order; empty if they have none.
    pub fn list(&self, user: u32) -> (r: Vec<Task>)
        ensures
            r@ == tasks_of(self@, user),
    {
        let mut r: Vec<Task> = Vec::new();
        match self.tasks.get(&user) {
            Some(v) => {
                let mut i: usize = 0;
                while i < v.len()
                    invariant
                        i <= v@.len(),
                        r@ == v@.take(i as int),
                    decreases v@.len() - i,
                {
                    r.push(v[i].clone());
                    i += 1;
                    assert(r@ =~= v@.take(i as int));
                }
                assert(v@.take(v@.len() as int) =~= v@);
            },
            None => {},
        }
        r
    }

    /// Replaces the task `task_id` of `user` by its merge with the given
    /// fields, drops every other task with that id, and sorts the collection
    /// by id. The merge starts from the first task with that id.
    pub fn update(
        &mut self,
        user: u32,
        task_id: u32,
        name: Option<String>,
        description: Option<String>,
        deadline: Option<String>,
        completed: bool,
    ) -> (r: Result<Task, StoreError>)
        ensures
            match r {
                Ok(t) => {
                    let s = old(self)@[user];
                    &&& old(self)@.contains_key(user)
                    &&& has_id(s, task_id)
                    &&& t@ == merged_task(
                        s[first_with_id(s, task_id)]@,
                        text_of(name),
                        text_of(description),
                        text_of(deadline),
                        completed,
                    )
                    &&& final(self)@ == old(self)@.insert(
                        user,
                        sort_by_id(without_id(s, task_id).push(t)),
                    )
                },
                Err(e) => {
                    &&& e == StoreError::NotFound
                    &&& !(old(self)@.contains_key(user) && has_id(old(self)@[user], task_id))
                    &&& final(self)@ == old(self)@
                },
            },
    {
        let v = match self.tasks.get(&user) {
            Some(v) => v,
            None => {
                return Err(StoreError::NotFound);
            },
        };
        let k = match find_id(v, task_id) {
            Some(k) => k,
            None => {
                return Err(StoreError::NotFound);
            },
        };
        proof {
            let c = first_with_id(v@, task_id);
            assert(is_first_with_id(v@, task_id, c));
            assert(c == k);
        }
        let current = &v[k];
        let updated = Task {
            id: task_id,
            name: match name {
                Some(n) => n,
                None => current.name.clone(),
            },
            description: match description {
                Some(d) => d,
                None => current.description.clone(),
            },
            deadline: match deadline {
                Some(d) => d,
                None => current.deadline.clone(),
            },
            completed,
        };
        let mut rest = copy_without_id(v, task_id);
        rest.push(updated.clone());
        let sorted = sorted_by_id(&rest);
        self.put_collection(user, sorted);
        Ok(updated)
    }

    /// Removes every task with the id `task_id` from the collection of
    /// `user`; an id that is absent leaves the collection as it is.
    pub fn delete(&mut self, user: u32, task_id: u32) -> (r: Result<(), StoreError>)
        ensures
            match r {
                Ok(()) => {
                    &&& old(self)@.contains_key(user)
                    &&& final(self)@ == old(self)@.insert(
                        user,
                        without_id(old(self)@[user], task_id),
                    )
                },
                Err(e) => {
                    &&& e == StoreError::NotFound
                    &&& !old(self)@.contains_key(user)
                    &&& final(self)@ == old(self)@
                },
            },
    {
        let rest = match self.tasks.get(&user) {
            Some(v) => copy_without_id(v, task_id),
            None => {
                return Err(StoreError::NotFound);
            },
        };
        self.put_collection(user, rest);
        Ok(())
    }
}

} // verus!
