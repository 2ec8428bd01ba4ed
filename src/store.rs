use vstd::prelude::*;

use crate::task::{contains_text, occurs_in, Task, TaskView};

verus! {

/// The entries of a store, each task seen through its view.
pub open spec fn entry_views(s: Seq<(i64, Task)>) -> Seq<(i64, TaskView)> {
    s.map_values(|e: (i64, Task)| (e.0, e.1@))
}

/// Some entry of `s` carries the id `k`.
pub open spec fn has_id(s: Seq<(i64, TaskView)>, k: i64) -> bool {
    exists|i: int| 0 <= i < s.len() && s[i].0 == k
}

/// No two entries of `s` carry the same id.
pub open spec fn ids_unique(s: Seq<(i64, TaskView)>) -> bool {
    forall|i: int, j: int| 0 <= i < s.len() && 0 <= j < s.len() && i != j ==> s[i].0 != s[j].0
}

/// The map from id to task that a list of entries describes.
pub open spec fn model(s: Seq<(i64, TaskView)>) -> Map<i64, TaskView> {
    Map::new(
        |k: i64| has_id(s, k),
        |k: i64| s[choose|i: int| 0 <= i < s.len() && s[i].0 == k].1,
    )
}

/// The id that the next added task receives: one past the largest id in
/// use, or 1 for an empty store.
pub open spec fn is_next_id(m: Map<i64, TaskView>, id: int) -> bool {
    if m.dom().is_empty() {
        id == 1
    } else {
        &&& exists|k: i64| m.contains_key(k) && k + 1 == id
        &&& forall|k: i64| m.contains_key(k) ==> k < id
    }
}

/// The id that the next added task receives in `m`.
pub open spec fn next_id_of(m: Map<i64, TaskView>) -> int {
    choose|id: int| is_next_id(m, id)
}

/// The store after a task is added: unchanged when no id is left above the
/// largest in use.
pub open spec fn after_add(m: Map<i64, TaskView>, description: Seq<char>, created_at: i64) -> Map<
    i64,
    TaskView,
> {
    if m.contains_key(i64::MAX) {
        m
    } else {
        m.insert(
            next_id_of(m) as i64,
            TaskView { description, completed: false, created_at },
        )
    }
}

/// At most one id is the next id of a store.
pub proof fn lemma_next_id_unique(m: Map<i64, TaskView>, a: int, b: int)
    requires
        is_next_id(m, a),
        is_next_id(m, b),
    ensures
        a == b,
{
    if !m.dom().is_empty() {
        let ka = choose|k: i64| m.contains_key(k) && k + 1 == a;
        let kb = choose|k: i64| m.contains_key(k) && k + 1 == b;
        assert(ka < b && kb < a);
    }
}

/// The store after the task under `id`, if any, takes `description`.
pub open spec fn after_update(m: Map<i64, TaskView>, id: i64, description: Seq<char>) -> Map<
    i64,
    TaskView,
> {
    if m.contains_key(id) {
        m.insert(
            id,
            TaskView { description, completed: m[id].completed, created_at: m[id].created_at },
        )
    } else {
        m
    }
}

/// The store after the task under `id`, if any, is marked completed.
pub open spec fn after_complete(m: Map<i64, TaskView>, id: i64) -> Map<i64, TaskView> {
    if m.contains_key(id) {
        m.insert(
            id,
            TaskView { description: m[id].description, completed: true, created_at: m[id].created_at },
        )
    } else {
        m
    }
}

/// The tasks of `m` whose description holds `pattern`.
pub open spec fn matching(m: Map<i64, TaskView>, pattern: Seq<char>) -> Map<i64, TaskView> {
    Map::new(
        |k: i64| m.contains_key(k) && occurs_in(pattern, m[k].description),
        |k: i64| m[k],
    )
}

proof fn lemma_model_index(s: Seq<(i64, TaskView)>, i: int)
    requires
        ids_unique(s),
        0 <= i < s.len(),
    ensures
        model(s).contains_key(s[i].0),
        model(s)[s[i].0] == s[i].1,
{
    assert(has_id(s, s[i].0));
}

proof fn lemma_model_push(s: Seq<(i64, TaskView)>, k: i64, v: TaskView)
    requires
        ids_unique(s),
        !has_id(s, k),
    ensures
        ids_unique(s.push((k, v))),
        model(s.push((k, v))) == model(s).insert(k, v),
{
    let t = s.push((k, v));
    assert forall|i: int, j: int| 0 <= i < t.len() && 0 <= j < t.len() && i != j implies t[i].0
        != t[j].0 by {
        if i < s.len() && j < s.len() {
            assert(s[i].0 != s[j].0);
        } else if i < s.len() {
            assert(t[i] == s[i]);
        } else {
            assert(t[j] == s[j]);
        }
    }
    assert forall|x: i64| has_id(t, x) <==> has_id(s, x) || x == k by {
        if has_id(s, x) {
            let i = choose|i: int| 0 <= i < s.len() && s[i].0 == x;
            assert(t[i] == s[i]);
        }
        if x == k {
            assert(t[s.len() as int].0 == k);
        }
    }
    assert forall|x: i64| #[trigger] model(t).contains_key(x) implies model(t)[x] == model(
        s,
    ).insert(k, v)[x] by {
        if x == k {
            lemma_model_index(t, s.len() as int);
        } else {
            let i = choose|i: int| 0 <= i < s.len() && s[i].0 == x;
            assert(t[i] == s[i]);
            lemma_model_index(t, i);
            lemma_model_index(s, i);
        }
    }
    assert(model(t) =~= model(s).insert(k, v));
}

proof fn lemma_model_update(s: Seq<(i64, TaskView)>, i: int, v: TaskView)
    requires
        ids_unique(s),
        0 <= i < s.len(),
    ensures
        ids_unique(s.update(i, (s[i].0, v))),
        model(s.update(i, (s[i].0, v))) == model(s).insert(s[i].0, v),
{
    let k = s[i].0;
    let t = s.update(i, (k, v));
    assert(ids_unique(t));
    assert forall|x: i64| has_id(t, x) <==> has_id(s, x) by {
        if has_id(s, x) {
            let j = choose|j: int| 0 <= j < s.len() && s[j].0 == x;
            assert(t[j].0 == x);
        }
        if has_id(t, x) {
            let j = choose|j: int| 0 <= j < t.len() && t[j].0 == x;
            assert(s[j].0 == x);
        }
    }
    assert forall|x: i64| #[trigger] model(t).contains_key(x) implies model(t)[x] == model(
        s,
    ).insert(k, v)[x] by {
        let j = choose|j: int| 0 <= j < t.len() && t[j].0 == x;
        lemma_model_index(t, j);
        lemma_model_index(s, j);
    }
    assert(model(t) =~= model(s).insert(k, v));
}

proof fn lemma_model_remove(s: Seq<(i64, TaskView)>, i: int)
    requires
        ids_unique(s),
        0 <= i < s.len(),
    ensures
        ids_unique(s.remove(i)),
        model(s.remove(i)) == model(s).remove(s[i].0),
{
    let k = s[i].0;
    let t = s.remove(i);
    assert forall|a: int, b: int| 0 <= a < t.len() && 0 <= b < t.len() && a != b implies t[a].0
        != t[b].0 by {
        let a2 = if a < i { a } else { a + 1 };
        let b2 = if b < i { b } else { b + 1 };
        assert(t[a] == s[a2]);
        assert(t[b] == s[b2]);
    }
    assert forall|x: i64| has_id(t, x) <==> has_id(s, x) && x != k by {
        if has_id(s, x) && x != k {
            let j = choose|j: int| 0 <= j < s.len() && s[j].0 == x;
            if j < i {
                assert(t[j] == s[j]);
            } else {
                assert(t[j - 1] == s[j]);
            }
        }
        if has_id(t, x) {
            let j = choose|j: int| 0 <= j < t.len() && t[j].0 == x;
            let j2 = if j < i { j } else { j + 1 };
            assert(t[j] == s[j2]);
        }
    }
    assert forall|x: i64| #[trigger] model(t).contains_key(x) implies model(t)[x] == model(
        s,
    ).remove(k)[x] by {
        let j = choose|j: int| 0 <= j < t.len() && t[j].0 == x;
        let j2 = if j < i { j } else { j + 1 };
        assert(t[j] == s[j2]);
        lemma_model_index(t, j);
        lemma_model_index(s, j2);
    }
    assert(model(t) =~= model(s).remove(k));
}

/// Why a store could not be loaded or saved.
#[derive(Debug, Clone, Copy, PartialEq, Eq, Structural)]
pub enum StoreError {
    /// The file could not be opened, read or written.
    StorageUnavailable,
    /// The file's content is not a well-formed task document.
    CorruptData,
}

/// The task collection: a map from id to task, held as a list of entries
/// whose ids are pairwise distinct.
pub struct TaskStore {
    entries: Vec<(i64, Task)>,
}

impl View for TaskStore {
    type V = Map<i64, TaskView>;

    closed spec fn view(&self) -> Map<i64, TaskView> {
        model(entry_views(self.entries@))
    }
}

fn has_duplicate_ids(entries: &Vec<(i64, Task)>) -> (r: bool)
    ensures
        r == !ids_unique(entry_views(entries@)),
{
    let ghost ev = entry_views(entries@);
    let n = entries.len();
    let mut i: usize = 0;
    while i < n
        invariant
            n == entries.len(),
            ev == entry_views(entries@),
            i <= n,
            forall|a: int, b: int| 0 <= a < i && 0 <= b < n && a != b ==> ev[a].0 != ev[b].0,
        decreases n - i,
    {
        let mut j: usize = i + 1;
        while j < n
            invariant
                n == entries.len(),
                ev == entry_views(entries@),
                i < j <= n,
                forall|a: int, b: int| 0 <= a < i && 0 <= b < n && a != b ==> ev[a].0 != ev[b].0,
                forall|b: int| i < b < j ==> ev[i as int].0 != ev[b].0,
            decreases n - j,
        {
            if entries[i].0 == entries[j].0 {
                assert(ev[i as int].0 == ev[j as int].0);
                return true;
            }
            j = j + 1;
        }
        i = i + 1;
    }
    false
}

impl TaskStore {
    /// The entries are pairwise distinct in their ids.
    pub closed spec fn wf(&self) -> bool {
        ids_unique(entry_views(self.entries@))
    }

    /// An empty store.
    pub fn new() -> (r: TaskStore)
        ensures
            r.wf(),
            r@ == Map::<i64, TaskView>::empty(),
    {
        let r = TaskStore { entries: Vec::new() };
        assert(model(entry_views(r.entries@)) =~= Map::<i64, TaskView>::empty());
        r
    }

    /// Builds a store from loaded entries. Two entries with one id make the
    /// document corrupt: nothing is dropped or merged.
    pub fn from_entries(entries: Vec<(i64, Task)>) -> (r: Result<TaskStore, StoreError>)
        ensures
            r is Ok <==> ids_unique(entry_views(entries@)),
            r matches Ok(s) ==> s.wf() && s@ == model(entry_views(entries@)),
            r matches Err(e) ==> e == StoreError::CorruptData,
    {
        if has_duplicate_ids(&entries) {
            Err(StoreError::CorruptData)
        } else {
            Ok(TaskStore { entries })
        }
    }

    /// Every entry of the store, once each, in no particular order.
    pub fn list(&self) -> (r: Vec<(i64, Task)>)
        requires
            self.wf(),
        ensures
            ids_unique(entry_views(r@)),
            model(entry_views(r@)) == self@,
    {
        let mut r: Vec<(i64, Task)> = Vec::new();
        let n = self.entries.len();
        let mut i: usize = 0;
        while i < n
            invariant
                n == self.entries.len(),
                i <= n,
                r.len() == i,
                entry_views(r@) == entry_views(self.entries@).take(i as int),
            decreases n - i,
        {
            let id = self.entries[i].0;
            let t = self.entries[i].1.duplicate();
            let ghost before = r@;
            r.push((id, t));
            assert forall|j: int| 0 <= j < before.len() implies entry_views(r@)[j] == entry_views(
                before,
            )[j] by {
                assert(r@[j] == before[j]);
            }
            assert(entry_views(r@) =~= entry_views(self.entries@).take(i + 1));
            i = i + 1;
        }
        assert(entry_views(self.entries@).take(n as int) =~= entry_views(self.entries@));
        r
    }

    fn find(&self, id: i64) -> (r: Option<usize>)
        requires
            self.wf(),
        ensures
            r is Some <==> self@.contains_key(id),
            r matches Some(i) ==> i < self.entries.len() && self.entries@[i as int].0 == id,
    {
        let ghost ev = entry_views(self.entries@);
        let n = self.entries.len();
        let mut i: usize = 0;
        while i < n
            invariant
                n == self.entries.len(),
                ev == entry_views(self.entries@),
                i <= n,
                forall|j: int| 0 <= j < i ==> ev[j].0 != id,
            decreases n - i,
        {
            if self.entries[i].0 == id {
                assert(ev[i as int].0 == id);
                return Some(i);
            }
            i = i + 1;
        }
        None
    }

    /// The task stored under `id`, if any.
    pub fn get(&self, id: i64) -> (r: Option<&Task>)
        requires
            self.wf(),
        ensures
            r is Some <==> self@.contains_key(id),
            r matches Some(t) ==> t@ == self@[id],
    {
        match self.find(id) {
            Some(i) => {
                proof {
                    lemma_model_index(entry_views(self.entries@), i as int);
                }
                Some(&self.entries[i].1)
            },
            None => None,
        }
    }

    /// The id that `add` would give the next task; `None` when the largest
    /// id in use is already `i64::MAX`.
    pub fn next_id(&self) -> (r: Option<i64>)
        requires
            self.wf(),
        ensures
            r is None <==> self@.contains_key(i64::MAX),
            r matches Some(id) ==> is_next_id(self@, id as int),
    {
        let ghost ev = entry_views(self.entries@);
        let n = self.entries.len();
        if n == 0 {
            assert(self@.dom() =~= Set::<i64>::empty());
            return Some(1);
        }
        let mut max: i64 = self.entries[0].0;
        let mut i: usize = 1;
        let ghost mut at: int = 0;
        while i < n
            invariant
                n == self.entries.len(),
                ev == entry_views(self.entries@),
                1 <= i <= n,
                0 <= at < i,
                ev[at].0 == max,
                forall|j: int| 0 <= j < i ==> ev[j].0 <= max,
            decreases n - i,
        {
            if self.entries[i].0 > max {
                max = self.entries[i].0;
                proof {
                    at = i as int;
                }
            }
            i = i + 1;
        }
        assert(has_id(ev, max));
        assert forall|k: i64| self@.contains_key(k) implies k <= max by {
            assert(has_id(ev, k));
        }
        assert(!self@.dom().is_empty()) by {
            assert(self@.dom().contains(max));
        }
        if max == i64::MAX {
            None
        } else {
            Some(max + 1)
        }
    }

    /// Adds a task, not yet completed and created at `created_at`, under
    /// the id that `next_id` gives, and returns that id. Returns `None`, and
    /// leaves the store as it is, when no id is left above the largest.
    pub fn add(&mut self, description: String, created_at: i64) -> (r: Option<i64>)
        requires
            old(self).wf(),
        ensures
            final(self).wf(),
            r is None <==> old(self)@.contains_key(i64::MAX),
            r matches Some(id) ==> {
                &&& is_next_id(old(self)@, id as int)
                &&& !old(self)@.contains_key(id)
                &&& final(self)@ == old(self)@.insert(
                    id,
                    TaskView { description: description@, completed: false, created_at },
                )
            },
            r is None ==> final(self)@ == old(self)@,
            final(self)@ == after_add(old(self)@, description@, created_at),
    {
        match self.next_id() {
            Some(id) => {
                let ghost ev = entry_views(self.entries@);
                assert(!has_id(ev, id)) by {
                    if has_id(ev, id) {
                        assert(self@.contains_key(id));
                    }
                }
                let t = Task::new(description, created_at);
                proof {
                    lemma_model_push(ev, id, t@);
                }
                self.entries.push((id, t));
                assert(entry_views(self.entries@) =~= ev.push((id, t@)));
                proof {
                    lemma_next_id_unique(old(self)@, id as int, next_id_of(old(self)@));
                }
                Some(id)
            },
            None => None,
        }
    }

    /// Gives the task under `id` a new description; does nothing when no
    /// task has that id.
    pub fn update(&mut self, id: i64, description: String)
        requires
            old(self).wf(),
        ensures
            final(self).wf(),
            final(self)@ == after_update(old(self)@, id, description@),
    {
        if let Some(i) = self.find(id) {
            let ghost ev = entry_views(self.entries@);
            let completed = self.entries[i].1.completed;
            let created_at = self.entries[i].1.created_at;
            let t = Task { description, completed, created_at };
            proof {
                lemma_model_index(ev, i as int);
                lemma_model_update(ev, i as int, t@);
            }
            self.entries.set(i, (id, t));
            assert(entry_views(self.entries@) =~= ev.update(i as int, (id, t@)));
        }
    }

    /// Marks the task under `id` as completed; does nothing when no task has
    /// that id.
    pub fn complete(&mut self, id: i64)
        requires
            old(self).wf(),
        ensures
            final(self).wf(),
            final(self)@ == after_complete(old(self)@, id),
    {
        if let Some(i) = self.find(id) {
            let ghost ev = entry_views(self.entries@);
            let t = Task {
                description: self.entries[i].1.description.clone(),
                completed: true,
                created_at: self.entries[i].1.created_at,
            };
            proof {
                lemma_model_index(ev, i as int);
                lemma_model_update(ev, i as int, t@);
            }
            self.entries.set(i, (id, t));
            assert(entry_views(self.entries@) =~= ev.update(i as int, (id, t@)));
        }
    }

    /// Removes the task under `id`; does nothing when no task has that id.
    pub fn delete(&mut self, id: i64)
        requires
            old(self).wf(),
        ensures
            final(self).wf(),
            final(self)@ == old(self)@.remove(id),
    {
        match self.find(id) {
            Some(i) => {
                let ghost ev = entry_views(self.entries@);
                proof {
                    lemma_model_remove(ev, i as int);
                }
                self.entries.remove(i);
                assert(entry_views(self.entries@) =~= ev.remove(i as int));
            },
            None => {
                assert(old(self)@.remove(id) =~= old(self)@);
            },
        }
    }

    /// Removes every task.
    pub fn clear(&mut self)
        requires
            old(self).wf(),
        ensures
            final(self).wf(),
            final(self)@ == Map::<i64, TaskView>::empty(),
    {
        self.entries.clear();
        assert(model(entry_views(self.entries@)) =~= Map::<i64, TaskView>::empty());
    }

    /// The entries whose description holds `pattern` (case-sensitive), once
    /// each, in no particular order.
    pub fn search(&self, pattern: &String) -> (r: Vec<(i64, Task)>)
        requires
            self.wf(),
        ensures
            ids_unique(entry_views(r@)),
            model(entry_views(r@)) == matching(self@, pattern@),
    {
        let ghost ev = entry_views(self.entries@);
        let mut r: Vec<(i64, Task)> = Vec::new();
        let n = self.entries.len();
        let mut i: usize = 0;
        assert(model(entry_views(r@)) =~= Map::<i64, TaskView>::empty());
        while i < n
            invariant
                n == self.entries.len(),
                ev == entry_views(self.entries@),
                ids_unique(ev),
                i <= n,
                ids_unique(entry_views(r@)),
                forall|k: i64| #[trigger]
                    model(entry_views(r@)).contains_key(k) <==> exists|j: int|
                        0 <= j < i && ev[j].0 == k && occurs_in(pattern@, ev[j].1.description),
                forall|k: i64| #[trigger]
                    model(entry_views(r@)).contains_key(k) ==> model(entry_views(r@))[k] == self@[k],
            decreases n - i,
        {
            if contains_text(&self.entries[i].1.description, pattern) {
                let id = self.entries[i].0;
                let t = self.entries[i].1.duplicate();
                let ghost rv = entry_views(r@);
                proof {
                    lemma_model_index(ev, i as int);
                    if has_id(rv, id) {
                        assert(model(rv).contains_key(id));
                        let j = choose|j: int|
                            0 <= j < i && ev[j].0 == id && occurs_in(pattern@, ev[j].1.description);
                        assert(ev[j].0 == ev[i as int].0);
                    }
                    lemma_model_push(rv, id, t@);
                }
                r.push((id, t));
                assert(entry_views(r@) =~= rv.push((id, t@)));
            }
            proof {
                assert forall|k: i64|
                    #[trigger] model(entry_views(r@)).contains_key(k) <==> exists|j: int|
                        0 <= j < i + 1 && ev[j].0 == k && occurs_in(
                            pattern@,
                            ev[j].1.description,
                        ) by {
                    if exists|j: int|
                        0 <= j < i + 1 && ev[j].0 == k && occurs_in(pattern@, ev[j].1.description) {
                        let j = choose|j: int|
                            0 <= j < i + 1 && ev[j].0 == k && occurs_in(
                                pattern@,
                                ev[j].1.description,
                            );
                        if j < i {
                            assert(exists|j: int|
                                0 <= j < i && ev[j].0 == k && occurs_in(
                                    pattern@,
                                    ev[j].1.description,
                                ));
                        }
                    }
                }
            }
            i = i + 1;
        }
        assert forall|k: i64| #[trigger]
            matching(self@, pattern@).contains_key(k) implies model(entry_views(r@)).contains_key(
            k,
        ) by {
            let j = choose|j: int| 0 <= j < n && ev[j].0 == k;
            lemma_model_index(ev, j);
        }
        assert forall|k: i64| #[trigger]
            model(entry_views(r@)).contains_key(k) implies matching(self@, pattern@).contains_key(
            k,
        ) by {
            let j = choose|j: int|
                0 <= j < n && ev[j].0 == k && occurs_in(pattern@, ev[j].1.description);
            lemma_model_index(ev, j);
        }
        assert(model(entry_views(r@)) =~= matching(self@, pattern@));
        r
    }
}

} // verus!
