use vstd::prelude::*;

verus! {

/// What a task is, as the contracts see it.
pub struct TaskView {
    pub description: Seq<char>,
    pub completed: bool,
    pub created_at: i64,
}

/// One task: its text, whether it is done, and when it was created
/// (seconds since the Unix epoch).
pub struct Task {
    pub description: String,
    pub completed: bool,
    pub created_at: i64,
}

impl View for Task {
    type V = TaskView;

    open spec fn view(&self) -> TaskView {
        TaskView {
            description: self.description@,
            completed: self.completed,
            created_at: self.created_at,
        }
    }
}

impl Task {
    /// A fresh task, not yet completed.
    pub fn new(description: String, created_at: i64) -> (r: Task)
        ensures
            r@ == (TaskView { description: description@, completed: false, created_at }),
    {
        Task { description, completed: false, created_at }
    }

    /// A task with the same fields as this one.
    pub fn duplicate(&self) -> (r: Task)
        ensures
            r@ == self@,
    {
        Task {
            description: self.description.clone(),
            completed: self.completed,
            created_at: self.created_at,
        }
    }
}

/// `p` stands in `t` at position `i`.
pub open spec fn occurs_at(p: Seq<char>, t: Seq<char>, i: int) -> bool {
    0 <= i && i + p.len() <= t.len() && t.subrange(i, i + p.len()) == p
}

/// `p` is a contiguous part of `t` (the empty text is a part of every text).
pub open spec fn occurs_in(p: Seq<char>, t: Seq<char>) -> bool {
    exists|i: int| occurs_at(p, t, i)
}

/// Copies the characters of a string into a vector, in order.
pub fn chars_of(s: &String) -> (r: Vec<char>)
    ensures
        r@ == s@,
{
    let mut r: Vec<char> = Vec::new();
    for c in it: s.chars()
        invariant
            r@ == it.seq().take(it.index() as int),
    {
        r.push(c);
    }
    r
}

fn matches_at(p: &Vec<char>, t: &Vec<char>, i: usize) -> (r: bool)
    requires
        i + p.len() <= t.len(),
    ensures
        r == occurs_at(p@, t@, i as int),
{
    let mut j: usize = 0;
    while j < p.len()
        invariant
            j <= p.len(),
            i + p.len() <= t.len(),
            forall|k: int| 0 <= k < j ==> t@[i + k] == p@[k],
        decreases p.len() - j,
    {
        if t[i + j] != p[j] {
            assert(t@.subrange(i as int, i + p.len())[j as int] != p@[j as int]);
            return false;
        }
        j = j + 1;
    }
    assert(t@.subrange(i as int, i + p.len()) =~= p@);
    true
}

/// Whether `pattern` occurs in `text`, comparing characters exactly.
pub fn contains_text(text: &String, pattern: &String) -> (r: bool)
    ensures
        r == occurs_in(pattern@, text@),
{
    let t = chars_of(text);
    let p = chars_of(pattern);
    if p.len() > t.len() {
        return false;
    }
    let last: usize = t.len() - p.len();
    let mut i: usize = 0;
    loop
        invariant
            i <= last,
            last == t.len() - p.len(),
            p.len() <= t.len(),
            t@ == text@,
            p@ == pattern@,
            forall|k: int| 0 <= k < i ==> !occurs_at(p@, t@, k),
        decreases last - i,
    {
        if matches_at(&p, &t, i) {
            return true;
        }
        if i == last {
            return false;
        }
        i = i + 1;
    }
}

} // verus!
