use vstd::prelude::*;

use crate::options::{after_command, Command};
use crate::store::{
    after_add, after_complete, after_update, is_next_id, lemma_next_id_unique, next_id_of,
};
use crate::task::TaskView;

verus! {

proof fn lemma_next_id_of(m: Map<i64, TaskView>, id: int)
    requires
        is_next_id(m, id),
    ensures
        next_id_of(m) == id,
{
    lemma_next_id_unique(m, id, next_id_of(m));
}

/// The id given to an added task is held by no live task, and adding a task
/// leaves every live task where it was: two live tasks never share an id.
pub proof fn law_added_id_is_fresh(
    m: Map<i64, TaskView>,
    id: int,
    description: Seq<char>,
    created_at: i64,
)
    requires
        is_next_id(m, id),
    ensures
        id <= i64::MAX ==> !m.contains_key(id as i64),
        forall|k: i64| m.contains_key(k) ==> after_add(m, description, created_at).contains_key(k)
            && after_add(m, description, created_at)[k] == m[k],
{
    if !m.contains_key(i64::MAX) {
        lemma_next_id_of(m, id);
    }
}

/// From an empty store, three adds give the ids 1, 2 and 3, in that order.
pub proof fn law_first_ids(
    d1: Seq<char>,
    d2: Seq<char>,
    d3: Seq<char>,
    t1: i64,
    t2: i64,
    t3: i64,
)
    ensures
        ({
            let m0 = Map::<i64, TaskView>::empty();
            let m1 = after_add(m0, d1, t1);
            let m2 = after_add(m1, d2, t2);
            &&& next_id_of(m0) == 1
            &&& next_id_of(m1) == 2
            &&& next_id_of(m2) == 3
        }),
{
    let m0 = Map::<i64, TaskView>::empty();
    assert(m0.dom() =~= Set::<i64>::empty());
    assert(is_next_id(m0, 1));
    lemma_next_id_of(m0, 1);
    let m1 = after_add(m0, d1, t1);
    assert(m1.dom() =~= set![1i64]);
    assert(m1.contains_key(1));
    assert(!m1.dom().is_empty());
    assert(is_next_id(m1, 2));
    lemma_next_id_of(m1, 2);
    let m2 = after_add(m1, d2, t2);
    assert(m2.dom() =~= set![1i64, 2i64]);
    assert(m2.contains_key(2));
    assert(!m2.dom().is_empty());
    assert(is_next_id(m2, 3));
    lemma_next_id_of(m2, 3);
}

/// With tasks 1, 2 and 3, deleting 3 frees id 3 for the next add, while
/// deleting 2 does not: the next add then takes 4.
pub proof fn law_only_the_largest_id_is_reused(m: Map<i64, TaskView>)
    requires
        m.dom() == set![1i64, 2i64, 3i64],
    ensures
        next_id_of(m.remove(3)) == 3,
        next_id_of(m.remove(2)) == 4,
{
    let a = m.remove(3);
    assert(a.dom() =~= set![1i64, 2i64]);
    assert(a.contains_key(2));
    assert(!a.dom().is_empty());
    assert(is_next_id(a, 3));
    lemma_next_id_of(a, 3);
    let b = m.remove(2);
    assert(b.dom() =~= set![1i64, 3i64]);
    assert(b.contains_key(3));
    assert(!b.dom().is_empty());
    assert(is_next_id(b, 4));
    lemma_next_id_of(b, 4);
}

/// Update, complete and delete on an id that no task has leave the store
/// as it was.
pub proof fn law_unknown_id_is_no_op(m: Map<i64, TaskView>, id: i64, description: Seq<char>)
    requires
        !m.contains_key(id),
    ensures
        after_update(m, id, description) == m,
        after_complete(m, id) == m,
        m.remove(id) == m,
{
    assert(m.remove(id) =~= m);
}

/// Clear on an empty store leaves it empty, and clearing twice is clearing
/// once.
pub proof fn law_clear_is_idempotent(m: Map<i64, TaskView>, now: i64)
    ensures
        after_command(Map::empty(), Command::Clear, now) == Map::<i64, TaskView>::empty(),
        after_command(after_command(m, Command::Clear, now), Command::Clear, now)
            == after_command(m, Command::Clear, now),
{
}

} // verus!
