use vstd::prelude::*;

use crate::task::{Priority, TaskView};
use crate::task_manager::{
    added, completed, has_id, ids_fit, lemma_max_bound, lemma_migrated_ok, lemma_position,
    lemma_take_step, max_id, migrated, next_after, numbered_distinct, store_ok, unnumbered,
    StoreView,
};

verus! {

/// Ids handed out by `add_task` grow strictly and never repeat: the counter only moves on
/// (`complete_task`, `delete_task` and the rest leave it as it is), so an id added later is
/// greater than one added earlier, and a new id belongs to no task present.
pub proof fn lemma_add_ids_increase(
    s0: StoreView,
    s1: StoreView,
    d1: Seq<char>,
    id1: usize,
    s2: StoreView,
    s3: StoreView,
    d2: Seq<char>,
    id2: usize,
)
    requires
        store_ok(s2),
        added(s0, s1, d1, id1),
        s1.next_id <= s2.next_id,
        added(s2, s3, d2, id2),
    ensures
        id1 < id2,
        !has_id(s2.tasks, id2),
{
}

proof fn lemma_no_unnumbered(ts: Seq<TaskView>)
    requires
        forall|i: int| 0 <= i < ts.len() ==> #[trigger] ts[i].id != 0,
    ensures
        unnumbered(ts) == 0,
    decreases ts.len(),
{
    if ts.len() > 0 {
        let rest = ts.drop_last();
        assert forall|i: int| 0 <= i < rest.len() implies #[trigger] rest[i].id != 0 by {
            assert(rest[i] == ts[i]);
        }
        lemma_no_unnumbered(rest);
    }
}

/// The tasks of a store read back unchanged: records that all carry distinct ids are
/// accepted by `load_tasks` and kept as they are, in their order.
pub proof fn lemma_reload_keeps_tasks(s: StoreView)
    requires
        store_ok(s),
    ensures
        numbered_distinct(s.tasks),
        ids_fit(s.tasks),
        migrated(s.tasks) == s.tasks,
        next_after(s.tasks) <= s.next_id,
{
    lemma_no_unnumbered(s.tasks);
    lemma_max_bound(s.tasks);
    lemma_max_attained(s.tasks);
    assert(migrated(s.tasks) =~= s.tasks);
}

/// Adding a task and then completing it by the id it got: the completion succeeds, and the
/// task is completed with its description untouched.
pub proof fn lemma_add_then_complete(
    s0: StoreView,
    s1: StoreView,
    d: Seq<char>,
    id: usize,
    s2: StoreView,
)
    requires
        store_ok(s0),
        added(s0, s1, d, id),
    ensures
        has_id(s1.tasks, id),
        completed(s1, s2, id) ==> s2.tasks.last() == (TaskView {
            id,
            description: d,
            completed: true,
            priority: Priority::Medium,
        }),
{
    let n = s0.tasks.len() as int;
    assert(s1.tasks[n].id == id);
    assert forall|j: int| 0 <= j < n implies #[trigger] s1.tasks[j].id != id by {
        assert(s1.tasks[j] == s0.tasks[j]);
    }
    lemma_position(s1.tasks, id, n);
}

proof fn lemma_max_attained(ts: Seq<TaskView>)
    ensures
        max_id(ts) == 0 || exists|i: int| 0 <= i < ts.len() && #[trigger] ts[i].id == max_id(ts),
    decreases ts.len(),
{
    if ts.len() > 0 {
        let rest = ts.drop_last();
        lemma_max_attained(rest);
        if ts.last().id <= max_id(rest) && max_id(rest) != 0 {
            let i = choose|i: int| 0 <= i < rest.len() && #[trigger] rest[i].id == max_id(rest);
            assert(ts[i] == rest[i]);
        } else {
            assert(ts[ts.len() - 1] == ts.last());
        }
    }
}

proof fn lemma_last_unnumbered(ts: Seq<TaskView>)
    requires
        unnumbered(ts) > 0,
    ensures
        exists|i: int|
            0 <= i < ts.len() && ts[i].id == 0 && #[trigger] unnumbered(ts.take(i)) + 1 == unnumbered(
                ts,
            ),
    decreases ts.len(),
{
    let rest = ts.drop_last();
    if ts.last().id == 0 {
        let i = ts.len() - 1;
        assert(ts.take(i) =~= rest);
        assert(ts[i] == ts.last());
        assert(unnumbered(ts.take(i)) + 1 == unnumbered(ts));
    } else {
        lemma_last_unnumbered(rest);
        let i = choose|i: int|
            0 <= i < rest.len() && rest[i].id == 0 && #[trigger] unnumbered(rest.take(i)) + 1
                == unnumbered(rest);
        assert(rest.take(i) =~= ts.take(i));
        assert(rest[i] == ts[i]);
        assert(unnumbered(ts.take(i)) + 1 == unnumbered(ts));
    }
}

/// Loading records some of which carry no id: those get ids one past the largest id present,
/// counting up in file order, and the next `add_task` continues one past the largest id that
/// the loaded tasks then carry.
pub proof fn lemma_load_then_add(
    ts: Seq<TaskView>,
    s1: StoreView,
    s2: StoreView,
    d: Seq<char>,
    id: usize,
)
    requires
        numbered_distinct(ts),
        ids_fit(ts),
        s1.tasks == migrated(ts),
        s1.next_id == next_after(ts),
        added(s1, s2, d, id),
    ensures
        forall|i: int|
            0 <= i < ts.len() && ts[i].id == 0 ==> max_id(ts) < #[trigger] migrated(ts)[i].id,
        id == max_id(migrated(ts)) + 1,
{
    let m = migrated(ts);
    lemma_migrated_ok(ts);
    lemma_max_bound(m);
    lemma_max_attained(m);
    lemma_max_bound(ts);
    assert(ts.take(ts.len() as int) =~= ts);
    assert forall|i: int| 0 <= i < ts.len() && ts[i].id == 0 implies max_id(ts)
        < #[trigger] migrated(ts)[i].id by {
        lemma_take_step(ts, i);
        crate::task_manager::lemma_unnumbered_mono(ts, i + 1, ts.len() as int);
    }
    if unnumbered(ts) > 0 {
        lemma_last_unnumbered(ts);
        let i = choose|i: int|
            0 <= i < ts.len() && ts[i].id == 0 && #[trigger] unnumbered(ts.take(i)) + 1
                == unnumbered(ts);
        assert(m[i].id == max_id(ts) + unnumbered(ts));
    } else {
        lemma_max_attained(ts);
        assert forall|i: int| 0 <= i < ts.len() implies #[trigger] ts[i].id != 0 by {
            if ts[i].id == 0 {
                lemma_take_step(ts, i);
                crate::task_manager::lemma_unnumbered_mono(ts, i + 1, ts.len() as int);
            }
        }
        assert(m =~= ts);
    }
}

} // verus!
