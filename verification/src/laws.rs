use vstd::prelude::*;
use crate::ordering::tasks_sorted;
use crate::storage::PresetTaskData;
use crate::storage::TaskData;
use crate::storage::preset_task_matches_row;
use crate::task::Task;
use crate::task_repo::TaskRepo;
use crate::task_repo::preset_task_row_of;
use crate::task_repo::renamed_row;
use crate::task_repo::task_matches_row;
use crate::task_repo::task_row_of;
use crate::presets::PresetTask;

verus! {

/// Persisting a newly created task and fetching it back by the returned
/// identity yields a task equal in priority, description, completion flag
/// and project. The one caveat is an empty project label, which is stored
/// as "no project" and reads back as none.
pub proof fn lemma_persist_then_get_round_trip(db: Map<int, TaskData>, t: Task, id: int, u: Task)
    requires
        task_matches_row(u, id, db.insert(id, task_row_of(t))[id]),
    ensures
        u.id == id,
        u.priority == t.priority,
        u.description@ == t.description@,
        u.completed == t.completed,
        match t.project {
            Some(p) => p@.len() > 0 ==> (u.project matches Some(q) && q@ == p@),
            None => u.project is None,
        },
{
    assert(db.insert(id, task_row_of(t))[id] == task_row_of(t));
    assert(task_row_of(t).priority[0] == t.priority);
}

/// Persisting a new preset task and reading it back from its stored row
/// yields a preset task equal in owner, priority and description.
pub proof fn lemma_preset_task_round_trip(
    m: Map<int, PresetTaskData>,
    pt: PresetTask,
    nid: int,
    u: PresetTask,
)
    requires
        preset_task_matches_row(u, nid, m.insert(nid, preset_task_row_of(pt))[nid]),
    ensures
        u.id == nid,
        u.preset_id == pt.preset_id,
        u.priority == pt.priority,
        u.description@ == pt.description@,
{
    assert(m.insert(nid, preset_task_row_of(pt))[nid] == preset_task_row_of(pt));
    assert(preset_task_row_of(pt).priority[0] == pt.priority);
}

/// Cleanup deletes only the rows whose completion flag is set: afterwards a
/// completed row's identity matches nothing, and every pending row is still
/// there, unchanged.
pub proof fn lemma_cleanup_spares_pending(before: TaskRepo, after: TaskRepo, k: int)
    requires
        forall|k2: int|
            #![trigger before.tasks().dom().contains(k2)]
            #![trigger after.tasks().dom().contains(k2)]
            after.tasks().dom().contains(k2) <==> (before.tasks().dom().contains(k2)
                && !before.tasks()[k2].completed),
        forall|k2: int| #[trigger]
            after.tasks().dom().contains(k2) ==> after.tasks()[k2] == before.tasks()[k2],
    ensures
        before.tasks().dom().contains(k) && before.tasks()[k].completed
            ==> !after.tasks().dom().contains(k),
        before.tasks().dom().contains(k) && !before.tasks()[k].completed
            ==> after.tasks().dom().contains(k) && after.tasks()[k] == before.tasks()[k],
{
}

/// After renaming one project label to a different one, no row is stored
/// under the old label any more, and the rows under the new label are
/// exactly those that stood under either label before.
pub proof fn lemma_rename_project_moves_all(
    before: TaskRepo,
    after: TaskRepo,
    from: Seq<char>,
    to: Seq<char>,
    k: int,
)
    requires
        after.tasks().dom() == before.tasks().dom(),
        forall|k2: int| #[trigger]
            after.tasks().dom().contains(k2) ==> after.tasks()[k2] == renamed_row(
                before.tasks()[k2],
                from,
                to,
            ),
        from != to,
        after.tasks().dom().contains(k),
    ensures
        after.tasks()[k].project != from,
        after.tasks()[k].project == to <==> (before.tasks()[k].project == from
            || before.tasks()[k].project == to),
{
}

/// In a task list in display order, every incomplete task stands before
/// every completed one, regardless of priority letters.
pub proof fn lemma_completed_after_pending(s: Seq<Task>, i: int, j: int)
    requires
        tasks_sorted(s),
        0 <= i < s.len(),
        0 <= j < s.len(),
        !s[i].completed,
        s[j].completed,
    ensures
        i < j,
{
    if j < i {
        assert(crate::ordering::task_le(s[j], s[i]));
    }
}

} // verus!
