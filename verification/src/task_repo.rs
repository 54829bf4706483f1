use vstd::prelude::*;
use crate::ordering::distinct_keys;
use crate::ordering::has_name;
use crate::ordering::lemma_permutation_distinct_keys;
use crate::ordering::names_sorted;
use crate::ordering::preset_tasks_sorted;
use crate::ordering::sort_preset_tasks;
use crate::ordering::sort_tasks;
use crate::ordering::sorted_distinct_names;
use crate::ordering::str_eq;
use crate::ordering::tasks_sorted;
use crate::presets::Preset;
use crate::presets::PresetId;
use crate::presets::PresetTask;
use crate::presets::PresetTaskError;
use crate::storage::PresetTaskData;
use crate::storage::PresetTaskRow;
use crate::storage::TaskData;
use crate::storage::TaskRow;
use crate::storage::db_preset_tasks;
use crate::storage::db_presets;
use crate::storage::db_tasks;
use crate::storage::distinct_row_ids;
use crate::storage::passes_filter;
use crate::storage::preset_name_taken;
use crate::storage::preset_task_matches_row;
use crate::storage::row_matches_map;
use crate::task::Task;
use crate::task::TaskError;
use crate::task::TaskId;

verus! {

/// The errors a store operation can surface. None of them is fatal: the
/// operation is abandoned and the caller decides what to do.
#[derive(Debug)]
#[allow(inconsistent_fields)]
pub enum TaskRepoError {
    /// No row matches the given identity or name.
    NotFound,
    /// A stored uniqueness rule was violated, e.g. a duplicate preset name.
    Uniqueness,
    /// The requested mutation is intentionally unsupported.
    UnsupportedOperation,
    /// The underlying connection or statement failed.
    Storage,
    /// A stored row failed to parse, e.g. an empty priority field.
    DataIntegrity,
    /// A task-entity validation failed.
    TaskError { original_error: TaskError },
    /// A preset-task-entity validation failed.
    PresetTaskError { original_error: PresetTaskError },
}

impl From<TaskError> for TaskRepoError {
    /// Wraps a task-entity validation failure.
    fn from(value: TaskError) -> (r: TaskRepoError)
        ensures
            r == (TaskRepoError::TaskError { original_error: value }),
    {
        TaskRepoError::TaskError { original_error: value }
    }
}

impl vstd::std_specs::convert::FromSpecImpl<TaskError> for TaskRepoError {
    open spec fn obeys_from_spec() -> bool {
        true
    }

    open spec fn from_spec(value: TaskError) -> TaskRepoError {
        TaskRepoError::TaskError { original_error: value }
    }
}

impl From<PresetTaskError> for TaskRepoError {
    /// Wraps a preset-task-entity validation failure.
    fn from(value: PresetTaskError) -> (r: TaskRepoError)
        ensures
            r == (TaskRepoError::PresetTaskError { original_error: value }),
    {
        TaskRepoError::PresetTaskError { original_error: value }
    }
}

impl vstd::std_specs::convert::FromSpecImpl<PresetTaskError> for TaskRepoError {
    open spec fn obeys_from_spec() -> bool {
        true
    }

    open spec fn from_spec(value: PresetTaskError) -> TaskRepoError {
        TaskRepoError::PresetTaskError { original_error: value }
    }
}

/// The persistence and query engine: owns the mapping from identity to
/// stored row for tasks and presets.
pub struct TaskRepo {
    pub conn: rusqlite::Connection,
}

/// The stored row a newly persisted or updated task leaves behind: the
/// priority letter as a one-letter text, and an absent project stored as the
/// empty text.
pub open spec fn task_row_of(t: Task) -> TaskData {
    TaskData {
        priority: seq![t.priority],
        description: t.description@,
        completed: t.completed,
        project: match t.project {
            Some(p) => p@,
            None => Seq::empty(),
        },
    }
}

/// How an in-memory task relates to a stored row: the priority is the first
/// letter of the stored priority text, and an empty stored project reads
/// back as no project.
pub open spec fn task_matches_row(t: Task, id: int, d: TaskData) -> bool {
    &&& t.id == id
    &&& d.priority.len() > 0
    &&& t.priority == d.priority[0]
    &&& t.description@ == d.description
    &&& t.completed == d.completed
    &&& match t.project {
        Some(p) => p@ == d.project && d.project.len() > 0,
        None => d.project.len() == 0,
    }
}


/// Decides whether a stored row passes the project filter.
fn row_passes(row: &TaskRow, project_filter: Option<&str>) -> (r: bool)
    ensures
        r == passes_filter(row.data(), project_filter),
{
    match project_filter {
        None => true,
        Some(p) => str_eq(row.project.as_str(), p),
    }
}


/// The stored row an update leaves behind: new priority letter, description
/// and completion flag, the stored project untouched.
pub open spec fn updated_row(old_row: TaskData, t: Task) -> TaskData {
    TaskData {
        priority: seq![t.priority],
        description: t.description@,
        completed: t.completed,
        project: old_row.project,
    }
}

/// The stored row a project rename leaves behind: a row under the old label
/// moves to the new one, any other row is untouched.
pub open spec fn renamed_row(d: TaskData, from: Seq<char>, to: Seq<char>) -> TaskData {
    if d.project == from {
        TaskData { project: to, ..d }
    } else {
        d
    }
}

/// The stored row a newly persisted preset task leaves behind.
pub open spec fn preset_task_row_of(t: PresetTask) -> PresetTaskData {
    PresetTaskData {
        preset_id: t.preset_id as int,
        priority: seq![t.priority],
        description: t.description@,
    }
}

/// The stored row a preset injection leaves behind: a fresh, incomplete
/// task carrying some preset task's priority and description of the named
/// preset, and the preset's name as its project.
pub open spec fn injected_row(
    d: TaskData,
    presets: Map<int, Seq<char>>,
    ptasks: Map<int, PresetTaskData>,
    name: Seq<char>,
) -> bool {
    &&& d.project == name
    &&& d.completed == false
    &&& exists|pid: int, j: int|
        {
            &&& #[trigger] presets.dom().contains(pid)
            &&& presets[pid] == name
            &&& #[trigger] ptasks.dom().contains(j)
            &&& ptasks[j].preset_id == pid
            &&& ptasks[j].priority.len() > 0
            &&& d.priority == seq![ptasks[j].priority[0]]
            &&& d.description == ptasks[j].description
        }
}

/// Every kept row is one of the given rows, one that passes the filter.
spec fn rows_sourced(
    out: Seq<TaskRow>,
    orig: Seq<TaskRow>,
    upto: int,
    filter: Option<&str>,
) -> bool {
    forall|j: int|
        #![trigger out[j]]
        0 <= j < out.len() ==> exists|i: int|
            0 <= i < upto && out[j] == #[trigger] orig[i] && passes_filter(out[j].data(), filter)
}

/// Keeps exactly the rows that pass the project filter, in their given
/// order.
fn filter_task_rows(rows: Vec<TaskRow>, project_filter: Option<&str>) -> (r: Vec<TaskRow>)
    ensures
        rows_sourced(r@, rows@, rows@.len() as int, project_filter),
        forall|i: int|
            0 <= i < rows@.len() && passes_filter(#[trigger] rows@[i].data(), project_filter)
                ==> r@.contains(rows@[i]),
        distinct_row_ids(rows@) ==> distinct_row_ids(r@),
{
    let ghost orig = rows@;
    let mut rest = rows;
    let mut out: Vec<TaskRow> = Vec::new();
    let ghost mut done: int = 0;
    proof {
        assert(rest@ =~= orig.skip(0));
    }
    while rest.len() > 0
        invariant
            0 <= done,
            done + rest@.len() == orig.len(),
            rest@ == orig.skip(done),
            rows_sourced(out@, orig, done, project_filter),
            forall|i: int|
                0 <= i < done && passes_filter(#[trigger] orig[i].data(), project_filter)
                    ==> out@.contains(orig[i]),
            distinct_row_ids(orig) ==> distinct_row_ids(out@),
        decreases rest@.len(),
    {
        let ghost old_out = out@;
        let ghost old_done = done;
        let row = rest.remove(0);
        proof {
            assert(orig.skip(old_done)[0] == orig[old_done]);
            assert(rest@ =~= orig.skip(old_done + 1));
        }
        if row_passes(&row, project_filter) {
            out.push(row);
        }
        proof {
            done = old_done + 1;
            assert forall|i: int|
                0 <= i < done && passes_filter(#[trigger] orig[i].data(), project_filter) implies out@.contains(
                orig[i],
            ) by {
                if i < old_done {
                    let j = choose|j: int| 0 <= j < old_out.len() && old_out[j] == orig[i];
                    assert(out@[j] == orig[i]);
                } else {
                    assert(out@[out@.len() - 1] == orig[old_done]);
                }
            }
            assert forall|j: int| #![trigger out@[j]] 0 <= j < out@.len() implies exists|i: int|
                0 <= i < done && out@[j] == #[trigger] orig[i] && passes_filter(
                    out@[j].data(),
                    project_filter,
                ) by {
                if j < old_out.len() {
                    assert(out@[j] == old_out[j]);
                    let i0 = choose|i: int|
                        0 <= i < old_done && old_out[j] == #[trigger] orig[i] && passes_filter(
                            old_out[j].data(),
                            project_filter,
                        );
                    assert(0 <= i0 < done && out@[j] == orig[i0] && passes_filter(
                        out@[j].data(),
                        project_filter,
                    ));
                } else {
                    assert(0 <= old_done < done && out@[j] == orig[old_done] && passes_filter(
                        out@[j].data(),
                        project_filter,
                    ));
                }
            }
            if distinct_row_ids(orig) {
                assert forall|j1: int, j2: int| 0 <= j1 < j2 < out@.len() implies out@[j1].id
                    != out@[j2].id by {
                    if j2 < old_out.len() {
                        assert(old_out[j1].id != old_out[j2].id);
                    } else {
                        let i1 = choose|i: int|
                            0 <= i < old_done && old_out[j1] == #[trigger] orig[i] && passes_filter(
                                old_out[j1].data(),
                                project_filter,
                            );
                        assert(out@[j1] == orig[i1]);
                        assert(out@[j2] == orig[old_done]);
                    }
                }
            }
        }
    }
    out
}

impl TaskRepo {
    /// The rows of the `tasks` table, keyed by identity.
    pub open spec fn tasks(self) -> Map<int, TaskData> {
        db_tasks(self.conn)
    }

    /// The rows of the `presets` table: identity to name.
    pub open spec fn presets(self) -> Map<int, Seq<char>> {
        db_presets(self.conn)
    }

    /// The rows of the `preset_tasks` table, keyed by identity.
    pub open spec fn preset_tasks(self) -> Map<int, PresetTaskData> {
        db_preset_tasks(self.conn)
    }

    /// Every stored row carries a store-generated identity, and those are
    /// always at least 1: a sentinel (negative) identity never matches a row.
    pub open spec fn ids_wf(self) -> bool {
        &&& forall|k: int| #[trigger] self.tasks().dom().contains(k) ==> k >= 1
        &&& forall|k: int| #[trigger] self.presets().dom().contains(k) ==> k >= 1
        &&& forall|k: int| #[trigger] self.preset_tasks().dom().contains(k) ==> k >= 1
    }

    /// Wraps an already-opened storage handle.
    pub fn new(conn: rusqlite::Connection) -> (r: TaskRepo)
        ensures
            r.tasks() == db_tasks(conn),
            r.presets() == db_presets(conn),
            r.preset_tasks() == db_preset_tasks(conn),
    {
        TaskRepo { conn }
    }

    /// Opens a store backed by a fresh in-memory database, which holds no
    /// rows at all.
    ///
    /// Relies on rusqlite's `Connection::open_in_memory`: a newly created
    /// in-memory SQLite database contains no tables and no rows.
    #[verifier::external_body]
    pub fn open_in_memory() -> (r: Result<TaskRepo, TaskRepoError>)
        ensures
            r matches Ok(repo) ==> {
                &&& repo.tasks() == Map::<int, TaskData>::empty()
                &&& repo.presets() == Map::<int, Seq<char>>::empty()
                &&& repo.preset_tasks() == Map::<int, PresetTaskData>::empty()
            },
            r matches Err(e) ==> e == TaskRepoError::Storage,
    {
        match rusqlite::Connection::open_in_memory() {
            Ok(conn) => Ok(TaskRepo { conn }),
            Err(_) => Err(TaskRepoError::Storage),
        }
    }

    /// Idempotently ensures the task and preset tables exist. Creating a
    /// missing table stores no row, so the store's contents do not change,
    /// whether the call succeeds or fails.
    ///
    /// Relies on rusqlite's `Connection::execute_batch` and on SQLite's
    /// `CREATE TABLE IF NOT EXISTS`, which adds no rows.
    #[verifier::external_body]
    pub fn init_db(&mut self) -> (r: Result<(), TaskRepoError>)
        ensures
            db_tasks(final(self).conn) == db_tasks(old(self).conn),
            db_presets(final(self).conn) == db_presets(old(self).conn),
            db_preset_tasks(final(self).conn) == db_preset_tasks(old(self).conn),
            r matches Err(e) ==> e == TaskRepoError::Storage,
    {
        let r = self.conn.execute_batch(
            "CREATE TABLE IF NOT EXISTS tasks (
                id INTEGER PRIMARY KEY, priority TEXT NOT NULL, description TEXT NOT NULL,
                completed INTEGER NOT NULL, project TEXT NOT NULL);
            CREATE TABLE IF NOT EXISTS presets (
                id INTEGER PRIMARY KEY, name TEXT NOT NULL UNIQUE);
            CREATE TABLE IF NOT EXISTS preset_tasks (
                id INTEGER PRIMARY KEY, preset_id INTEGER NOT NULL, priority TEXT NOT NULL,
                description TEXT NOT NULL,
                FOREIGN KEY(preset_id) REFERENCES presets(id) ON DELETE CASCADE);",
        );
        r.map_err(|_| TaskRepoError::Storage)
    }

    /// Rebuilds a task from a stored row. Fails with a data-integrity error
    /// exactly when the stored priority text is empty; otherwise the task's
    /// priority is the first letter of that text, and an empty stored
    /// project reads back as no project.
    pub fn task_from_row(row: &TaskRow) -> (r: Result<Task, TaskRepoError>)
        ensures
            r is Ok <==> row.priority@.len() > 0,
            r matches Ok(t) ==> task_matches_row(t, row.id as int, row.data()),
            r matches Err(e) ==> e == TaskRepoError::DataIntegrity,
    {
        if row.priority.as_str().is_empty() {
            return Err(TaskRepoError::DataIntegrity);
        }
        let priority: char = row.priority.as_str().get_char(0);
        let project: Option<String> = if row.project.as_str().is_empty() {
            None
        } else {
            Some(row.project.clone())
        };
        Ok(
            Task {
                id: row.id,
                priority,
                description: row.description.clone(),
                completed: row.completed,
                project,
            },
        )
    }

    /// Reads every row of the `tasks` table, in no promised order.
    ///
    /// Relies on rusqlite's `Connection::prepare` and `Statement::query_map`
    /// over a `SELECT` of the whole table: every row is yielded exactly
    /// once, keyed by its primary key, which is unique.
    #[verifier::external_body]
    fn select_task_rows(&self) -> (r: Result<Vec<TaskRow>, TaskRepoError>)
        ensures
            r matches Ok(rows) ==> {
                &&& forall|i: int|
                    0 <= i < rows@.len() ==> row_matches_map(self.tasks(), #[trigger] rows@[i])
                &&& distinct_row_ids(rows@)
                &&& forall|k: int| #[trigger]
                    self.tasks().dom().contains(k) ==> exists|i: int|
                        0 <= i < rows@.len() && rows@[i].id as int == k
            },
            r matches Err(e) ==> e == TaskRepoError::Storage,
    {
        let res: rusqlite::Result<Vec<TaskRow>> = (|| {
            let sql = "SELECT id, priority, description, completed, project FROM tasks";
            let mut stmt = self.conn.prepare(sql)?;
            let rows = stmt.query_map((), |row| Ok(TaskRow {
                id: row.get(0)?, priority: row.get(1)?, description: row.get(2)?,
                completed: row.get(3)?, project: row.get(4)?,
            }))?;
            rows.collect()
        })();
        res.map_err(|_| TaskRepoError::Storage)
    }

    /// Rebuilds one task per stored row, keeping the order. Fails with a
    /// data-integrity error exactly when some row's stored priority text is
    /// empty.
    fn tasks_from_rows(rows: &Vec<TaskRow>) -> (r: Result<Vec<Task>, TaskRepoError>)
        ensures
            r matches Ok(ts) ==> {
                &&& ts@.len() == rows@.len()
                &&& forall|i: int|
                    0 <= i < rows@.len() ==> task_matches_row(
                        #[trigger] ts@[i],
                        rows@[i].id as int,
                        rows@[i].data(),
                    )
            },
            r is Ok <==> (forall|i: int|
                0 <= i < rows@.len() ==> #[trigger] rows@[i].priority@.len() > 0),
            r matches Err(e) ==> e == TaskRepoError::DataIntegrity,
    {
        let mut ts: Vec<Task> = Vec::new();
        let mut i: usize = 0;
        while i < rows.len()
            invariant
                0 <= i <= rows@.len(),
                ts@.len() == i,
                forall|j: int|
                    0 <= j < i ==> task_matches_row(
                        #[trigger] ts@[j],
                        rows@[j].id as int,
                        rows@[j].data(),
                    ),
                forall|j: int| 0 <= j < i ==> #[trigger] rows@[j].priority@.len() > 0,
            decreases rows@.len() - i,
        {
            let t = match Self::task_from_row(&rows[i]) {
                Ok(t) => t,
                Err(e) => {
                    return Err(e);
                },
            };
            ts.push(t);
            i = i + 1;
        }
        Ok(ts)
    }

    /// Returns all tasks, optionally restricted to one project, in display
    /// order: incomplete before completed; within the same completion state,
    /// ascending priority letter; ties broken by ascending description. Each
    /// stored row that passes the filter is returned exactly once.
    pub fn get_all_tasks(&mut self, project_filter: Option<&str>) -> (r: Result<
        Vec<Task>,
        TaskRepoError,
    >)
        ensures
            *final(self) == *old(self),
            r matches Ok(ts) ==> {
                &&& tasks_sorted(ts@)
                &&& distinct_keys(ts@, |t: Task| t.id as int)
                &&& forall|x: int|
                    0 <= x < ts@.len() ==> {
                        &&& old(self).tasks().dom().contains((#[trigger] ts@[x]).id as int)
                        &&& task_matches_row(ts@[x], ts@[x].id as int, old(self).tasks()[ts@[x].id as int])
                        &&& passes_filter(old(self).tasks()[ts@[x].id as int], project_filter)
                    }
                &&& forall|k: int|
                    #[trigger] old(self).tasks().dom().contains(k) && passes_filter(
                        old(self).tasks()[k],
                        project_filter,
                    ) ==> exists|x: int| 0 <= x < ts@.len() && ts@[x].id as int == k
            },
            r matches Err(e) ==> e == TaskRepoError::Storage || e == TaskRepoError::DataIntegrity,
            r matches Err(e) && e == TaskRepoError::DataIntegrity ==> exists|k: int|
                #[trigger] old(self).tasks().dom().contains(k) && passes_filter(
                    old(self).tasks()[k],
                    project_filter,
                ) && old(self).tasks()[k].priority.len() == 0,
    {
        let rows = match self.select_task_rows() {
            Ok(rows) => rows,
            Err(e) => {
                return Err(e);
            },
        };
        let ghost rows0 = rows@;
        let filtered = filter_task_rows(rows, project_filter);
        let ghost f = filtered@;
        let ts = match Self::tasks_from_rows(&filtered) {
            Ok(ts) => ts,
            Err(e) => {
                proof {
                    let j = choose|j: int| 0 <= j < f.len() && !(#[trigger] f[j].priority@.len()
                        > 0);
                    let i = choose|i: int|
                        0 <= i < rows0.len() && f[j] == #[trigger] rows0[i] && passes_filter(
                            f[j].data(),
                            project_filter,
                        );
                    assert(row_matches_map(self.tasks(), rows0[i]));
                    assert(self.tasks().dom().contains(f[j].id as int));
                    assert(self.tasks()[f[j].id as int] == f[j].data());
                }
                return Err(e);
            },
        };
        let ghost ts0 = ts@;
        let sorted = sort_tasks(ts);
        proof {
            broadcast use vstd::seq_lib::group_to_multiset_ensures;
            broadcast use vstd::multiset::group_multiset_axioms;

            assert(distinct_row_ids(f));
            assert forall|i: int, j: int| 0 <= i < j < ts0.len() implies (|t: Task| t.id as int)(
                ts0[i],
            ) != (|t: Task| t.id as int)(ts0[j]) by {
                assert(ts0[i].id == f[i].id && ts0[j].id == f[j].id);
            }
            lemma_permutation_distinct_keys(ts0, sorted@, |t: Task| t.id as int);
            assert forall|x: int| 0 <= x < sorted@.len() implies {
                &&& self.tasks().dom().contains((#[trigger] sorted@[x]).id as int)
                &&& task_matches_row(
                    sorted@[x],
                    sorted@[x].id as int,
                    self.tasks()[sorted@[x].id as int],
                )
                &&& passes_filter(self.tasks()[sorted@[x].id as int], project_filter)
            } by {
                let t = sorted@[x];
                assert(sorted@.contains(t));
                assert(sorted@.to_multiset().count(t) > 0);
                assert(ts0.to_multiset().count(t) > 0);
                assert(ts0.contains(t));
                let j = ts0.lemma_contains_to_index(t);
                assert(task_matches_row(t, f[j].id as int, f[j].data()));
                let i = choose|i: int|
                    0 <= i < rows0.len() && f[j] == #[trigger] rows0[i] && passes_filter(
                        f[j].data(),
                        project_filter,
                    );
                assert(row_matches_map(self.tasks(), rows0[i]));
            }
            assert forall|k: int|
                #[trigger] self.tasks().dom().contains(k) && passes_filter(
                    self.tasks()[k],
                    project_filter,
                ) implies exists|x: int| 0 <= x < sorted@.len() && sorted@[x].id as int == k by {
                let i = choose|i: int| 0 <= i < rows0.len() && rows0[i].id as int == k;
                assert(row_matches_map(self.tasks(), rows0[i]));
                assert(passes_filter(rows0[i].data(), project_filter));
                assert(f.contains(rows0[i]));
                let j = f.lemma_contains_to_index(rows0[i]);
                assert(task_matches_row(ts0[j], f[j].id as int, f[j].data()));
                assert(ts0.contains(ts0[j]));
                assert(ts0.to_multiset().count(ts0[j]) > 0);
                assert(sorted@.to_multiset().count(ts0[j]) > 0);
                assert(sorted@.contains(ts0[j]));
                let x = sorted@.lemma_contains_to_index(ts0[j]);
                assert(sorted@[x].id as int == k);
            }
        }
        Ok(sorted)
    }

    /// Inserts a new task row with the task's fields; the store generates a
    /// fresh identity for it, which is returned.
    ///
    /// Relies on rusqlite's `Connection::execute` (a parameterized `INSERT`)
    /// and `Connection::last_insert_rowid`: the new row gets a rowid that no
    /// row uses, at least 1, no other row changes, and a failed statement
    /// changes nothing.
    #[verifier::external_body]
    fn insert_task_row(&mut self, task: &Task) -> (r: Result<i64, TaskRepoError>)
        ensures
            r matches Ok(id) ==> {
                &&& id >= 1
                &&& !old(self).tasks().dom().contains(id as int)
                &&& final(self).tasks() == old(self).tasks().insert(id as int, task_row_of(*task))
                &&& final(self).presets() == old(self).presets()
                &&& final(self).preset_tasks() == old(self).preset_tasks()
            },
            r matches Err(e) ==> e == TaskRepoError::Storage && *final(self) == *old(self),
    {
        let project: &str = match &task.project {
            Some(p) => p.as_str(),
            None => "",
        };
        let res = self.conn.execute(
            "INSERT INTO tasks (priority, description, completed, project) VALUES (?1, ?2, ?3, ?4)",
            (String::from(task.priority), task.description.as_str(), task.completed, project),
        );
        match res {
            Ok(_) => Ok(self.conn.last_insert_rowid()),
            Err(_) => Err(TaskRepoError::Storage),
        }
    }

    /// Rewrites the priority, description and completion flag of the row
    /// keyed by the task's identity; the stored project is untouched. With
    /// no matching row this is a no-op.
    ///
    /// Relies on rusqlite's `Connection::execute` (a parameterized `UPDATE
    /// ... WHERE id = ?`): only the matching row changes, only in the named
    /// columns, and a failed statement changes nothing.
    #[verifier::external_body]
    fn update_task_row(&mut self, task: &Task) -> (r: Result<(), TaskRepoError>)
        ensures
            r is Ok ==> {
                &&& old(self).tasks().dom().contains(task.id as int) ==> final(self).tasks()
                    == old(self).tasks().insert(
                    task.id as int,
                    updated_row(old(self).tasks()[task.id as int], *task),
                )
                &&& !old(self).tasks().dom().contains(task.id as int) ==> final(self).tasks()
                    == old(self).tasks()
                &&& final(self).presets() == old(self).presets()
                &&& final(self).preset_tasks() == old(self).preset_tasks()
            },
            r matches Err(e) ==> e == TaskRepoError::Storage && *final(self) == *old(self),
    {
        let res = self.conn.execute(
            "UPDATE tasks SET priority = ?1, description = ?2, completed = ?3 WHERE id = ?4",
            (String::from(task.priority), task.description.as_str(), task.completed, task.id),
        );
        match res {
            Ok(_) => Ok(()),
            Err(_) => Err(TaskRepoError::Storage),
        }
    }

    /// Persists a task. One carrying the sentinel identity is inserted as a
    /// new row under a store-generated identity, which is returned; any
    /// other is updated in place, keyed by its identity, leaving its stored
    /// project untouched (and leaving the store unchanged when no row
    /// matches).
    pub fn persist_task(&mut self, task: &Task) -> (r: Result<TaskId, TaskRepoError>)
        ensures
            r matches Ok(id) ==> {
                &&& task.id < 0 ==> {
                    &&& id >= 1
                    &&& !old(self).tasks().dom().contains(id as int)
                    &&& final(self).tasks() == old(self).tasks().insert(
                        id as int,
                        task_row_of(*task),
                    )
                }
                &&& task.id >= 0 ==> {
                    &&& id == task.id
                    &&& old(self).tasks().dom().contains(task.id as int) ==> final(self).tasks()
                        == old(self).tasks().insert(
                        task.id as int,
                        updated_row(old(self).tasks()[task.id as int], *task),
                    )
                    &&& !old(self).tasks().dom().contains(task.id as int) ==> final(self).tasks()
                        == old(self).tasks()
                }
                &&& final(self).presets() == old(self).presets()
                &&& final(self).preset_tasks() == old(self).preset_tasks()
            },
            r matches Err(e) ==> e == TaskRepoError::Storage && *final(self) == *old(self),
            old(self).ids_wf() ==> final(self).ids_wf(),
    {
        if task.id < 0 {
            self.insert_task_row(task)
        } else {
            match self.update_task_row(task) {
                Ok(_) => Ok(task.id),
                Err(e) => Err(e),
            }
        }
    }

    /// Deletes every task row whose completion flag is set, and nothing
    /// else.
    ///
    /// Relies on rusqlite's `Connection::execute` (`DELETE FROM tasks WHERE
    /// completed`): exactly the flagged rows leave the table, and a failed
    /// statement changes nothing.
    #[verifier::external_body]
    fn delete_completed_rows(&mut self) -> (r: Result<(), TaskRepoError>)
        ensures
            r is Ok ==> {
                &&& forall|k: int|
                    #![trigger old(self).tasks().dom().contains(k)]
                    #![trigger final(self).tasks().dom().contains(k)]
                    final(self).tasks().dom().contains(k) <==> (old(self).tasks().dom().contains(k)
                        && !old(self).tasks()[k].completed)
                &&& forall|k: int| #[trigger]
                    final(self).tasks().dom().contains(k) ==> final(self).tasks()[k] == old(
                        self,
                    ).tasks()[k]
                &&& final(self).presets() == old(self).presets()
                &&& final(self).preset_tasks() == old(self).preset_tasks()
            },
            r matches Err(e) ==> e == TaskRepoError::Storage && *final(self) == *old(self),
    {
        match self.conn.execute("DELETE FROM tasks WHERE completed", ()) {
            Ok(_) => Ok(()),
            Err(_) => Err(TaskRepoError::Storage),
        }
    }

    /// Deletes all completed tasks; pending tasks and their fields are
    /// unaffected, as are the preset tables.
    pub fn cleanup(&mut self) -> (r: Result<(), TaskRepoError>)
        ensures
            r is Ok ==> {
                &&& forall|k: int|
                    #![trigger old(self).tasks().dom().contains(k)]
                    #![trigger final(self).tasks().dom().contains(k)]
                    final(self).tasks().dom().contains(k) <==> (old(self).tasks().dom().contains(k)
                        && !old(self).tasks()[k].completed)
                &&& forall|k: int| #[trigger]
                    final(self).tasks().dom().contains(k) ==> final(self).tasks()[k] == old(
                        self,
                    ).tasks()[k]
                &&& final(self).presets() == old(self).presets()
                &&& final(self).preset_tasks() == old(self).preset_tasks()
            },
            r matches Err(e) ==> e == TaskRepoError::Storage && *final(self) == *old(self),
            old(self).ids_wf() ==> final(self).ids_wf(),
    {
        self.delete_completed_rows()
    }

    /// Moves every task stored under the old project label to the new one;
    /// every other row is untouched. Renaming an unused label is a silent
    /// no-op.
    ///
    /// Relies on rusqlite's `Connection::execute` (a parameterized `UPDATE
    /// tasks SET project = ? WHERE project = ?`): only the project column of
    /// the matching rows changes, and a failed statement changes nothing.
    #[verifier::external_body]
    fn rename_project_rows(&mut self, current_project_name: &str, new_project_name: &str) -> (r:
        Result<(), TaskRepoError>)
        ensures
            r is Ok ==> {
                &&& final(self).tasks().dom() == old(self).tasks().dom()
                &&& forall|k: int| #[trigger]
                    final(self).tasks().dom().contains(k) ==> final(self).tasks()[k] == renamed_row(
                        old(self).tasks()[k],
                        current_project_name@,
                        new_project_name@,
                    )
                &&& final(self).presets() == old(self).presets()
                &&& final(self).preset_tasks() == old(self).preset_tasks()
            },
            r matches Err(e) ==> e == TaskRepoError::Storage && *final(self) == *old(self),
    {
        let res = self.conn.execute(
            "UPDATE tasks SET project = ?1 WHERE project = ?2",
            (new_project_name, current_project_name),
        );
        match res {
            Ok(_) => Ok(()),
            Err(_) => Err(TaskRepoError::Storage),
        }
    }

    /// Moves every task of one project to another project label; tasks of
    /// other projects, and tasks with no project, are untouched. Renaming an
    /// unused label is a silent no-op, not an error.
    pub fn rename_project(&mut self, current_project_name: &str, new_project_name: &str) -> (r:
        Result<(), TaskRepoError>)
        ensures
            r is Ok ==> {
                &&& final(self).tasks().dom() == old(self).tasks().dom()
                &&& forall|k: int| #[trigger]
                    final(self).tasks().dom().contains(k) ==> final(self).tasks()[k] == renamed_row(
                        old(self).tasks()[k],
                        current_project_name@,
                        new_project_name@,
                    )
                &&& final(self).presets() == old(self).presets()
                &&& final(self).preset_tasks() == old(self).preset_tasks()
            },
            r matches Err(e) ==> e == TaskRepoError::Storage && *final(self) == *old(self),
            old(self).ids_wf() ==> final(self).ids_wf(),
    {
        self.rename_project_rows(current_project_name, new_project_name)
    }

    /// Lists the distinct non-empty project labels, ascending.
    pub fn get_all_projects(&mut self) -> (r: Result<Vec<String>, TaskRepoError>)
        ensures
            *final(self) == *old(self),
            r matches Ok(ps) ==> {
                &&& names_sorted(ps@)
                &&& forall|n: Seq<char>|
                    has_name(ps@, n) <==> (n.len() > 0 && exists|k: int|
                        #[trigger] old(self).tasks().dom().contains(k) && old(
                            self,
                        ).tasks()[k].project == n)
            },
            r matches Err(e) ==> e == TaskRepoError::Storage,
    {
        let rows = match self.select_task_rows() {
            Ok(rows) => rows,
            Err(e) => {
                return Err(e);
            },
        };
        let mut names: Vec<String> = Vec::new();
        let mut i: usize = 0;
        while i < rows.len()
            invariant
                0 <= i <= rows@.len(),
                forall|n: Seq<char>|
                    has_name(names@, n) <==> (n.len() > 0 && exists|j: int|
                        0 <= j < i && (#[trigger] rows@[j]).project@ == n),
            decreases rows@.len() - i,
        {
            let ghost old_names = names@;
            if !rows[i].project.as_str().is_empty() {
                names.push(rows[i].project.clone());
            }
            proof {
                assert forall|n: Seq<char>|
                    has_name(names@, n) <==> (n.len() > 0 && exists|j: int|
                        0 <= j < i + 1 && (#[trigger] rows@[j]).project@ == n) by {
                    if has_name(names@, n) {
                        let x = choose|x: int| 0 <= x < names@.len() && (#[trigger] names@[x])@
                            == n;
                        if x < old_names.len() {
                            assert(has_name(old_names, n)) by {
                                assert((old_names[x])@ == n);
                            }
                        } else {
                            assert((rows@[i as int]).project@ == n);
                        }
                    }
                    if n.len() > 0 && exists|j: int|
                        0 <= j < i + 1 && (#[trigger] rows@[j]).project@ == n {
                        let j = choose|j: int| 0 <= j < i + 1 && (#[trigger] rows@[j]).project@
                            == n;
                        if j < i {
                            assert(has_name(old_names, n));
                            let x = choose|x: int|
                                0 <= x < old_names.len() && (#[trigger] old_names[x])@ == n;
                            assert((names@[x])@ == n);
                        } else {
                            assert((names@[names@.len() - 1])@ == n);
                        }
                    }
                }
            }
            i = i + 1;
        }
        let ps = sorted_distinct_names(names);
        proof {
            assert forall|n: Seq<char>|
                has_name(ps@, n) <==> (n.len() > 0 && exists|k: int|
                    #[trigger] self.tasks().dom().contains(k) && self.tasks()[k].project == n) by {
                if has_name(ps@, n) {
                    let j = choose|j: int| 0 <= j < rows@.len() && (#[trigger] rows@[j]).project@
                        == n;
                    assert(row_matches_map(self.tasks(), rows@[j]));
                    assert(self.tasks().dom().contains(rows@[j].id as int));
                    assert(self.tasks()[rows@[j].id as int].project == n);
                }
                if n.len() > 0 && exists|k: int|
                    #[trigger] self.tasks().dom().contains(k) && self.tasks()[k].project == n {
                    let k = choose|k: int|
                        #[trigger] self.tasks().dom().contains(k) && self.tasks()[k].project == n;
                    let j = choose|j: int| 0 <= j < rows@.len() && rows@[j].id as int == k;
                    assert(row_matches_map(self.tasks(), rows@[j]));
                    assert((rows@[j]).project@ == n);
                }
            }
        }
        Ok(ps)
    }

    /// Adds a new named preset. The name is unique in the store: adding a
    /// taken name fails with a uniqueness error and changes nothing.
    ///
    /// Relies on rusqlite's `Connection::execute` (a parameterized `INSERT
    /// INTO presets`) and on SQLite's `UNIQUE` constraint on the name
    /// column: a taken name fails with a constraint violation, a fresh name
    /// is stored under a fresh rowid of at least 1, and a failed statement
    /// changes nothing.
    #[verifier::external_body]
    fn insert_preset_row(&mut self, new_preset_name: &str) -> (r: Result<(), TaskRepoError>)
        ensures
            r is Ok ==> {
                &&& !preset_name_taken(old(self).presets(), new_preset_name@)
                &&& exists|nid: int|
                    #![trigger old(self).presets().dom().contains(nid)]
                    nid >= 1 && !old(self).presets().dom().contains(nid) && final(self).presets()
                        == old(self).presets().insert(nid, new_preset_name@)
                &&& final(self).tasks() == old(self).tasks()
                &&& final(self).preset_tasks() == old(self).preset_tasks()
            },
            preset_name_taken(old(self).presets(), new_preset_name@) ==> r is Err,
            r matches Err(e) ==> {
                &&& *final(self) == *old(self)
                &&& (e == TaskRepoError::Uniqueness || e == TaskRepoError::Storage)
                &&& e == TaskRepoError::Uniqueness ==> preset_name_taken(
                    old(self).presets(),
                    new_preset_name@,
                )
            },
    {
        let res = self.conn.execute(
            "INSERT INTO presets (name) VALUES (?1)",
            (new_preset_name,),
        );
        match res {
            Ok(_) => Ok(()),
            Err(rusqlite::Error::SqliteFailure(fe, _))
                if fe.code == rusqlite::ErrorCode::ConstraintViolation
                => Err(TaskRepoError::Uniqueness),
            Err(_) => Err(TaskRepoError::Storage),
        }
    }

    /// Creates a new named preset; fails with a uniqueness error when the
    /// name is already taken.
    pub fn add_preset(&mut self, new_preset_name: &str) -> (r: Result<(), TaskRepoError>)
        ensures
            r is Ok ==> {
                &&& !preset_name_taken(old(self).presets(), new_preset_name@)
                &&& preset_name_taken(final(self).presets(), new_preset_name@)
                &&& exists|nid: int|
                    #![trigger old(self).presets().dom().contains(nid)]
                    nid >= 1 && !old(self).presets().dom().contains(nid) && final(self).presets()
                        == old(self).presets().insert(nid, new_preset_name@)
                &&& final(self).tasks() == old(self).tasks()
                &&& final(self).preset_tasks() == old(self).preset_tasks()
            },
            preset_name_taken(old(self).presets(), new_preset_name@) ==> r is Err,
            r matches Err(e) ==> {
                &&& *final(self) == *old(self)
                &&& (e == TaskRepoError::Uniqueness || e == TaskRepoError::Storage)
                &&& e == TaskRepoError::Uniqueness ==> preset_name_taken(
                    old(self).presets(),
                    new_preset_name@,
                )
            },
            old(self).ids_wf() ==> final(self).ids_wf(),
    {
        let r = self.insert_preset_row(new_preset_name);
        proof {
            if r is Ok {
                let nid = choose|nid: int|
                    #![trigger old(self).presets().dom().contains(nid)]
                    nid >= 1 && !old(self).presets().dom().contains(nid) && self.presets() == old(
                        self,
                    ).presets().insert(nid, new_preset_name@);
                assert(self.presets().dom().contains(nid) && self.presets()[nid]
                    == new_preset_name@);
            }
        }
        r
    }

    /// Reads every row of the `presets` table, in no promised order.
    ///
    /// Relies on rusqlite's `Connection::prepare` and `Statement::query_map`
    /// over a `SELECT` of the whole table: every row is yielded exactly
    /// once, keyed by its primary key, which is unique.
    #[verifier::external_body]
    fn select_preset_rows(&self) -> (r: Result<Vec<(i64, String)>, TaskRepoError>)
        ensures
            r matches Ok(rows) ==> {
                &&& forall|i: int|
                    0 <= i < rows@.len() ==> {
                        &&& self.presets().dom().contains((#[trigger] rows@[i]).0 as int)
                        &&& self.presets()[rows@[i].0 as int] == rows@[i].1@
                    }
                &&& forall|k: int| #[trigger]
                    self.presets().dom().contains(k) ==> exists|i: int|
                        0 <= i < rows@.len() && rows@[i].0 as int == k
            },
            r matches Err(e) ==> e == TaskRepoError::Storage,
    {
        let res: rusqlite::Result<Vec<(i64, String)>> = (|| {
            let mut stmt = self.conn.prepare("SELECT id, name FROM presets")?;
            let rows = stmt.query_map((), |row| Ok((row.get(0)?, row.get(1)?)))?;
            rows.collect()
        })();
        res.map_err(|_| TaskRepoError::Storage)
    }

    /// Lists the distinct preset names, ascending.
    pub fn get_all_preset_names(&mut self) -> (r: Result<Vec<String>, TaskRepoError>)
        ensures
            *final(self) == *old(self),
            r matches Ok(ns) ==> {
                &&& names_sorted(ns@)
                &&& forall|n: Seq<char>|
                    has_name(ns@, n) <==> preset_name_taken(old(self).presets(), n)
            },
            r matches Err(e) ==> e == TaskRepoError::Storage,
    {
        let rows = match self.select_preset_rows() {
            Ok(rows) => rows,
            Err(e) => {
                return Err(e);
            },
        };
        let mut names: Vec<String> = Vec::new();
        let mut i: usize = 0;
        while i < rows.len()
            invariant
                0 <= i <= rows@.len(),
                forall|n: Seq<char>|
                    has_name(names@, n) <==> exists|j: int|
                        0 <= j < i && (#[trigger] rows@[j]).1@ == n,
            decreases rows@.len() - i,
        {
            let ghost old_names = names@;
            names.push(rows[i].1.clone());
            proof {
                assert forall|n: Seq<char>|
                    has_name(names@, n) <==> exists|j: int|
                        0 <= j < i + 1 && (#[trigger] rows@[j]).1@ == n by {
                    if has_name(names@, n) {
                        let x = choose|x: int| 0 <= x < names@.len() && (#[trigger] names@[x])@
                            == n;
                        if x < old_names.len() {
                            assert(has_name(old_names, n)) by {
                                assert((old_names[x])@ == n);
                            }
                        } else {
                            assert((rows@[i as int]).1@ == n);
                        }
                    }
                    if exists|j: int| 0 <= j < i + 1 && (#[trigger] rows@[j]).1@ == n {
                        let j = choose|j: int| 0 <= j < i + 1 && (#[trigger] rows@[j]).1@ == n;
                        if j < i {
                            assert(has_name(old_names, n));
                            let x = choose|x: int|
                                0 <= x < old_names.len() && (#[trigger] old_names[x])@ == n;
                            assert((names@[x])@ == n);
                        } else {
                            assert((names@[names@.len() - 1])@ == n);
                        }
                    }
                }
            }
            i = i + 1;
        }
        let ns = sorted_distinct_names(names);
        proof {
            assert forall|n: Seq<char>|
                has_name(ns@, n) <==> preset_name_taken(self.presets(), n) by {
                if has_name(ns@, n) {
                    let j = choose|j: int| 0 <= j < rows@.len() && (#[trigger] rows@[j]).1@ == n;
                    assert(self.presets().dom().contains(rows@[j].0 as int));
                    assert(self.presets()[rows@[j].0 as int] == n);
                }
                if preset_name_taken(self.presets(), n) {
                    let k = choose|k: int| #[trigger]
                        self.presets().dom().contains(k) && self.presets()[k] == n;
                    let j = choose|j: int| 0 <= j < rows@.len() && rows@[j].0 as int == k;
                    assert((rows@[j]).1@ == n);
                }
            }
        }
        Ok(ns)
    }

    /// Resolves a preset name to its identity; fails with a not-found error
    /// when the name is unknown.
    pub fn get_preset_id_from_preset_name(&mut self, preset_name: &str) -> (r: Result<
        PresetId,
        TaskRepoError,
    >)
        ensures
            *final(self) == *old(self),
            r matches Ok(pid) ==> {
                &&& old(self).presets().dom().contains(pid as int)
                &&& old(self).presets()[pid as int] == preset_name@
            },
            r == Err::<PresetId, TaskRepoError>(TaskRepoError::NotFound) ==> !preset_name_taken(
                old(self).presets(),
                preset_name@,
            ),
            !preset_name_taken(old(self).presets(), preset_name@) ==> (r == Err::<
                PresetId,
                TaskRepoError,
            >(TaskRepoError::NotFound) || r == Err::<PresetId, TaskRepoError>(
                TaskRepoError::Storage,
            )),
            r matches Err(e) ==> e == TaskRepoError::NotFound || e == TaskRepoError::Storage,
    {
        let rows = match self.select_preset_rows() {
            Ok(rows) => rows,
            Err(e) => {
                return Err(e);
            },
        };
        let mut i: usize = 0;
        while i < rows.len()
            invariant
                0 <= i <= rows@.len(),
                forall|j: int| 0 <= j < i ==> (#[trigger] rows@[j]).1@ != preset_name@,
                forall|j: int|
                    0 <= j < rows@.len() ==> {
                        &&& old(self).presets().dom().contains((#[trigger] rows@[j]).0 as int)
                        &&& old(self).presets()[rows@[j].0 as int] == rows@[j].1@
                    },
                forall|k: int| #[trigger]
                    old(self).presets().dom().contains(k) ==> exists|j: int|
                        0 <= j < rows@.len() && rows@[j].0 as int == k,
                *self == *old(self),
            decreases rows@.len() - i,
        {
            if str_eq(rows[i].1.as_str(), preset_name) {
                return Ok(rows[i].0);
            }
            i = i + 1;
        }
        proof {
            if preset_name_taken(old(self).presets(), preset_name@) {
                let k = choose|k: int| #[trigger]
                    old(self).presets().dom().contains(k) && old(self).presets()[k]
                        == preset_name@;
                let j = choose|j: int|
                    0 <= j < rows@.len() && (#[trigger] rows@[j]).0 as int == k;
                assert(rows@[j].1@ == preset_name@);
                assert(false);
            }
        }
        Err(TaskRepoError::NotFound)
    }

    /// Reads every row of the `preset_tasks` table, in no promised order.
    ///
    /// Relies on rusqlite's `Connection::prepare` and `Statement::query_map`
    /// over a `SELECT` of the whole table: every row is yielded exactly
    /// once, keyed by its primary key, which is unique.
    #[verifier::external_body]
    fn select_preset_task_rows(&self) -> (r: Result<Vec<PresetTaskRow>, TaskRepoError>)
        ensures
            r matches Ok(rows) ==> {
                &&& forall|i: int|
                    0 <= i < rows@.len() ==> {
                        &&& self.preset_tasks().dom().contains((#[trigger] rows@[i]).id as int)
                        &&& rows@[i].data() == self.preset_tasks()[rows@[i].id as int]
                    }
                &&& forall|i: int, j: int| 0 <= i < j < rows@.len() ==> rows@[i].id != rows@[j].id
                &&& forall|k: int| #[trigger]
                    self.preset_tasks().dom().contains(k) ==> exists|i: int|
                        0 <= i < rows@.len() && rows@[i].id as int == k
            },
            r matches Err(e) ==> e == TaskRepoError::Storage,
    {
        let res: rusqlite::Result<Vec<PresetTaskRow>> = (|| {
            let sql = "SELECT id, preset_id, priority, description FROM preset_tasks";
            let mut stmt = self.conn.prepare(sql)?;
            let rows = stmt.query_map((), |row| Ok(PresetTaskRow {
                id: row.get(0)?, preset_id: row.get(1)?,
                priority: row.get(2)?, description: row.get(3)?,
            }))?;
            rows.collect()
        })();
        res.map_err(|_| TaskRepoError::Storage)
    }

    /// Rebuilds a preset task from a stored row. Fails with a
    /// data-integrity error exactly when the stored priority text is empty;
    /// otherwise the priority is the first letter of that text.
    pub fn preset_task_from_row(row: &PresetTaskRow) -> (r: Result<PresetTask, TaskRepoError>)
        ensures
            r is Ok <==> row.priority@.len() > 0,
            r matches Ok(t) ==> preset_task_matches_row(t, row.id as int, row.data()),
            r matches Err(e) ==> e == TaskRepoError::DataIntegrity,
    {
        if row.priority.as_str().is_empty() {
            return Err(TaskRepoError::DataIntegrity);
        }
        let priority: char = row.priority.as_str().get_char(0);
        Ok(
            PresetTask {
                id: row.id,
                preset_id: row.preset_id,
                priority,
                description: row.description.clone(),
            },
        )
    }

    /// Resolves a preset name and loads its template: the preset's identity,
    /// its name, and its preset tasks in ascending identity order, one per
    /// stored row owned by the preset. Fails with a not-found error when the
    /// name is unknown.
    pub fn get_preset(&mut self, preset_name: &str) -> (r: Result<Preset, TaskRepoError>)
        ensures
            *final(self) == *old(self),
            r matches Ok(p) ==> {
                &&& old(self).presets().dom().contains(p.id as int)
                &&& old(self).presets()[p.id as int] == preset_name@
                &&& p.name@ == preset_name@
                &&& preset_tasks_sorted(p.tasks@)
                &&& distinct_keys(p.tasks@, |t: PresetTask| t.id as int)
                &&& forall|x: int|
                    0 <= x < p.tasks@.len() ==> {
                        &&& old(self).preset_tasks().dom().contains(
                            (#[trigger] p.tasks@[x]).id as int,
                        )
                        &&& preset_task_matches_row(
                            p.tasks@[x],
                            p.tasks@[x].id as int,
                            old(self).preset_tasks()[p.tasks@[x].id as int],
                        )
                        &&& old(self).preset_tasks()[p.tasks@[x].id as int].preset_id
                            == p.id as int
                    }
                &&& forall|k: int| #[trigger]
                    old(self).preset_tasks().dom().contains(k) && old(
                        self,
                    ).preset_tasks()[k].preset_id == p.id as int ==> exists|x: int|
                        0 <= x < p.tasks@.len() && p.tasks@[x].id as int == k
            },
            r == Err::<Preset, TaskRepoError>(TaskRepoError::NotFound) ==> !preset_name_taken(
                old(self).presets(),
                preset_name@,
            ),
            !preset_name_taken(old(self).presets(), preset_name@) ==> (r == Err::<
                Preset,
                TaskRepoError,
            >(TaskRepoError::NotFound) || r == Err::<Preset, TaskRepoError>(
                TaskRepoError::Storage,
            )),
            r matches Err(e) ==> e == TaskRepoError::NotFound || e == TaskRepoError::Storage || e
                == TaskRepoError::DataIntegrity,
    {
        let preset_id = match self.get_preset_id_from_preset_name(preset_name) {
            Ok(pid) => pid,
            Err(e) => {
                return Err(e);
            },
        };
        let rows = match self.select_preset_task_rows() {
            Ok(rows) => rows,
            Err(e) => {
                return Err(e);
            },
        };
        let mut ts: Vec<PresetTask> = Vec::new();
        let mut i: usize = 0;
        while i < rows.len()
            invariant
                0 <= i <= rows@.len(),
                *self == *old(self),
                old(self).presets().dom().contains(preset_id as int),
                old(self).presets()[preset_id as int] == preset_name@,
                forall|j: int|
                    0 <= j < rows@.len() ==> {
                        &&& old(self).preset_tasks().dom().contains((#[trigger] rows@[j]).id as int)
                        &&& rows@[j].data() == old(self).preset_tasks()[rows@[j].id as int]
                    },
                forall|j1: int, j2: int| 0 <= j1 < j2 < rows@.len() ==> rows@[j1].id != rows@[j2].id,
                forall|k: int| #[trigger]
                    old(self).preset_tasks().dom().contains(k) ==> exists|j: int|
                        0 <= j < rows@.len() && rows@[j].id as int == k,
                forall|x: int|
                    0 <= x < ts@.len() ==> {
                        &&& old(self).preset_tasks().dom().contains((#[trigger] ts@[x]).id as int)
                        &&& preset_task_matches_row(
                            ts@[x],
                            ts@[x].id as int,
                            old(self).preset_tasks()[ts@[x].id as int],
                        )
                        &&& old(self).preset_tasks()[ts@[x].id as int].preset_id == preset_id as int
                    },
                forall|x: int|
                    0 <= x < ts@.len() ==> exists|j: int|
                        0 <= j < i && (#[trigger] ts@[x]).id == rows@[j].id,
                forall|x1: int, x2: int| 0 <= x1 < x2 < ts@.len() ==> ts@[x1].id != ts@[x2].id,
                forall|j: int|
                    0 <= j < i && (#[trigger] rows@[j]).preset_id == preset_id ==> exists|x: int|
                        0 <= x < ts@.len() && ts@[x].id == rows@[j].id,
            decreases rows@.len() - i,
        {
            let ghost old_ts = ts@;
            if rows[i].preset_id == preset_id {
                let t = match Self::preset_task_from_row(&rows[i]) {
                    Ok(t) => t,
                    Err(e) => {
                        return Err(e);
                    },
                };
                ts.push(t);
                proof {
                    assert(ts@[ts@.len() - 1] == t);
                    assert(preset_task_matches_row(
                        t,
                        rows@[i as int].id as int,
                        rows@[i as int].data(),
                    ));
                    assert forall|x1: int, x2: int| 0 <= x1 < x2 < ts@.len() implies ts@[x1].id
                        != ts@[x2].id by {
                        if x2 == ts@.len() - 1 {
                            let j = choose|j: int|
                                0 <= j < i && (#[trigger] old_ts[x1]).id == rows@[j].id;
                            assert(rows@[j].id != rows@[i as int].id);
                        }
                    }
                    assert forall|x: int| 0 <= x < ts@.len() implies exists|j: int|
                        0 <= j < i + 1 && (#[trigger] ts@[x]).id == rows@[j].id by {
                        if x < ts@.len() - 1 {
                            let j = choose|j: int|
                                0 <= j < i && (#[trigger] old_ts[x]).id == rows@[j].id;
                            assert(ts@[x].id == rows@[j].id);
                        } else {
                            assert(ts@[x].id == rows@[i as int].id);
                        }
                    }
                    assert forall|j: int|
                        0 <= j < i + 1 && (#[trigger] rows@[j]).preset_id == preset_id implies exists|x: int|
                        0 <= x < ts@.len() && ts@[x].id == rows@[j].id by {
                        if j < i {
                            let x = choose|x: int|
                                0 <= x < old_ts.len() && (#[trigger] old_ts[x]).id == rows@[j].id;
                            assert(ts@[x].id == rows@[j].id);
                        } else {
                            assert(ts@[ts@.len() - 1].id == rows@[j].id);
                        }
                    }
                }
            }
            i = i + 1;
        }
        let ghost f = rows@;
        let ghost ts0 = ts@;
        let sorted = sort_preset_tasks(ts);
        proof {
            broadcast use vstd::seq_lib::group_to_multiset_ensures;
            broadcast use vstd::multiset::group_multiset_axioms;

            assert forall|x1: int, x2: int| 0 <= x1 < x2 < ts0.len() implies (|t: PresetTask|
                t.id as int)(ts0[x1]) != (|t: PresetTask| t.id as int)(ts0[x2]) by {
                assert(ts0[x1].id != ts0[x2].id);
            }
            lemma_permutation_distinct_keys(ts0, sorted@, |t: PresetTask| t.id as int);
            assert forall|x: int| 0 <= x < sorted@.len() implies {
                &&& self.preset_tasks().dom().contains((#[trigger] sorted@[x]).id as int)
                &&& preset_task_matches_row(
                    sorted@[x],
                    sorted@[x].id as int,
                    self.preset_tasks()[sorted@[x].id as int],
                )
                &&& self.preset_tasks()[sorted@[x].id as int].preset_id == preset_id as int
            } by {
                let t = sorted@[x];
                assert(sorted@.contains(t));
                assert(sorted@.to_multiset().count(t) > 0);
                assert(ts0.to_multiset().count(t) > 0);
                assert(ts0.contains(t));
                let x0 = ts0.lemma_contains_to_index(t);
                assert(preset_task_matches_row(ts0[x0], ts0[x0].id as int, self.preset_tasks()[ts0[x0].id as int]));
            }
            assert forall|k: int| #[trigger]
                self.preset_tasks().dom().contains(k) && self.preset_tasks()[k].preset_id
                    == preset_id as int implies exists|x: int|
                0 <= x < sorted@.len() && sorted@[x].id as int == k by {
                let j = choose|j: int| 0 <= j < f.len() && (#[trigger] f[j]).id as int == k;
                assert(f[j].data() == self.preset_tasks()[k]);
                assert(f[j].data().preset_id == preset_id as int);
                assert(f[j].preset_id == preset_id);
                let x0 = choose|x: int| 0 <= x < ts0.len() && ts0[x].id == f[j].id;
                assert(ts0.contains(ts0[x0]));
                assert(ts0.to_multiset().count(ts0[x0]) > 0);
                assert(sorted@.to_multiset().count(ts0[x0]) > 0);
                assert(sorted@.contains(ts0[x0]));
                let x = sorted@.lemma_contains_to_index(ts0[x0]);
                assert(sorted@[x].id as int == k);
            }
        }
        Ok(Preset { id: preset_id, name: preset_name.to_owned(), tasks: sorted })
    }

    /// Inserts a new preset task row with the given fields; the store
    /// generates a fresh identity for it.
    ///
    /// Relies on rusqlite's `Connection::execute` (a parameterized `INSERT
    /// INTO preset_tasks`) and `Connection::last_insert_rowid`: the new row
    /// gets a rowid that no row uses, at least 1, no other row changes, and
    /// a failed statement changes nothing.
    #[verifier::external_body]
    fn insert_preset_task_row(&mut self, preset_task: &PresetTask) -> (r: Result<
        i64,
        TaskRepoError,
    >)
        ensures
            r matches Ok(id) ==> {
                &&& id >= 1
                &&& !old(self).preset_tasks().dom().contains(id as int)
                &&& final(self).preset_tasks() == old(self).preset_tasks().insert(
                    id as int,
                    preset_task_row_of(*preset_task),
                )
                &&& final(self).tasks() == old(self).tasks()
                &&& final(self).presets() == old(self).presets()
            },
            r matches Err(e) ==> e == TaskRepoError::Storage && *final(self) == *old(self),
    {
        let res = self.conn.execute(
            "INSERT INTO preset_tasks (preset_id, priority, description) VALUES (?1, ?2, ?3)",
            (preset_task.preset_id, String::from(preset_task.priority),
                preset_task.description.as_str()),
        );
        match res {
            Ok(_) => Ok(self.conn.last_insert_rowid()),
            Err(_) => Err(TaskRepoError::Storage),
        }
    }

    /// Persists a brand-new preset task as a new row under a
    /// store-generated identity. Preset tasks are insert-only: one that was
    /// already persisted is refused with an unsupported-operation error.
    pub fn persist_preset_task(&mut self, preset_task: PresetTask) -> (r: Result<
        (),
        TaskRepoError,
    >)
        ensures
            preset_task.id >= 0 ==> r == Err::<(), TaskRepoError>(
                TaskRepoError::UnsupportedOperation,
            ) && *final(self) == *old(self),
            preset_task.id < 0 && r is Ok ==> {
                &&& exists|nid: int|
                    #![trigger old(self).preset_tasks().dom().contains(nid)]
                    nid >= 1 && !old(self).preset_tasks().dom().contains(nid) && final(self).preset_tasks() == old(self).preset_tasks().insert(
                        nid,
                        preset_task_row_of(preset_task),
                    )
                &&& final(self).tasks() == old(self).tasks()
                &&& final(self).presets() == old(self).presets()
            },
            preset_task.id < 0 ==> (r matches Err(e) ==> e == TaskRepoError::Storage
                && *final(self) == *old(self)),
            old(self).ids_wf() ==> final(self).ids_wf(),
    {
        if preset_task.id >= 0 {
            return Err(TaskRepoError::UnsupportedOperation);
        }
        match self.insert_preset_task_row(&preset_task) {
            Ok(_) => Ok(()),
            Err(e) => Err(e),
        }
    }

    /// Loads the named preset and, for each of its preset tasks, creates
    /// and persists a brand-new task carrying that preset task's priority
    /// and description, with the preset's name as its project. The preset
    /// itself is not mutated. A failure part-way leaves the already
    /// injected tasks in place, each still of that shape.
    pub fn inject_preset(&mut self, preset_name: &str) -> (r: Result<(), TaskRepoError>)
        ensures
            final(self).presets() == old(self).presets(),
            final(self).preset_tasks() == old(self).preset_tasks(),
            forall|k: int| #[trigger]
                old(self).tasks().dom().contains(k) ==> final(self).tasks().dom().contains(k)
                    && final(self).tasks()[k] == old(self).tasks()[k],
            forall|k: int| #[trigger]
                final(self).tasks().dom().contains(k) && !old(self).tasks().dom().contains(k)
                    ==> injected_row(
                    final(self).tasks()[k],
                    old(self).presets(),
                    old(self).preset_tasks(),
                    preset_name@,
                ),
            r is Ok ==> exists|pid: int|
                {
                    &&& #[trigger] old(self).presets().dom().contains(pid)
                    &&& old(self).presets()[pid] == preset_name@
                    &&& forall|j: int| #[trigger]
                        old(self).preset_tasks().dom().contains(j) && old(
                            self,
                        ).preset_tasks()[j].preset_id == pid ==> exists|k: int|
                            final(self).tasks().dom().contains(k) && !old(
                                self,
                            ).tasks().dom().contains(k) && final(self).tasks()[k].priority == seq![
                                old(self).preset_tasks()[j].priority[0],
                            ] && final(self).tasks()[k].description == old(
                                self,
                            ).preset_tasks()[j].description
                },
            r == Err::<(), TaskRepoError>(TaskRepoError::NotFound) ==> !preset_name_taken(
                old(self).presets(),
                preset_name@,
            ),
            !preset_name_taken(old(self).presets(), preset_name@) ==> (r == Err::<
                (),
                TaskRepoError,
            >(TaskRepoError::NotFound) || r == Err::<(), TaskRepoError>(TaskRepoError::Storage)),
            r matches Err(e) ==> e == TaskRepoError::NotFound || e == TaskRepoError::Storage || e
                == TaskRepoError::DataIntegrity || e matches TaskRepoError::TaskError { .. },
            old(self).ids_wf() ==> final(self).ids_wf(),
    {
        let preset = match self.get_preset(preset_name) {
            Ok(p) => p,
            Err(e) => {
                return Err(e);
            },
        };
        let mut i: usize = 0;
        while i < preset.tasks.len()
            invariant
                self.presets() == old(self).presets(),
                self.preset_tasks() == old(self).preset_tasks(),
                forall|k: int| #[trigger]
                    old(self).tasks().dom().contains(k) ==> self.tasks().dom().contains(k)
                        && self.tasks()[k] == old(self).tasks()[k],
                forall|k: int| #[trigger]
                    self.tasks().dom().contains(k) && !old(self).tasks().dom().contains(k)
                        ==> injected_row(
                        self.tasks()[k],
                        old(self).presets(),
                        old(self).preset_tasks(),
                        preset_name@,
                    ),
                old(self).ids_wf() ==> self.ids_wf(),
                0 <= i <= preset.tasks@.len(),
                old(self).presets().dom().contains(preset.id as int),
                old(self).presets()[preset.id as int] == preset_name@,
                forall|x: int|
                    0 <= x < preset.tasks@.len() ==> {
                        &&& old(self).preset_tasks().dom().contains(
                            (#[trigger] preset.tasks@[x]).id as int,
                        )
                        &&& preset_task_matches_row(
                            preset.tasks@[x],
                            preset.tasks@[x].id as int,
                            old(self).preset_tasks()[preset.tasks@[x].id as int],
                        )
                        &&& old(self).preset_tasks()[preset.tasks@[x].id as int].preset_id
                            == preset.id as int
                    },
                forall|j: int| #[trigger]
                    old(self).preset_tasks().dom().contains(j) && old(
                        self,
                    ).preset_tasks()[j].preset_id == preset.id as int ==> exists|x: int|
                        0 <= x < preset.tasks@.len() && preset.tasks@[x].id as int == j,
                forall|x: int|
                    0 <= x < i ==> exists|k: int|
                        self.tasks().dom().contains(k) && !old(self).tasks().dom().contains(k)
                            && self.tasks()[k].priority == seq![
                            (#[trigger] preset.tasks@[x]).priority,
                        ] && self.tasks()[k].description == preset.tasks@[x].description@,
            decreases preset.tasks@.len() - i,
        {
            let pt = &preset.tasks[i];
            let t = match Task::new(pt.priority, pt.description.as_str(), Some(preset_name)) {
                Ok(t) => t,
                Err(te) => {
                    return Err(TaskRepoError::TaskError { original_error: te });
                },
            };
            let ghost mid = *self;
            let nk = match self.persist_task(&t) {
                Ok(k) => k,
                Err(e) => {
                    return Err(e);
                },
            };
            proof {
                assert(self.tasks() == mid.tasks().insert(nk as int, task_row_of(t)));
                assert(injected_row(
                    task_row_of(t),
                    old(self).presets(),
                    old(self).preset_tasks(),
                    preset_name@,
                )) by {
                    let pid = preset.id as int;
                    let j = preset.tasks@[i as int].id as int;
                    assert(old(self).presets().dom().contains(pid) && old(self).presets()[pid]
                        == preset_name@ && old(self).preset_tasks().dom().contains(j) && old(
                        self,
                    ).preset_tasks()[j].preset_id == pid && old(
                        self,
                    ).preset_tasks()[j].priority.len() > 0 && task_row_of(t).priority == seq![
                        old(self).preset_tasks()[j].priority[0],
                    ] && task_row_of(t).description == old(self).preset_tasks()[j].description);
                }
                assert forall|x: int| 0 <= x < i + 1 implies exists|k: int|
                    self.tasks().dom().contains(k) && !old(self).tasks().dom().contains(k)
                        && self.tasks()[k].priority == seq![
                        (#[trigger] preset.tasks@[x]).priority,
                    ] && self.tasks()[k].description == preset.tasks@[x].description@ by {
                    if x < i {
                        let k = choose|k: int|
                            mid.tasks().dom().contains(k) && !old(self).tasks().dom().contains(k)
                                && mid.tasks()[k].priority == seq![
                                (#[trigger] preset.tasks@[x]).priority,
                            ] && mid.tasks()[k].description == preset.tasks@[x].description@;
                        assert(self.tasks().dom().contains(k) && self.tasks()[k]
                            == mid.tasks()[k]);
                    } else {
                        assert(self.tasks().dom().contains(nk as int) && !old(
                            self,
                        ).tasks().dom().contains(nk as int) && self.tasks()[nk as int]
                            == task_row_of(t));
                    }
                }
            }
            i = i + 1;
        }
        proof {
            assert forall|j: int| #[trigger]
                old(self).preset_tasks().dom().contains(j) && old(
                    self,
                ).preset_tasks()[j].preset_id == preset.id as int implies exists|k: int|
                self.tasks().dom().contains(k) && !old(self).tasks().dom().contains(k)
                    && self.tasks()[k].priority == seq![old(self).preset_tasks()[j].priority[0]]
                    && self.tasks()[k].description == old(self).preset_tasks()[j].description by {
                let x = choose|x: int|
                    0 <= x < preset.tasks@.len() && (#[trigger] preset.tasks@[x]).id as int == j;
                assert(preset_task_matches_row(
                    preset.tasks@[x],
                    j,
                    old(self).preset_tasks()[j],
                ));
                let k = choose|k: int|
                    self.tasks().dom().contains(k) && !old(self).tasks().dom().contains(k)
                        && self.tasks()[k].priority == seq![
                        (#[trigger] preset.tasks@[x]).priority,
                    ] && self.tasks()[k].description == preset.tasks@[x].description@;
                assert(self.tasks().dom().contains(k));
            }
        }
        Ok(())
    }

    /// Fetches one task by identity. Fails with a not-found error when no
    /// row matches, which is a normal outcome, and in particular on every
    /// sentinel (negative) identity.
    pub fn get_task(&mut self, task_id: TaskId) -> (r: Result<Task, TaskRepoError>)
        ensures
            *final(self) == *old(self),
            r matches Ok(t) ==> {
                &&& old(self).tasks().dom().contains(task_id as int)
                &&& task_matches_row(t, task_id as int, old(self).tasks()[task_id as int])
            },
            r == Err::<Task, TaskRepoError>(TaskRepoError::NotFound) ==> !old(self).tasks().dom().contains(
                task_id as int,
            ),
            !old(self).tasks().dom().contains(task_id as int) ==> (r == Err::<
                Task,
                TaskRepoError,
            >(TaskRepoError::NotFound) || r == Err::<Task, TaskRepoError>(TaskRepoError::Storage)),
            r == Err::<Task, TaskRepoError>(TaskRepoError::DataIntegrity) ==> {
                &&& old(self).tasks().dom().contains(task_id as int)
                &&& old(self).tasks()[task_id as int].priority.len() == 0
            },
            old(self).ids_wf() && task_id < 0 ==> (r == Err::<Task, TaskRepoError>(
                TaskRepoError::NotFound,
            ) || r == Err::<Task, TaskRepoError>(TaskRepoError::Storage)),
            r matches Err(e) ==> e == TaskRepoError::NotFound || e == TaskRepoError::Storage || e
                == TaskRepoError::DataIntegrity,
    {
        let rows = match self.select_task_rows() {
            Ok(rows) => rows,
            Err(e) => {
                return Err(e);
            },
        };
        let mut i: usize = 0;
        while i < rows.len()
            invariant
                0 <= i <= rows@.len(),
                forall|j: int| 0 <= j < i ==> (#[trigger] rows@[j]).id != task_id,
                forall|j: int|
                    0 <= j < rows@.len() ==> row_matches_map(
                        old(self).tasks(),
                        #[trigger] rows@[j],
                    ),
                forall|k: int| #[trigger]
                    old(self).tasks().dom().contains(k) ==> exists|j: int|
                        0 <= j < rows@.len() && rows@[j].id as int == k,
                *self == *old(self),
            decreases rows@.len() - i,
        {
            if rows[i].id == task_id {
                return Self::task_from_row(&rows[i]);
            }
            i = i + 1;
        }
        proof {
            if old(self).tasks().dom().contains(task_id as int) {
                let j = choose|j: int|
                    0 <= j < rows@.len() && (#[trigger] rows@[j]).id as int == task_id as int;
                assert(rows@[j].id != task_id);
                assert(false);
            }
        }
        Err(TaskRepoError::NotFound)
    }
}

} // verus!
