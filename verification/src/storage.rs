use vstd::prelude::*;

verus! {

/// The storage handle of the relational store. A `rusqlite::Connection` owns
/// an embedded SQLite database; all rows the store holds are reached through
/// it.
#[verifier::external_type_specification]
#[verifier::external_body]
pub struct ExConnection(rusqlite::Connection);

/// The error type of the underlying store, used by the connection factory.
#[verifier::external_type_specification]
#[verifier::external_body]
pub struct ExSqlError(rusqlite::Error);

/// The stored fields of one row of the `tasks` table. The priority and the
/// project are kept as the stored text: an empty priority is a malformed row,
/// an empty project means "no project".
pub struct TaskData {
    pub priority: Seq<char>,
    pub description: Seq<char>,
    pub completed: bool,
    pub project: Seq<char>,
}

/// The stored fields of one row of the `preset_tasks` table.
pub struct PresetTaskData {
    pub preset_id: int,
    pub priority: Seq<char>,
    pub description: Seq<char>,
}

/// The rows of the `tasks` table held by a connection's database, keyed by
/// their row identity.
pub uninterp spec fn db_tasks(conn: rusqlite::Connection) -> Map<int, TaskData>;

/// The rows of the `presets` table held by a connection's database: identity
/// to preset name.
pub uninterp spec fn db_presets(conn: rusqlite::Connection) -> Map<int, Seq<char>>;

/// The rows of the `preset_tasks` table held by a connection's database,
/// keyed by their row identity.
pub uninterp spec fn db_preset_tasks(conn: rusqlite::Connection) -> Map<int, PresetTaskData>;

/// One row of the `tasks` table as read back from the store, before any
/// parsing.
pub struct TaskRow {
    pub id: i64,
    pub priority: String,
    pub description: String,
    pub completed: bool,
    pub project: String,
}

/// One row of the `preset_tasks` table as read back from the store, before
/// any parsing.
pub struct PresetTaskRow {
    pub id: i64,
    pub preset_id: i64,
    pub priority: String,
    pub description: String,
}

impl TaskRow {
    /// The stored fields of this row.
    pub open spec fn data(self) -> TaskData {
        TaskData {
            priority: self.priority@,
            description: self.description@,
            completed: self.completed,
            project: self.project@,
        }
    }
}

impl PresetTaskRow {
    /// The stored fields of this row.
    pub open spec fn data(self) -> PresetTaskData {
        PresetTaskData {
            preset_id: self.preset_id as int,
            priority: self.priority@,
            description: self.description@,
        }
    }
}

/// Whether this row reads back exactly one entry of the table: its identity
/// is a key, and the stored fields are that key's.
pub open spec fn row_matches_map(m: Map<int, TaskData>, row: TaskRow) -> bool {
    &&& m.dom().contains(row.id as int)
    &&& row.data() == m[row.id as int]
}

/// No two rows share an identity.
pub open spec fn distinct_row_ids(s: Seq<TaskRow>) -> bool {
    forall|i: int, j: int| 0 <= i < j < s.len() ==> s[i].id != s[j].id
}

/// Whether a stored task row passes a project filter: no filter admits every
/// row, a filter admits the rows whose stored project equals it.
pub open spec fn passes_filter(d: TaskData, filter: Option<&str>) -> bool {
    match filter {
        None => true,
        Some(p) => d.project == p@,
    }
}

/// How an in-memory preset task relates to a stored row.
pub open spec fn preset_task_matches_row(t: crate::presets::PresetTask, id: int, d: PresetTaskData) -> bool {
    &&& t.id == id
    &&& d.priority.len() > 0
    &&& t.priority == d.priority[0]
    &&& t.description@ == d.description
    &&& t.preset_id as int == d.preset_id
}

/// Whether some row of the `presets` table carries this name.
pub open spec fn preset_name_taken(presets: Map<int, Seq<char>>, name: Seq<char>) -> bool {
    exists|k: int| #[trigger] presets.dom().contains(k) && presets[k] == name
}

} // verus!
