use vstd::prelude::*;
use crate::task::is_valid_priority;

verus! {

/// Integer identity of a preset task row; a negative value marks one that was
/// never persisted.
pub type PresetTaskId = i64;

/// Integer identity of a preset row.
pub type PresetId = i64;

/// One line of a preset template: a (priority, description) pair owned by a
/// preset.
#[derive(Debug)]
pub struct PresetTask {
    pub id: PresetTaskId,
    pub preset_id: PresetId,
    pub priority: char,
    pub description: String,
}

#[derive(Debug)]
pub enum PresetTaskError {
    /// Tried to set the priority to a letter outside of `A..Z`.
    PriorityNotInRangeError(char),
}

impl PresetTask {
    /// A preset task is well formed when its priority letter lies in `A..Z`.
    pub open spec fn wf(self) -> bool {
        is_valid_priority(self.priority)
    }

    /// Creates a brand new, never-persisted-before preset task. Fails exactly
    /// when the priority letter lies outside of `A..Z`.
    pub fn new(priority: char, description: &str, preset_id: PresetId) -> (r: Result<
        PresetTask,
        PresetTaskError,
    >)
        ensures
            r is Ok <==> is_valid_priority(priority),
            r matches Ok(t) ==> {
                &&& t.id == -1
                &&& t.preset_id == preset_id
                &&& t.priority == priority
                &&& t.description@ == description@
                &&& t.wf()
            },
            r matches Err(e) ==> e == PresetTaskError::PriorityNotInRangeError(priority),
    {
        if (priority as u32) < 'A' as u32 || (priority as u32) > 'Z' as u32 {
            return Err(PresetTaskError::PriorityNotInRangeError(priority));
        }
        Ok(PresetTask { id: -1, preset_id, priority, description: description.to_owned() })
    }
}

/// A named, reusable template of task definitions.
#[derive(Debug)]
pub struct Preset {
    pub id: PresetId,
    pub name: String,
    pub tasks: Vec<PresetTask>,
}

} // verus!
