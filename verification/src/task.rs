use vstd::prelude::*;

verus! {

/// Integer identity of a task row; a negative value marks a task that was
/// never persisted.
pub type TaskId = i64;

/// A priority letter is valid when it lies in the closed range `A..Z`.
pub open spec fn is_valid_priority(c: char) -> bool {
    'A' as u32 <= c as u32 <= 'Z' as u32
}

/// A task record: identity, priority letter, free-text description,
/// completion flag and an optional project label.
#[derive(Debug)]
pub struct Task {
    pub id: TaskId,
    pub priority: char,
    pub description: String,
    pub completed: bool,
    pub project: Option<String>,
}

#[derive(Debug)]
pub enum TaskError {
    /// Tried to set the priority to a letter outside of `A..Z`.
    PriorityNotInRangeError(char),
}

impl Task {
    /// A task is well formed when its priority letter lies in `A..Z`.
    pub open spec fn wf(self) -> bool {
        is_valid_priority(self.priority)
    }

    /// Creates a brand new, never-persisted-before task. Fails exactly when
    /// the priority letter lies outside of `A..Z`.
    pub fn new(priority: char, description: &str, project: Option<&str>) -> (r: Result<
        Task,
        TaskError,
    >)
        ensures
            r is Ok <==> is_valid_priority(priority),
            r matches Ok(t) ==> {
                &&& t.id == -1
                &&& t.priority == priority
                &&& t.description@ == description@
                &&& t.completed == false
                &&& t.wf()
                &&& match project {
                    Some(p) => t.project matches Some(q) && q@ == p@,
                    None => t.project is None,
                }
            },
            r matches Err(e) ==> e == TaskError::PriorityNotInRangeError(priority),
    {
        if (priority as u32) < 'A' as u32 || (priority as u32) > 'Z' as u32 {
            return Err(TaskError::PriorityNotInRangeError(priority));
        }
        Ok(
            Task {
                id: -1,
                priority,
                description: description.to_owned(),
                completed: false,
                project: match project {
                    Some(p) => Some(p.to_owned()),
                    None => None,
                },
            },
        )
    }

    /// Moves the priority one letter toward `A`; a no-op when it is already
    /// `A`. Only the priority letter changes.
    pub fn increase_priority(&mut self)
        requires
            old(self).wf(),
        ensures
            final(self).wf(),
            old(self).priority == 'A' ==> final(self).priority == 'A',
            old(self).priority != 'A' ==> final(self).priority as u32 == old(self).priority as u32
                - 1,
            final(self).id == old(self).id,
            final(self).description == old(self).description,
            final(self).completed == old(self).completed,
            final(self).project == old(self).project,
    {
        if self.priority != 'A' {
            let code: u8 = (self.priority as u32 - 1) as u8;
            self.priority = code as char;
        }
    }

    /// Moves the priority one letter toward `Z`; a no-op when it is already
    /// `Z`. Only the priority letter changes.
    pub fn lower_priority(&mut self)
        requires
            old(self).wf(),
        ensures
            final(self).wf(),
            old(self).priority == 'Z' ==> final(self).priority == 'Z',
            old(self).priority != 'Z' ==> final(self).priority as u32 == old(self).priority as u32
                + 1,
            final(self).id == old(self).id,
            final(self).description == old(self).description,
            final(self).completed == old(self).completed,
            final(self).project == old(self).project,
    {
        if self.priority != 'Z' {
            let code: u8 = (self.priority as u32 + 1) as u8;
            self.priority = code as char;
        }
    }
}

} // verus!
