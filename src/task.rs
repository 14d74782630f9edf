use vstd::prelude::*;

verus! {

/// How urgent a task is.
#[derive(Debug, PartialEq, Eq, Structural, Clone, Copy)]
pub enum Priority {
    Low,
    Medium,
    High,
}

/// One step up, saturating at `High`.
pub open spec fn raised(p: Priority) -> Priority {
    match p {
        Priority::Low => Priority::Medium,
        Priority::Medium => Priority::High,
        Priority::High => Priority::High,
    }
}

/// One step down, saturating at `Low`.
pub open spec fn lowered(p: Priority) -> Priority {
    match p {
        Priority::Low => Priority::Low,
        Priority::Medium => Priority::Low,
        Priority::High => Priority::Medium,
    }
}

impl Default for Priority {
    /// Records written before priorities existed read as `Medium`.
    fn default() -> (r: Priority)
        ensures
            r == Priority::Medium,
    {
        Priority::Medium
    }
}

impl Priority {
    /// The symbol shown for this priority in a listing.
    pub fn symbol(&self) -> (r: &'static str)
        ensures
            *self == Priority::Low ==> r@ == "▼"@,
            *self == Priority::Medium ==> r@ == "◆"@,
            *self == Priority::High ==> r@ == "▲"@,
    {
        match self {
            Priority::Low => "▼",
            Priority::Medium => "◆",
            Priority::High => "▲",
        }
    }
}

/// The id of a record that has none yet (written before ids existed).
pub fn default_task_id() -> (r: usize)
    ensures
        r == 0,
{
    0
}

/// The mathematical content of a task.
pub ghost struct TaskView {
    pub id: usize,
    pub description: Seq<char>,
    pub completed: bool,
    pub priority: Priority,
}

/// A single to-do item.
#[derive(Debug)]
pub struct Task {
    id: usize,
    description: String,
    completed: bool,
    priority: Priority,
}

impl View for Task {
    type V = TaskView;

    closed spec fn view(&self) -> TaskView {
        TaskView {
            id: self.id,
            description: self.description@,
            completed: self.completed,
            priority: self.priority,
        }
    }
}

impl Task {
    /// A fresh, not yet completed task.
    pub fn new_task(description: String, id: usize, priority: Priority) -> (r: Task)
        ensures
            r@ == (TaskView { id, description: description@, completed: false, priority }),
    {
        Task { id, description, completed: false, priority }
    }

    /// A task with every field given, as read back from storage.
    pub fn from_parts(id: usize, description: String, completed: bool, priority: Priority) -> (r:
        Task)
        ensures
            r@ == (TaskView { id, description: description@, completed, priority }),
    {
        Task { id, description, completed, priority }
    }

    /// An equal task that owns its own description.
    pub fn duplicate(&self) -> (r: Task)
        ensures
            r@ == self@,
    {
        Task {
            id: self.id,
            description: self.description.clone(),
            completed: self.completed,
            priority: self.priority,
        }
    }

    pub fn get_id(&self) -> (r: usize)
        ensures
            r == self@.id,
    {
        self.id
    }

    pub fn set_id(&mut self, new_id: usize)
        ensures
            final(self)@ == (TaskView { id: new_id, ..old(self)@ }),
    {
        self.id = new_id;
    }

    /// Ranks the priority up one step; `High` stays `High`.
    pub fn prio_up(&mut self)
        ensures
            final(self)@ == (TaskView { priority: raised(old(self)@.priority), ..old(self)@ }),
    {
        self.priority = match self.priority {
            Priority::Low => Priority::Medium,
            Priority::Medium => Priority::High,
            Priority::High => Priority::High,
        };
    }

    /// Ranks the priority down one step; `Low` stays `Low`.
    pub fn prio_down(&mut self)
        ensures
            final(self)@ == (TaskView { priority: lowered(old(self)@.priority), ..old(self)@ }),
    {
        self.priority = match self.priority {
            Priority::Low => Priority::Low,
            Priority::Medium => Priority::Low,
            Priority::High => Priority::Medium,
        };
    }

    pub fn priority(&self) -> (r: Priority)
        ensures
            r == self@.priority,
    {
        self.priority
    }

    pub fn set_description(&mut self, description: String)
        ensures
            final(self)@ == (TaskView { description: description@, ..old(self)@ }),
    {
        self.description = description;
    }

    pub fn get_description(&self) -> (r: &str)
        ensures
            r@ == self@.description,
    {
        self.description.as_str()
    }

    /// Marks the task done; doing it again changes nothing.
    pub fn mark_completed(&mut self)
        ensures
            final(self)@ == (TaskView { completed: true, ..old(self)@ }),
    {
        self.completed = true;
    }

    pub fn get_completed(&self) -> (r: bool)
        ensures
            r == self@.completed,
    {
        self.completed
    }

    /// The marker a listing shows for the state of the task.
    pub fn get_status(&self) -> (r: &'static str)
        ensures
            self@.completed ==> r@ == "[\u{2713}]"@,
            !self@.completed ==> r@ == "[\u{b7}]"@,
    {
        if self.completed {
            "[\u{2713}]"
        } else {
            "[\u{b7}]"
        }
    }
}

/// A priority never rises above `High` nor sinks below `Low`.
pub proof fn lemma_priority_saturates()
    ensures
        raised(Priority::High) == Priority::High,
        lowered(Priority::Low) == Priority::Low,
{
}

} // verus!
