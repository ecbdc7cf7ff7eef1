//! Tasks: actionable items with a priority, an optional due date, and soft
//! links to at most one project and one idea.

use vstd::prelude::*;

verus! {

#[derive(Debug, Clone, Copy, PartialEq, Eq, Structural)]
pub enum TaskStatus {
    Todo,
    InProgress,
    Blocked,
    Done,
    Cancelled,
}

impl TaskStatus {
    /// The canonical display name.
    pub fn name(&self) -> (r: &'static str)
        ensures
            r@ == self.spec_name(),
    {
        match self {
            TaskStatus::Todo => "Todo",
            TaskStatus::InProgress => "InProgress",
            TaskStatus::Blocked => "Blocked",
            TaskStatus::Done => "Done",
            TaskStatus::Cancelled => "Cancelled",
        }
    }

    pub open spec fn spec_name(self) -> Seq<char> {
        match self {
            TaskStatus::Todo => "Todo"@,
            TaskStatus::InProgress => "InProgress"@,
            TaskStatus::Blocked => "Blocked"@,
            TaskStatus::Done => "Done"@,
            TaskStatus::Cancelled => "Cancelled"@,
        }
    }

    /// Case-insensitive parse, accepting the documented aliases.
    pub fn parse(s: &str) -> (r: Option<TaskStatus>)
        ensures
            r == parse_task_status(crate::text::lower_ascii(s@)),
    {
        let low = crate::text::ascii_lower(s);
        let t = low.as_str();
        if crate::text::str_eq(t, "todo") || crate::text::str_eq(t, "t") {
            Some(TaskStatus::Todo)
        } else if crate::text::str_eq(t, "inprogress") || crate::text::str_eq(t, "in-progress")
            || crate::text::str_eq(t, "progress") || crate::text::str_eq(t, "ip") {
            Some(TaskStatus::InProgress)
        } else if crate::text::str_eq(t, "blocked") || crate::text::str_eq(t, "block")
            || crate::text::str_eq(t, "b") {
            Some(TaskStatus::Blocked)
        } else if crate::text::str_eq(t, "done") || crate::text::str_eq(t, "complete")
            || crate::text::str_eq(t, "d") || crate::text::str_eq(t, "x") {
            Some(TaskStatus::Done)
        } else if crate::text::str_eq(t, "cancelled") || crate::text::str_eq(t, "cancel")
            || crate::text::str_eq(t, "c") {
            Some(TaskStatus::Cancelled)
        } else {
            None
        }
    }
}

/// Which task status an already lower-cased name or alias denotes, if any.
pub open spec fn parse_task_status(low: Seq<char>) -> Option<TaskStatus> {
    if low == "todo"@ || low == "t"@ {
        Some(TaskStatus::Todo)
    } else if low == "inprogress"@ || low == "in-progress"@ || low == "progress"@ || low == "ip"@ {
        Some(TaskStatus::InProgress)
    } else if low == "blocked"@ || low == "block"@ || low == "b"@ {
        Some(TaskStatus::Blocked)
    } else if low == "done"@ || low == "complete"@ || low == "d"@ || low == "x"@ {
        Some(TaskStatus::Done)
    } else if low == "cancelled"@ || low == "cancel"@ || low == "c"@ {
        Some(TaskStatus::Cancelled)
    } else {
        None
    }
}

#[derive(Debug, Clone, Copy, PartialEq, Eq, Structural)]
pub enum TaskPriority {
    Low,
    Medium,
    High,
    Urgent,
}

impl TaskPriority {
    /// The canonical display name.
    pub fn name(&self) -> (r: &'static str)
        ensures
            r@ == self.spec_name(),
    {
        match self {
            TaskPriority::Low => "Low",
            TaskPriority::Medium => "Medium",
            TaskPriority::High => "High",
            TaskPriority::Urgent => "Urgent",
        }
    }

    pub open spec fn spec_name(self) -> Seq<char> {
        match self {
            TaskPriority::Low => "Low"@,
            TaskPriority::Medium => "Medium"@,
            TaskPriority::High => "High"@,
            TaskPriority::Urgent => "Urgent"@,
        }
    }

    /// Case-insensitive parse, accepting the documented aliases.
    pub fn parse(s: &str) -> (r: Option<TaskPriority>)
        ensures
            r == parse_task_priority(crate::text::lower_ascii(s@)),
    {
        let low = crate::text::ascii_lower(s);
        let t = low.as_str();
        if crate::text::str_eq(t, "low") || crate::text::str_eq(t, "l") {
            Some(TaskPriority::Low)
        } else if crate::text::str_eq(t, "medium") || crate::text::str_eq(t, "m")
            || crate::text::str_eq(t, "med") {
            Some(TaskPriority::Medium)
        } else if crate::text::str_eq(t, "high") || crate::text::str_eq(t, "h") {
            Some(TaskPriority::High)
        } else if crate::text::str_eq(t, "urgent") || crate::text::str_eq(t, "u")
            || crate::text::str_eq(t, "crit") || crate::text::str_eq(t, "critical") {
            Some(TaskPriority::Urgent)
        } else {
            None
        }
    }
}

/// Which priority an already lower-cased name or alias denotes, if any.
pub open spec fn parse_task_priority(low: Seq<char>) -> Option<TaskPriority> {
    if low == "low"@ || low == "l"@ {
        Some(TaskPriority::Low)
    } else if low == "medium"@ || low == "m"@ || low == "med"@ {
        Some(TaskPriority::Medium)
    } else if low == "high"@ || low == "h"@ {
        Some(TaskPriority::High)
    } else if low == "urgent"@ || low == "u"@ || low == "crit"@ || low == "critical"@ {
        Some(TaskPriority::Urgent)
    } else {
        None
    }
}

#[derive(Debug, Clone)]
pub struct Task {
    pub id: u128,
    pub title: String,
    pub description: Option<String>,
    pub status: TaskStatus,
    pub priority: TaskPriority,
    pub due_date: Option<i64>,
    pub project_id: Option<u128>,
    pub idea_id: Option<u128>,
    pub tags: Vec<String>,
    pub created_at: i64,
    pub updated_at: i64,
}

impl Task {
    /// The timestamp invariant: a task was updated no earlier than it was
    /// created.
    pub open spec fn wf(self) -> bool {
        self.created_at <= self.updated_at
    }

    /// A fresh task: new random identity, default status and priority, no
    /// links, equal timestamps.
    pub fn new(title: String) -> (t: Task)
        ensures
            t.title == title,
            t.description is None,
            t.status is Todo,
            t.priority is Medium,
            t.due_date is None,
            t.project_id is None,
            t.idea_id is None,
            t.tags@.len() == 0,
            t.created_at == t.updated_at,
            t.wf(),
    {
        let now = crate::clock::now_millis();
        Task {
            id: crate::ids::fresh_id(),
            title,
            description: None,
            status: TaskStatus::Todo,
            priority: TaskPriority::Medium,
            due_date: None,
            project_id: None,
            idea_id: None,
            tags: Vec::new(),
            created_at: now,
            updated_at: now,
        }
    }

    /// Refresh `updated_at` from the clock; the stamp never moves backwards.
    pub fn touch(&mut self)
        ensures
            final(self).updated_at >= old(self).updated_at,
            *final(self) == (Task { updated_at: final(self).updated_at, ..*old(self) }),
            old(self).wf() ==> final(self).wf(),
    {
        let t = crate::clock::now_millis();
        if t > self.updated_at {
            self.updated_at = t;
        }
    }

    pub fn with_description(self, description: String) -> (t: Task)
        ensures
            t.description matches Some(d) && d == description,
            t == (Task { description: t.description, updated_at: t.updated_at, ..self }),
            t.updated_at >= self.updated_at,
            self.wf() ==> t.wf(),
    {
        let mut t = self;
        t.description = Some(description);
        t.touch();
        t
    }

    pub fn with_priority(self, priority: TaskPriority) -> (t: Task)
        ensures
            t.priority == priority,
            t == (Task { priority, updated_at: t.updated_at, ..self }),
            t.updated_at >= self.updated_at,
            self.wf() ==> t.wf(),
    {
        let mut t = self;
        t.priority = priority;
        t.touch();
        t
    }

    pub fn with_status(self, status: TaskStatus) -> (t: Task)
        ensures
            t.status == status,
            t == (Task { status, updated_at: t.updated_at, ..self }),
            t.updated_at >= self.updated_at,
            self.wf() ==> t.wf(),
    {
        let mut t = self;
        t.status = status;
        t.touch();
        t
    }

    pub fn with_tags(self, tags: Vec<String>) -> (t: Task)
        ensures
            t.tags == tags,
            t == (Task { tags: t.tags, updated_at: t.updated_at, ..self }),
            t.updated_at >= self.updated_at,
            self.wf() ==> t.wf(),
    {
        let mut t = self;
        t.tags = tags;
        t.touch();
        t
    }

    pub fn with_due_date(self, due_date: i64) -> (t: Task)
        ensures
            t.due_date matches Some(d) && d == due_date,
            t == (Task { due_date: t.due_date, updated_at: t.updated_at, ..self }),
            t.updated_at >= self.updated_at,
            self.wf() ==> t.wf(),
    {
        let mut t = self;
        t.due_date = Some(due_date);
        t.touch();
        t
    }

    pub fn with_project(self, project_id: u128) -> (t: Task)
        ensures
            t.project_id matches Some(p) && p == project_id,
            t == (Task { project_id: t.project_id, updated_at: t.updated_at, ..self }),
            t.updated_at >= self.updated_at,
            self.wf() ==> t.wf(),
    {
        let mut t = self;
        t.project_id = Some(project_id);
        t.touch();
        t
    }

    pub fn with_idea(self, idea_id: u128) -> (t: Task)
        ensures
            t.idea_id matches Some(i) && i == idea_id,
            t == (Task { idea_id: t.idea_id, updated_at: t.updated_at, ..self }),
            t.updated_at >= self.updated_at,
            self.wf() ==> t.wf(),
    {
        let mut t = self;
        t.idea_id = Some(idea_id);
        t.touch();
        t
    }
}

} // verus!
