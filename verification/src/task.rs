//! The task record: one to-do item and its display text.

use vstd::prelude::*;
use vstd::string::StringExecFns;

verus! {

/// The mathematical value of a task: its four fields as plain values.
pub ghost struct TaskView {
    pub name: Seq<char>,
    pub description: Seq<char>,
    pub date: Seq<char>,
    pub completed: bool,
}

/// One to-do item. `name` acts as the primary key within a store;
/// `date` is a `YYYY-MM-DD` string, where the empty string means
/// "unset" until the add operation assigns today's date.
#[derive(Debug)]
pub struct Task {
    pub name: String,
    pub description: String,
    pub date: String,
    pub completed: bool,
}

impl View for Task {
    type V = TaskView;

    open spec fn view(&self) -> TaskView {
        TaskView {
            name: self.name@,
            description: self.description@,
            date: self.date@,
            completed: self.completed,
        }
    }
}

impl Task {
    /// Constructs a record; `completed` defaults to false when not supplied.
    pub fn new(name: String, description: String, date: String, completed: Option<bool>) -> (t:
        Task)
        ensures
            t@.name == name@,
            t@.description == description@,
            t@.date == date@,
            t@.completed == (match completed {
                Some(b) => b,
                None => false,
            }),
    {
        Task {
            name,
            description,
            date,
            completed: match completed {
                Some(b) => b,
                None => false,
            },
        }
    }
}

impl Clone for Task {
    /// An exact copy: every field of the clone equals the original's.
    fn clone(&self) -> (r: Self)
        ensures
            r == *self,
    {
        Task {
            name: self.name.clone(),
            description: self.description.clone(),
            date: self.date.clone(),
            completed: self.completed,
        }
    }
}

/// The single-line display form of a task: a completion marker in
/// brackets, then name, description and date, separated by " - ".
pub open spec fn render_spec(t: TaskView) -> Seq<char> {
    (if t.completed {
        "[x] "@
    } else {
        "[ ] "@
    }) + t.name + " - "@ + t.description + " - "@ + t.date
}

/// The status line of a task: its name and whether it is completed.
pub open spec fn status_text_spec(t: TaskView) -> Seq<char> {
    "Task \""@ + t.name + "\" is "@ + (if t.completed {
        "completed"@
    } else {
        "uncompleted"@
    })
}

impl Task {
    /// The canonical single-line form of the task.
    pub fn render(&self) -> (r: String)
        ensures
            r@ == render_spec(self@),
    {
        let mut s = if self.completed {
            String::from_str("[x] ")
        } else {
            String::from_str("[ ] ")
        };
        s.append(self.name.as_str());
        s.append(" - ");
        s.append(self.description.as_str());
        s.append(" - ");
        s.append(self.date.as_str());
        s
    }

    /// The status line of the task.
    pub fn status_text(&self) -> (r: String)
        ensures
            r@ == status_text_spec(self@),
    {
        let mut s = String::from_str("Task \"");
        s.append(self.name.as_str());
        s.append("\" is ");
        if self.completed {
            s.append("completed");
        } else {
            s.append("uncompleted");
        }
        s
    }
}

} // verus!
