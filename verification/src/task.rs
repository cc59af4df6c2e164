use vstd::prelude::*;

verus! {

/// One to-do record: an identifier unique within its store, a title and a
/// priority label fixed at creation, and a completion flag.
pub struct Task {
    pub id: i32,
    pub title: String,
    pub priority: String,
    pub done: bool,
}

/// The mathematical model of a [`Task`]: the identifier as an unbounded
/// integer and the two labels as character sequences.
pub ghost struct TaskView {
    pub id: int,
    pub title: Seq<char>,
    pub priority: Seq<char>,
    pub done: bool,
}

impl View for Task {
    type V = TaskView;

    open spec fn view(&self) -> TaskView {
        TaskView {
            id: self.id as int,
            title: self.title@,
            priority: self.priority@,
            done: self.done,
        }
    }
}

impl Clone for Task {
    fn clone(&self) -> (t: Task)
        ensures
            t == *self,
    {
        Task {
            id: self.id,
            title: self.title.clone(),
            priority: self.priority.clone(),
            done: self.done,
        }
    }
}

} // verus!
