use vstd::prelude::*;

use crate::objects::{opt_view, ToDo, ToDoFile, ToDoFileV, ToDoV};
use crate::operations::{
    after_complete_task, after_create_project, after_create_task, after_remove_project,
    after_remove_task, applied, StoreError, StoreErrorV,
};

verus! {

/// What an action applies to, with every field already resolved.
#[derive(Debug, Clone, PartialEq, Eq)]
pub enum RegisterType {
    Task { name: String, description: String, priority: i32, limit: Option<String> },
    Project { name: String, description: String },
}

/// One invocation of the tool.
#[derive(Debug, Clone, PartialEq, Eq)]
pub enum Actions {
    Create(RegisterType),
    Remove(RegisterType),
    Done(RegisterType),
    /// Routed to creation: an existing task or project is refused, not updated.
    Edit(RegisterType),
    View,
}

/// One line of the task listing.
#[derive(Debug, Clone, PartialEq, Eq)]
pub struct TaskRow {
    pub title: String,
    pub description: String,
    pub priority: i32,
    pub limit: String,
    pub done: bool,
}

/// The value of a listing line.
pub struct TaskRowV {
    pub title: Seq<char>,
    pub description: Seq<char>,
    pub priority: i32,
    pub limit: Seq<char>,
    pub done: bool,
}

impl View for TaskRow {
    type V = TaskRowV;

    open spec fn view(&self) -> TaskRowV {
        TaskRowV {
            title: self.title@,
            description: self.description@,
            priority: self.priority,
            limit: self.limit@,
            done: self.done,
        }
    }
}

/// What the listing shows for a task without a limit.
pub open spec fn undefined_label() -> Seq<char> {
    seq!['U', 'n', 'd', 'e', 'f', 'i', 'n', 'e', 'd']
}

/// The listing line of a task.
pub open spec fn row_of(t: ToDoV) -> TaskRowV {
    TaskRowV {
        title: t.title,
        description: t.description,
        priority: t.priority,
        limit: match t.limit {
            Some(l) => l,
            None => undefined_label(),
        },
        done: t.done,
    }
}

/// The store after creating what `typ` describes, or the refusal.
pub open spec fn after_create(s: ToDoFileV, typ: RegisterType) -> Result<ToDoFileV, StoreErrorV> {
    match typ {
        RegisterType::Task { name, description, priority, limit } => after_create_task(
            s,
            name@,
            description@,
            priority,
            opt_view(limit),
        ),
        RegisterType::Project { name, description } => after_create_project(s, name@, description@),
    }
}

/// The store after removing what `typ` names, or the refusal.
pub open spec fn after_remove(s: ToDoFileV, typ: RegisterType) -> Result<ToDoFileV, StoreErrorV> {
    match typ {
        RegisterType::Task { name, .. } => after_remove_task(s, name@),
        RegisterType::Project { name, .. } => after_remove_project(s, name@),
    }
}

/// The store after marking done what `typ` names (a project is left as it is), or the refusal.
pub open spec fn after_done(s: ToDoFileV, typ: RegisterType) -> Result<ToDoFileV, StoreErrorV> {
    match typ {
        RegisterType::Task { name, .. } => after_complete_task(s, name@),
        RegisterType::Project { .. } => Ok(s),
    }
}

/// The store after `action`, or the refusal.
pub open spec fn after_action(s: ToDoFileV, action: Actions) -> Result<ToDoFileV, StoreErrorV> {
    match action {
        Actions::Create(typ) => after_create(s, typ),
        Actions::Edit(typ) => after_create(s, typ),
        Actions::Remove(typ) => after_remove(s, typ),
        Actions::Done(typ) => after_done(s, typ),
        Actions::View => Ok(s),
    }
}

/// Whether `action` is one that changes the store when it succeeds.
pub open spec fn mutates(action: Actions) -> bool {
    match action {
        Actions::View => false,
        Actions::Done(RegisterType::Project { .. }) => false,
        _ => true,
    }
}

/// Creates the task or project that `typ` describes.
pub fn execute_create(todo_file: &mut ToDoFile, typ: RegisterType) -> (r: Result<(), StoreError>)
    requires
        old(todo_file)@.wf(),
    ensures
        final(todo_file)@.wf(),
        applied(old(todo_file)@, r, final(todo_file)@, after_create(old(todo_file)@, typ)),
{
    match typ {
        RegisterType::Task { name, description, priority, limit } => todo_file.create_task(
            name,
            description,
            priority,
            limit,
        ),
        RegisterType::Project { name, description } => todo_file.create_project(name, description),
    }
}

/// Removes the task or project that `typ` names; removing a project removes its tasks.
pub fn execute_remove(todo_file: &mut ToDoFile, typ: RegisterType) -> (r: Result<(), StoreError>)
    requires
        old(todo_file)@.wf(),
    ensures
        final(todo_file)@.wf(),
        applied(old(todo_file)@, r, final(todo_file)@, after_remove(old(todo_file)@, typ)),
{
    match typ {
        RegisterType::Task { name, .. } => todo_file.remove_task(name),
        RegisterType::Project { name, .. } => todo_file.remove_project(name),
    }
}

/// Marks done the task that `typ` names; a project is left as it is.
pub fn execute_done(todo_file: &mut ToDoFile, typ: RegisterType) -> (r: Result<(), StoreError>)
    requires
        old(todo_file)@.wf(),
    ensures
        final(todo_file)@.wf(),
        applied(old(todo_file)@, r, final(todo_file)@, after_done(old(todo_file)@, typ)),
{
    match typ {
        RegisterType::Task { name, .. } => todo_file.complete_task(name),
        RegisterType::Project { .. } => Ok(()),
    }
}

/// The listing of the top-level tasks, one line per task in the store's order.
pub fn execute_view(todo_file: &ToDoFile) -> (rows: Vec<TaskRow>)
    ensures
        rows@.len() == todo_file@.to_do.len(),
        forall|i: int| 0 <= i < rows@.len() ==> #[trigger] rows@[i]@ == row_of(todo_file@.to_do[i]),
{
    todo_file.task_rows()
}

/// Applies `action` to the store. On success the result says whether the store changed and must
/// be saved; on refusal the store is left as it was.
pub fn execute(todo_file: &mut ToDoFile, action: Actions) -> (r: Result<bool, StoreError>)
    requires
        old(todo_file)@.wf(),
    ensures
        final(todo_file)@.wf(),
        applied(
            old(todo_file)@,
            match r {
                Ok(_) => Ok(()),
                Err(e) => Err(e),
            },
            final(todo_file)@,
            after_action(old(todo_file)@, action),
        ),
        r matches Ok(changed) ==> changed == mutates(action),
{
    let changed = match &action {
        Actions::View => false,
        Actions::Done(RegisterType::Project { .. }) => false,
        _ => true,
    };
    let res = match action {
        Actions::Create(typ) => execute_create(todo_file, typ),
        Actions::Edit(typ) => execute_create(todo_file, typ),
        Actions::Remove(typ) => execute_remove(todo_file, typ),
        Actions::Done(typ) => execute_done(todo_file, typ),
        Actions::View => Ok(()),
    };
    match res {
        Ok(()) => Ok(changed),
        Err(e) => Err(e),
    }
}

fn row(t: &ToDo) -> (r: TaskRow)
    ensures
        r@ == row_of(t@),
{
    let limit = match &t.limit {
        Some(l) => l.clone(),
        None => {
            let u = "Undefined".to_owned();
            proof {
                reveal_strlit("Undefined");
                assert(u@ =~= undefined_label());
            }
            u
        },
    };
    TaskRow {
        title: t.title.clone(),
        description: t.description.clone(),
        priority: t.priority,
        limit,
        done: t.done,
    }
}

impl ToDoFile {
    /// The listing of the top-level tasks: title, description, priority, the limit or
    /// `Undefined`, and whether the task is done.
    pub fn task_rows(&self) -> (rows: Vec<TaskRow>)
        ensures
            rows@.len() == self@.to_do.len(),
            forall|i: int| 0 <= i < rows@.len() ==> #[trigger] rows@[i]@ == row_of(self@.to_do[i]),
    {
        let mut rows: Vec<TaskRow> = Vec::new();
        for i in 0..self.to_do.len()
            invariant
                rows@.len() == i,
                forall|j: int| 0 <= j < i ==> #[trigger] rows@[j]@ == row_of(self@.to_do[j]),
        {
            rows.push(row(&self.to_do[i]));
        }
        rows
    }
}

} // verus!
