use vstd::prelude::*;

use crate::objects::{
    distinct_projects, distinct_tasks, has_project, has_task, project_position, projects_view,
    task_position, tasks_view, opt_view, Project, ProjectV, ToDo, ToDoFile, ToDoFileV, ToDoV,
};
use crate::reference::{parse_ref, ref_of, TaskRef, TaskRefV};

verus! {

/// Why a mutation of the store was refused.
#[derive(Debug, Clone, PartialEq, Eq)]
pub enum StoreError {
    ProjectNotFound(String),
    TaskNotFound(String),
    ProjectAlreadyExists(String),
    TaskAlreadyExists(String),
}

/// The value of a refusal.
pub enum StoreErrorV {
    ProjectNotFound(Seq<char>),
    TaskNotFound(Seq<char>),
    ProjectAlreadyExists(Seq<char>),
    TaskAlreadyExists(Seq<char>),
}

impl View for StoreError {
    type V = StoreErrorV;

    open spec fn view(&self) -> StoreErrorV {
        match self {
            StoreError::ProjectNotFound(s) => StoreErrorV::ProjectNotFound(s@),
            StoreError::TaskNotFound(s) => StoreErrorV::TaskNotFound(s@),
            StoreError::ProjectAlreadyExists(s) => StoreErrorV::ProjectAlreadyExists(s@),
            StoreError::TaskAlreadyExists(s) => StoreErrorV::TaskAlreadyExists(s@),
        }
    }
}

/// The view of an outcome that carries no value on success.
pub open spec fn outcome_view(r: Result<(), StoreError>) -> Result<(), StoreErrorV> {
    match r {
        Ok(()) => Ok(()),
        Err(e) => Err(e@),
    }
}

/// The index of the project titled `k` (meaningful where there is one).
pub open spec fn project_index(s: Seq<ProjectV>, k: Seq<char>) -> int {
    choose|i: int| 0 <= i < s.len() && #[trigger] s[i].title == k
}

/// The index of the task titled `k` (meaningful where there is one).
pub open spec fn task_index(s: Seq<ToDoV>, k: Seq<char>) -> int {
    choose|i: int| 0 <= i < s.len() && #[trigger] s[i].title == k
}

/// A new, not yet done task.
pub open spec fn new_task(
    title: Seq<char>,
    description: Seq<char>,
    priority: i32,
    limit: Option<Seq<char>>,
) -> ToDoV {
    ToDoV { title, description, done: false, priority, limit }
}

/// `s` with the project at index `i` holding the task collection `tasks`.
pub open spec fn with_project_tasks(s: Seq<ProjectV>, i: int, tasks: Seq<ToDoV>) -> Seq<ProjectV> {
    s.update(i, ProjectV { to_do: tasks, ..s[i] })
}

/// `t` marked done.
pub open spec fn completed(t: ToDoV) -> ToDoV {
    ToDoV { done: true, ..t }
}

proof fn lemma_index_unique_task(s: Seq<ToDoV>, i: int)
    requires
        distinct_tasks(s),
        0 <= i < s.len(),
    ensures
        task_index(s, s[i].title) == i,
{
    assert(has_task(s, s[i].title));
}

proof fn lemma_index_unique_project(s: Seq<ProjectV>, i: int)
    requires
        distinct_projects(s),
        0 <= i < s.len(),
    ensures
        project_index(s, s[i].title) == i,
{
    assert(has_project(s, s[i].title));
}

proof fn lemma_push_distinct(s: Seq<ToDoV>, t: ToDoV)
    requires
        distinct_tasks(s),
        !has_task(s, t.title),
    ensures
        distinct_tasks(s.push(t)),
{
    let s2 = s.push(t);
    assert forall|i: int, j: int|
        0 <= i < s2.len() && 0 <= j < s2.len() && #[trigger] s2[i].title == #[trigger] s2[j].title
            implies i == j by {
        if i < s.len() && j == s.len() {
            assert(s[i].title == t.title);
        }
        if j < s.len() && i == s.len() {
            assert(s[j].title == t.title);
        }
    }
}

proof fn lemma_remove_distinct_tasks(s: Seq<ToDoV>, k: int)
    requires
        distinct_tasks(s),
        0 <= k < s.len(),
    ensures
        distinct_tasks(s.remove(k)),
{
    let s2 = s.remove(k);
    assert forall|i: int, j: int|
        0 <= i < s2.len() && 0 <= j < s2.len() && #[trigger] s2[i].title == #[trigger] s2[j].title
            implies i == j by {
        let a = if i < k { i } else { i + 1 };
        let b = if j < k { j } else { j + 1 };
        assert(s2[i] == s[a]);
        assert(s2[j] == s[b]);
    }
}

proof fn lemma_remove_distinct_projects(s: Seq<ProjectV>, k: int)
    requires
        distinct_projects(s),
        0 <= k < s.len(),
    ensures
        distinct_projects(s.remove(k)),
{
    let s2 = s.remove(k);
    assert forall|i: int, j: int|
        0 <= i < s2.len() && 0 <= j < s2.len() && #[trigger] s2[i].title == #[trigger] s2[j].title
            implies i == j by {
        let a = if i < k { i } else { i + 1 };
        let b = if j < k { j } else { j + 1 };
        assert(s2[i] == s[a]);
        assert(s2[j] == s[b]);
    }
}

/// The store after creating the task that `rf` refers to, or the refusal.
pub open spec fn after_create_task(
    s: ToDoFileV,
    rf: Seq<char>,
    description: Seq<char>,
    priority: i32,
    limit: Option<Seq<char>>,
) -> Result<ToDoFileV, StoreErrorV> {
    match ref_of(rf) {
        TaskRefV::TopLevel(t) => if has_task(s.to_do, t) {
            Err(StoreErrorV::TaskAlreadyExists(rf))
        } else {
            Ok(ToDoFileV { to_do: s.to_do.push(new_task(t, description, priority, limit)), ..s })
        },
        TaskRefV::Nested(p, t) => if !has_project(s.projects, p) {
            Err(StoreErrorV::ProjectNotFound(p))
        } else {
            let i = project_index(s.projects, p);
            if has_task(s.projects[i].to_do, t) {
                Err(StoreErrorV::TaskAlreadyExists(rf))
            } else {
                Ok(
                    ToDoFileV {
                        projects: with_project_tasks(
                            s.projects,
                            i,
                            s.projects[i].to_do.push(new_task(t, description, priority, limit)),
                        ),
                        ..s
                    },
                )
            }
        },
    }
}

/// The store after removing the task that `rf` refers to, or the refusal.
pub open spec fn after_remove_task(s: ToDoFileV, rf: Seq<char>) -> Result<ToDoFileV, StoreErrorV> {
    match ref_of(rf) {
        TaskRefV::TopLevel(t) => if !has_task(s.to_do, t) {
            Err(StoreErrorV::TaskNotFound(rf))
        } else {
            Ok(ToDoFileV { to_do: s.to_do.remove(task_index(s.to_do, t)), ..s })
        },
        TaskRefV::Nested(p, t) => if !has_project(s.projects, p) {
            Err(StoreErrorV::ProjectNotFound(p))
        } else {
            let i = project_index(s.projects, p);
            let tasks = s.projects[i].to_do;
            if !has_task(tasks, t) {
                Err(StoreErrorV::TaskNotFound(rf))
            } else {
                Ok(
                    ToDoFileV {
                        projects: with_project_tasks(s.projects, i, tasks.remove(task_index(tasks, t))),
                        ..s
                    },
                )
            }
        },
    }
}

/// The store after marking done the task that `rf` refers to, or the refusal.
pub open spec fn after_complete_task(s: ToDoFileV, rf: Seq<char>) -> Result<ToDoFileV, StoreErrorV> {
    match ref_of(rf) {
        TaskRefV::TopLevel(t) => if !has_task(s.to_do, t) {
            Err(StoreErrorV::TaskNotFound(rf))
        } else {
            let k = task_index(s.to_do, t);
            Ok(ToDoFileV { to_do: s.to_do.update(k, completed(s.to_do[k])), ..s })
        },
        TaskRefV::Nested(p, t) => if !has_project(s.projects, p) {
            Err(StoreErrorV::ProjectNotFound(p))
        } else {
            let i = project_index(s.projects, p);
            let tasks = s.projects[i].to_do;
            if !has_task(tasks, t) {
                Err(StoreErrorV::TaskNotFound(rf))
            } else {
                let k = task_index(tasks, t);
                Ok(
                    ToDoFileV {
                        projects: with_project_tasks(s.projects, i, tasks.update(k, completed(tasks[k]))),
                        ..s
                    },
                )
            }
        },
    }
}

/// The store after creating the project `name`, or the refusal.
pub open spec fn after_create_project(s: ToDoFileV, name: Seq<char>, description: Seq<char>) -> Result<
    ToDoFileV,
    StoreErrorV,
> {
    if has_project(s.projects, name) {
        Err(StoreErrorV::ProjectAlreadyExists(name))
    } else {
        Ok(
            ToDoFileV {
                projects: s.projects.push(ProjectV { title: name, description, to_do: Seq::empty() }),
                ..s
            },
        )
    }
}

/// The store after removing the project `name` with all its tasks, or the refusal.
pub open spec fn after_remove_project(s: ToDoFileV, name: Seq<char>) -> Result<ToDoFileV, StoreErrorV> {
    if !has_project(s.projects, name) {
        Err(StoreErrorV::ProjectNotFound(name))
    } else {
        Ok(ToDoFileV { projects: s.projects.remove(project_index(s.projects, name)), ..s })
    }
}

/// A mutation that returned `r` and turned `before` into `after` did what `expected` says:
/// on success the store became the expected one, on refusal it gave that error and kept the store.
pub open spec fn applied(
    before: ToDoFileV,
    r: Result<(), StoreError>,
    after: ToDoFileV,
    expected: Result<ToDoFileV, StoreErrorV>,
) -> bool {
    match expected {
        Ok(n) => r is Ok && after == n,
        Err(e) => outcome_view(r) == Err::<(), StoreErrorV>(e) && after == before,
    }
}

proof fn lemma_with_project_tasks_wf(s: ToDoFileV, i: int, tasks: Seq<ToDoV>)
    requires
        s.wf(),
        0 <= i < s.projects.len(),
        distinct_tasks(tasks),
    ensures
        (ToDoFileV { projects: with_project_tasks(s.projects, i, tasks), ..s }).wf(),
{
    let s2 = with_project_tasks(s.projects, i, tasks);
    assert forall|a: int, b: int|
        0 <= a < s2.len() && 0 <= b < s2.len() && #[trigger] s2[a].title == #[trigger] s2[b].title
            implies a == b by {
        assert(s2[a].title == s.projects[a].title);
        assert(s2[b].title == s.projects[b].title);
    }
    assert forall|a: int| 0 <= a < s2.len() implies distinct_tasks(#[trigger] s2[a].to_do) by {
        if a != i {
            assert(s2[a] == s.projects[a]);
        }
    }
}

impl ToDoFile {
    /// A store with no tasks and no projects.
    pub fn new() -> (r: ToDoFile)
        ensures
            r@.to_do.len() == 0,
            r@.projects.len() == 0,
            r@.wf(),
    {
        ToDoFile { to_do: Vec::new(), projects: Vec::new() }
    }

    /// Creates a project with no tasks, unless one with that title exists.
    pub fn create_project(&mut self, name: String, description: String) -> (r: Result<
        (),
        StoreError,
    >)
        requires
            old(self)@.wf(),
        ensures
            final(self)@.wf(),
            applied(old(self)@, r, final(self)@, after_create_project(old(self)@, name@, description@)),
    {
        match project_position(&self.projects, &name) {
            Some(i) => {
                proof {
                    assert(projects_view(self.projects@)[i as int].title == name@);
                }
                Err(StoreError::ProjectAlreadyExists(name))
            },
            None => {
                let ghost before = self.projects@;
                let p = Project { title: name, description, to_do: Vec::new() };
                self.projects.push(p);
                proof {
                    assert(tasks_view(p.to_do@) =~= Seq::empty());
                    assert(projects_view(self.projects@) =~= projects_view(before).push(p@));
                    let s = projects_view(before);
                    let s2 = projects_view(self.projects@);
                    assert forall|i: int, j: int|
                        0 <= i < s2.len() && 0 <= j < s2.len() && #[trigger] s2[i].title
                            == #[trigger] s2[j].title implies i == j by {
                        if i < s.len() && j == s.len() {
                            assert(s[i].title == p@.title);
                        }
                        if j < s.len() && i == s.len() {
                            assert(s[j].title == p@.title);
                        }
                    }
                    assert forall|i: int| 0 <= i < s2.len() implies distinct_tasks(
                        #[trigger] s2[i].to_do,
                    ) by {
                        if i < s.len() {
                            assert(s2[i] == s[i]);
                        }
                    }
                }
                Ok(())
            },
        }
    }

    /// Creates the task that `reference` refers to, not yet done, unless a task with that title
    /// exists in the collection it resolves to or the project it names is absent.
    pub fn create_task(
        &mut self,
        reference: String,
        description: String,
        priority: i32,
        limit: Option<String>,
    ) -> (r: Result<(), StoreError>)
        requires
            old(self)@.wf(),
        ensures
            final(self)@.wf(),
            applied(
                old(self)@,
                r,
                final(self)@,
                after_create_task(old(self)@, reference@, description@, priority, opt_view(limit)),
            ),
    {
        let ghost s = self@;
        match parse_ref(reference.as_str()) {
            TaskRef::TopLevel(t) => match task_position(&self.to_do, &t) {
                Some(k) => {
                    proof {
                        assert(s.to_do[k as int].title == t@);
                    }
                    Err(StoreError::TaskAlreadyExists(reference))
                },
                None => {
                    let ghost before = self.to_do@;
                    let task = ToDo { title: t, description, done: false, priority, limit };
                    self.to_do.push(task);
                    proof {
                        assert(tasks_view(self.to_do@) =~= tasks_view(before).push(task@));
                        lemma_push_distinct(s.to_do, task@);
                    }
                    Ok(())
                },
            },
            TaskRef::Nested(p, t) => match project_position(&self.projects, &p) {
                None => Err(StoreError::ProjectNotFound(p)),
                Some(i) => {
                    proof {
                        lemma_index_unique_project(s.projects, i as int);
                    }
                    match task_position(&self.projects[i].to_do, &t) {
                        Some(k) => {
                            proof {
                                assert(s.projects[i as int].to_do[k as int].title == t@);
                            }
                            Err(StoreError::TaskAlreadyExists(reference))
                        },
                        None => {
                            let ghost before = self.projects@;
                            let task = ToDo { title: t, description, done: false, priority, limit };
                            self.projects[i].to_do.push(task);
                            proof {
                                let tasks = s.projects[i as int].to_do.push(task@);
                                assert(tasks_view(self.projects@[i as int].to_do@) =~= tasks);
                                assert(projects_view(self.projects@) =~= with_project_tasks(
                                    s.projects,
                                    i as int,
                                    tasks,
                                ));
                                lemma_push_distinct(s.projects[i as int].to_do, task@);
                                lemma_with_project_tasks_wf(s, i as int, tasks);
                            }
                            Ok(())
                        },
                    }
                },
            },
        }
    }

    /// Removes the task that `reference` refers to, unless it is absent or the project it names
    /// is absent.
    pub fn remove_task(&mut self, reference: String) -> (r: Result<(), StoreError>)
        requires
            old(self)@.wf(),
        ensures
            final(self)@.wf(),
            applied(old(self)@, r, final(self)@, after_remove_task(old(self)@, reference@)),
    {
        let ghost s = self@;
        match parse_ref(reference.as_str()) {
            TaskRef::TopLevel(t) => match task_position(&self.to_do, &t) {
                None => Err(StoreError::TaskNotFound(reference)),
                Some(k) => {
                    proof {
                        lemma_index_unique_task(s.to_do, k as int);
                    }
                    let ghost before = self.to_do@;
                    self.to_do.remove(k);
                    proof {
                        assert(tasks_view(self.to_do@) =~= tasks_view(before).remove(k as int));
                        lemma_remove_distinct_tasks(s.to_do, k as int);
                    }
                    Ok(())
                },
            },
            TaskRef::Nested(p, t) => match project_position(&self.projects, &p) {
                None => Err(StoreError::ProjectNotFound(p)),
                Some(i) => {
                    proof {
                        lemma_index_unique_project(s.projects, i as int);
                    }
                    match task_position(&self.projects[i].to_do, &t) {
                        None => Err(StoreError::TaskNotFound(reference)),
                        Some(k) => {
                            proof {
                                lemma_index_unique_task(s.projects[i as int].to_do, k as int);
                            }
                            self.projects[i].to_do.remove(k);
                            proof {
                                let tasks = s.projects[i as int].to_do.remove(k as int);
                                assert(tasks_view(self.projects@[i as int].to_do@) =~= tasks);
                                assert(projects_view(self.projects@) =~= with_project_tasks(
                                    s.projects,
                                    i as int,
                                    tasks,
                                ));
                                lemma_remove_distinct_tasks(s.projects[i as int].to_do, k as int);
                                lemma_with_project_tasks_wf(s, i as int, tasks);
                            }
                            Ok(())
                        },
                    }
                },
            },
        }
    }

    /// Marks done the task that `reference` refers to, keeping its other fields, unless it is
    /// absent or the project it names is absent.
    pub fn complete_task(&mut self, reference: String) -> (r: Result<(), StoreError>)
        requires
            old(self)@.wf(),
        ensures
            final(self)@.wf(),
            applied(old(self)@, r, final(self)@, after_complete_task(old(self)@, reference@)),
    {
        let ghost s = self@;
        match parse_ref(reference.as_str()) {
            TaskRef::TopLevel(t) => match task_position(&self.to_do, &t) {
                None => Err(StoreError::TaskNotFound(reference)),
                Some(k) => {
                    proof {
                        lemma_index_unique_task(s.to_do, k as int);
                    }
                    self.to_do[k].done = true;
                    proof {
                        let tasks = s.to_do.update(k as int, completed(s.to_do[k as int]));
                        assert(tasks_view(self.to_do@) =~= tasks);
                        assert forall|a: int, b: int|
                            0 <= a < tasks.len() && 0 <= b < tasks.len() && #[trigger] tasks[a].title
                                == #[trigger] tasks[b].title implies a == b by {
                            assert(tasks[a].title == s.to_do[a].title);
                            assert(tasks[b].title == s.to_do[b].title);
                        }
                    }
                    Ok(())
                },
            },
            TaskRef::Nested(p, t) => match project_position(&self.projects, &p) {
                None => Err(StoreError::ProjectNotFound(p)),
                Some(i) => {
                    proof {
                        lemma_index_unique_project(s.projects, i as int);
                    }
                    match task_position(&self.projects[i].to_do, &t) {
                        None => Err(StoreError::TaskNotFound(reference)),
                        Some(k) => {
                            proof {
                                lemma_index_unique_task(s.projects[i as int].to_do, k as int);
                            }
                            self.projects[i].to_do[k].done = true;
                            proof {
                                let old_tasks = s.projects[i as int].to_do;
                                let tasks = old_tasks.update(k as int, completed(old_tasks[k as int]));
                                assert(tasks_view(self.projects@[i as int].to_do@) =~= tasks);
                                assert(projects_view(self.projects@) =~= with_project_tasks(
                                    s.projects,
                                    i as int,
                                    tasks,
                                ));
                                assert forall|a: int, b: int|
                                    0 <= a < tasks.len() && 0 <= b < tasks.len()
                                        && #[trigger] tasks[a].title == #[trigger] tasks[b].title
                                        implies a == b by {
                                    assert(tasks[a].title == old_tasks[a].title);
                                    assert(tasks[b].title == old_tasks[b].title);
                                }
                                lemma_with_project_tasks_wf(s, i as int, tasks);
                            }
                            Ok(())
                        },
                    }
                },
            },
        }
    }

    /// Removes the project `name` together with all its tasks, unless it is absent.
    pub fn remove_project(&mut self, name: String) -> (r: Result<(), StoreError>)
        requires
            old(self)@.wf(),
        ensures
            final(self)@.wf(),
            applied(old(self)@, r, final(self)@, after_remove_project(old(self)@, name@)),
    {
        let ghost s = self@;
        match project_position(&self.projects, &name) {
            None => Err(StoreError::ProjectNotFound(name)),
            Some(i) => {
                proof {
                    lemma_index_unique_project(s.projects, i as int);
                }
                let ghost before = self.projects@;
                self.projects.remove(i);
                proof {
                    let s2 = projects_view(self.projects@);
                    assert(s2 =~= projects_view(before).remove(i as int));
                    lemma_remove_distinct_projects(s.projects, i as int);
                    assert forall|a: int| 0 <= a < s2.len() implies distinct_tasks(
                        #[trigger] s2[a].to_do,
                    ) by {
                        let b = if a < i { a } else { a + 1 };
                        assert(s2[a] == s.projects[b]);
                    }
                }
                Ok(())
            },
        }
    }
}

} // verus!
