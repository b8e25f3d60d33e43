use vstd::prelude::*;

verus! {

/// A single task: a titled unit of work.
#[derive(Debug, Clone, PartialEq, Eq)]
pub struct ToDo {
    pub title: String,
    pub description: String,
    pub done: bool,
    pub priority: i32,
    pub limit: Option<String>,
}

/// A project, owning its own collection of tasks keyed by title.
#[derive(Debug, Clone, PartialEq, Eq)]
pub struct Project {
    pub title: String,
    pub description: String,
    pub to_do: Vec<ToDo>,
}

/// The whole store: top-level tasks and projects, each collection keyed by title.
#[derive(Debug, Clone, PartialEq, Eq)]
pub struct ToDoFile {
    pub to_do: Vec<ToDo>,
    pub projects: Vec<Project>,
}

/// The value of a task.
pub struct ToDoV {
    pub title: Seq<char>,
    pub description: Seq<char>,
    pub done: bool,
    pub priority: i32,
    pub limit: Option<Seq<char>>,
}

/// The value of a project.
pub struct ProjectV {
    pub title: Seq<char>,
    pub description: Seq<char>,
    pub to_do: Seq<ToDoV>,
}

/// The value of a store.
pub struct ToDoFileV {
    pub to_do: Seq<ToDoV>,
    pub projects: Seq<ProjectV>,
}

pub open spec fn opt_view(o: Option<String>) -> Option<Seq<char>> {
    match o {
        Some(s) => Some(s@),
        None => None,
    }
}

pub open spec fn tasks_view(v: Seq<ToDo>) -> Seq<ToDoV> {
    v.map_values(|t: ToDo| t@)
}

pub open spec fn projects_view(v: Seq<Project>) -> Seq<ProjectV> {
    v.map_values(|p: Project| p@)
}

impl View for ToDo {
    type V = ToDoV;

    open spec fn view(&self) -> ToDoV {
        ToDoV {
            title: self.title@,
            description: self.description@,
            done: self.done,
            priority: self.priority,
            limit: opt_view(self.limit),
        }
    }
}

impl View for Project {
    type V = ProjectV;

    open spec fn view(&self) -> ProjectV {
        ProjectV { title: self.title@, description: self.description@, to_do: tasks_view(self.to_do@) }
    }
}

impl View for ToDoFile {
    type V = ToDoFileV;

    open spec fn view(&self) -> ToDoFileV {
        ToDoFileV { to_do: tasks_view(self.to_do@), projects: projects_view(self.projects@) }
    }
}

/// Whether some task of `s` has the title `k`.
pub open spec fn has_task(s: Seq<ToDoV>, k: Seq<char>) -> bool {
    exists|i: int| 0 <= i < s.len() && #[trigger] s[i].title == k
}

/// No two tasks of `s` share a title.
pub open spec fn distinct_tasks(s: Seq<ToDoV>) -> bool {
    forall|i: int, j: int|
        0 <= i < s.len() && 0 <= j < s.len() && #[trigger] s[i].title == #[trigger] s[j].title
            ==> i == j
}

/// The task of `s` titled `k`, if any.
pub open spec fn find_task(s: Seq<ToDoV>, k: Seq<char>) -> Option<ToDoV> {
    if has_task(s, k) {
        Some(s[choose|i: int| 0 <= i < s.len() && #[trigger] s[i].title == k])
    } else {
        None
    }
}

/// Whether some project of `s` has the title `k`.
pub open spec fn has_project(s: Seq<ProjectV>, k: Seq<char>) -> bool {
    exists|i: int| 0 <= i < s.len() && #[trigger] s[i].title == k
}

/// No two projects of `s` share a title.
pub open spec fn distinct_projects(s: Seq<ProjectV>) -> bool {
    forall|i: int, j: int|
        0 <= i < s.len() && 0 <= j < s.len() && #[trigger] s[i].title == #[trigger] s[j].title
            ==> i == j
}

/// The project of `s` titled `k`, if any.
pub open spec fn find_project(s: Seq<ProjectV>, k: Seq<char>) -> Option<ProjectV> {
    if has_project(s, k) {
        Some(s[choose|i: int| 0 <= i < s.len() && #[trigger] s[i].title == k])
    } else {
        None
    }
}

impl ToDoFileV {
    /// Titles are unique among the top-level tasks, among the projects, and within each project.
    pub open spec fn wf(self) -> bool {
        &&& distinct_tasks(self.to_do)
        &&& distinct_projects(self.projects)
        &&& forall|i: int|
            0 <= i < self.projects.len() ==> distinct_tasks(#[trigger] self.projects[i].to_do)
    }
}

/// In a collection with unique titles, the task at index `i` is the one found under its title.
pub proof fn lemma_find_task_at(s: Seq<ToDoV>, i: int)
    requires
        distinct_tasks(s),
        0 <= i < s.len(),
    ensures
        find_task(s, s[i].title) == Some(s[i]),
{
    assert(has_task(s, s[i].title));
}

/// In a collection with unique titles, the project at index `i` is the one found under its title.
pub proof fn lemma_find_project_at(s: Seq<ProjectV>, i: int)
    requires
        distinct_projects(s),
        0 <= i < s.len(),
    ensures
        find_project(s, s[i].title) == Some(s[i]),
{
    assert(has_project(s, s[i].title));
}

/// Looks up the index of the task titled `k`.
pub fn task_position(v: &Vec<ToDo>, k: &String) -> (r: Option<usize>)
    ensures
        match r {
            Some(i) => i < v.len() && v@[i as int].title@ == k@,
            None => !has_task(tasks_view(v@), k@),
        },
{
    let mut i: usize = 0;
    while i < v.len()
        invariant
            i <= v.len(),
            forall|j: int| 0 <= j < i ==> v@[j].title@ != k@,
        decreases v.len() - i,
    {
        if v[i].title == *k {
            return Some(i);
        }
        i = i + 1;
    }
    proof {
        if has_task(tasks_view(v@), k@) {
            let j = choose|j: int| 0 <= j < tasks_view(v@).len() && #[trigger] tasks_view(v@)[j].title == k@;
            assert(v@[j].title@ == k@);
        }
    }
    None
}

/// Looks up the index of the project titled `k`.
pub fn project_position(v: &Vec<Project>, k: &String) -> (r: Option<usize>)
    ensures
        match r {
            Some(i) => i < v.len() && v@[i as int].title@ == k@,
            None => !has_project(projects_view(v@), k@),
        },
{
    let mut i: usize = 0;
    while i < v.len()
        invariant
            i <= v.len(),
            forall|j: int| 0 <= j < i ==> v@[j].title@ != k@,
        decreases v.len() - i,
    {
        if v[i].title == *k {
            return Some(i);
        }
        i = i + 1;
    }
    proof {
        if has_project(projects_view(v@), k@) {
            let j = choose|j: int| 0 <= j < projects_view(v@).len() && #[trigger] projects_view(v@)[j].title == k@;
            assert(v@[j].title@ == k@);
        }
    }
    None
}

/// Whether no two tasks of `v` share a title.
pub fn tasks_distinct(v: &Vec<ToDo>) -> (r: bool)
    ensures
        r == distinct_tasks(tasks_view(v@)),
{
    let ghost s = tasks_view(v@);
    let mut i: usize = 0;
    while i < v.len()
        invariant
            i <= v.len(),
            s == tasks_view(v@),
            forall|a: int, b: int|
                0 <= a < i && 0 <= b < i && #[trigger] s[a].title == #[trigger] s[b].title ==> a == b,
        decreases v.len() - i,
    {
        let mut j: usize = 0;
        while j < i
            invariant
                i < v.len(),
                j <= i,
                s == tasks_view(v@),
                forall|b: int| 0 <= b < j ==> s[b].title != s[i as int].title,
            decreases i - j,
        {
            if v[j].title == v[i].title {
                proof {
                    assert(s[j as int].title == s[i as int].title);
                }
                return false;
            }
            j = j + 1;
        }
        proof {
            assert forall|a: int, b: int|
                0 <= a < i + 1 && 0 <= b < i + 1 && #[trigger] s[a].title == #[trigger] s[b].title
                    implies a == b by {
                if a == i && b < i {
                    assert(s[b].title != s[i as int].title);
                }
                if b == i && a < i {
                    assert(s[a].title != s[i as int].title);
                }
            }
        }
        i = i + 1;
    }
    true
}

/// Whether no two projects of `v` share a title.
pub fn projects_distinct(v: &Vec<Project>) -> (r: bool)
    ensures
        r == distinct_projects(projects_view(v@)),
{
    let ghost s = projects_view(v@);
    let mut i: usize = 0;
    while i < v.len()
        invariant
            i <= v.len(),
            s == projects_view(v@),
            forall|a: int, b: int|
                0 <= a < i && 0 <= b < i && #[trigger] s[a].title == #[trigger] s[b].title ==> a == b,
        decreases v.len() - i,
    {
        let mut j: usize = 0;
        while j < i
            invariant
                i < v.len(),
                j <= i,
                s == projects_view(v@),
                forall|b: int| 0 <= b < j ==> s[b].title != s[i as int].title,
            decreases i - j,
        {
            if v[j].title == v[i].title {
                proof {
                    assert(s[j as int].title == s[i as int].title);
                }
                return false;
            }
            j = j + 1;
        }
        proof {
            assert forall|a: int, b: int|
                0 <= a < i + 1 && 0 <= b < i + 1 && #[trigger] s[a].title == #[trigger] s[b].title
                    implies a == b by {
                if a == i && b < i {
                    assert(s[b].title != s[i as int].title);
                }
                if b == i && a < i {
                    assert(s[a].title != s[i as int].title);
                }
            }
        }
        i = i + 1;
    }
    true
}

impl ToDoFile {
    /// Whether titles are unique among the top-level tasks, among the projects, and within each
    /// project: what every mutation of the store needs.
    pub fn is_well_formed(&self) -> (r: bool)
        ensures
            r == self@.wf(),
    {
        if !tasks_distinct(&self.to_do) || !projects_distinct(&self.projects) {
            return false;
        }
        let ghost ps = self@.projects;
        let mut i: usize = 0;
        while i < self.projects.len()
            invariant
                i <= self.projects.len(),
                ps == self@.projects,
                forall|a: int| 0 <= a < i ==> distinct_tasks(#[trigger] ps[a].to_do),
            decreases self.projects.len() - i,
        {
            if !tasks_distinct(&self.projects[i].to_do) {
                proof {
                    assert(ps[i as int].to_do == tasks_view(self.projects@[i as int].to_do@));
                }
                return false;
            }
            i = i + 1;
        }
        true
    }
}

} // verus!
