use vstd::prelude::*;

use crate::objects::{
    distinct_projects, distinct_tasks, find_project, find_task, has_project, has_task,
    lemma_find_project_at, lemma_find_task_at, ProjectV, ToDoFileV, ToDoV,
};
use crate::operations::{
    after_complete_task, after_create_project, after_create_task, after_remove_project,
    after_remove_task, applied, completed, new_task, project_index, task_index,
    with_project_tasks, StoreError, StoreErrorV,
};
use crate::reference::{ref_of, TaskRefV};

verus! {

/// The task that the reference text `rf` resolves to in `s`, if any.
pub open spec fn resolve(s: ToDoFileV, rf: Seq<char>) -> Option<ToDoV> {
    match ref_of(rf) {
        TaskRefV::TopLevel(t) => find_task(s.to_do, t),
        TaskRefV::Nested(p, t) => match find_project(s.projects, p) {
            Some(pr) => find_task(pr.to_do, t),
            None => None,
        },
    }
}

proof fn lemma_find_push(s: Seq<ToDoV>, t: ToDoV, k: Seq<char>)
    requires
        distinct_tasks(s),
        !has_task(s, t.title),
    ensures
        distinct_tasks(s.push(t)),
        find_task(s.push(t), k) == if k == t.title {
            Some(t)
        } else {
            find_task(s, k)
        },
{
    let s2 = s.push(t);
    assert forall|i: int, j: int|
        0 <= i < s2.len() && 0 <= j < s2.len() && #[trigger] s2[i].title == #[trigger] s2[j].title
            implies i == j by {
        if i < s.len() && j == s.len() {
            assert(s[i].title == t.title);
        }
        if j < s.len() && i == s.len() {
            assert(s[j].title == t.title);
        }
    }
    if k == t.title {
        lemma_find_task_at(s2, s.len() as int);
    } else if has_task(s, k) {
        let j = choose|j: int| 0 <= j < s.len() && #[trigger] s[j].title == k;
        lemma_find_task_at(s, j);
        assert(s2[j] == s[j]);
        lemma_find_task_at(s2, j);
    } else {
        assert(!has_task(s2, k)) by {
            if has_task(s2, k) {
                let j = choose|j: int| 0 <= j < s2.len() && #[trigger] s2[j].title == k;
                assert(s2[j] == s[j]);
            }
        }
    }
}

proof fn lemma_find_remove(s: Seq<ToDoV>, i: int, k: Seq<char>)
    requires
        distinct_tasks(s),
        0 <= i < s.len(),
    ensures
        distinct_tasks(s.remove(i)),
        find_task(s.remove(i), k) == if k == s[i].title {
            None
        } else {
            find_task(s, k)
        },
{
    let s2 = s.remove(i);
    assert forall|a: int, b: int|
        0 <= a < s2.len() && 0 <= b < s2.len() && #[trigger] s2[a].title == #[trigger] s2[b].title
            implies a == b by {
        let x = if a < i { a } else { a + 1 };
        let y = if b < i { b } else { b + 1 };
        assert(s2[a] == s[x]);
        assert(s2[b] == s[y]);
    }
    if has_task(s2, k) {
        let j = choose|j: int| 0 <= j < s2.len() && #[trigger] s2[j].title == k;
        let x = if j < i { j } else { j + 1 };
        assert(s2[j] == s[x]);
        lemma_find_task_at(s2, j);
        lemma_find_task_at(s, x);
    } else {
        if k != s[i].title && has_task(s, k) {
            let x = choose|x: int| 0 <= x < s.len() && #[trigger] s[x].title == k;
            let j = if x < i { x } else { x - 1 };
            assert(s2[j] == s[x]);
        }
    }
}

proof fn lemma_find_update(s: Seq<ToDoV>, i: int, v: ToDoV, k: Seq<char>)
    requires
        distinct_tasks(s),
        0 <= i < s.len(),
        v.title == s[i].title,
    ensures
        distinct_tasks(s.update(i, v)),
        find_task(s.update(i, v), k) == if k == s[i].title {
            Some(v)
        } else {
            find_task(s, k)
        },
{
    let s2 = s.update(i, v);
    assert forall|a: int, b: int|
        0 <= a < s2.len() && 0 <= b < s2.len() && #[trigger] s2[a].title == #[trigger] s2[b].title
            implies a == b by {
        assert(s2[a].title == s[a].title);
        assert(s2[b].title == s[b].title);
    }
    if k == s[i].title {
        lemma_find_task_at(s2, i);
    } else if has_task(s, k) {
        let j = choose|j: int| 0 <= j < s.len() && #[trigger] s[j].title == k;
        lemma_find_task_at(s, j);
        lemma_find_task_at(s2, j);
    } else {
        assert(!has_task(s2, k)) by {
            if has_task(s2, k) {
                let j = choose|j: int| 0 <= j < s2.len() && #[trigger] s2[j].title == k;
                assert(s2[j].title == s[j].title);
            }
        }
    }
}

proof fn lemma_find_project_update(ps: Seq<ProjectV>, i: int, tasks: Seq<ToDoV>, k: Seq<char>)
    requires
        distinct_projects(ps),
        0 <= i < ps.len(),
    ensures
        find_project(with_project_tasks(ps, i, tasks), k) == if k == ps[i].title {
            Some(ProjectV { to_do: tasks, ..ps[i] })
        } else {
            find_project(ps, k)
        },
{
    let s2 = with_project_tasks(ps, i, tasks);
    assert forall|a: int, b: int|
        0 <= a < s2.len() && 0 <= b < s2.len() && #[trigger] s2[a].title == #[trigger] s2[b].title
            implies a == b by {
        assert(s2[a].title == ps[a].title);
        assert(s2[b].title == ps[b].title);
    }
    if k == ps[i].title {
        lemma_find_project_at(s2, i);
    } else if has_project(ps, k) {
        let j = choose|j: int| 0 <= j < ps.len() && #[trigger] ps[j].title == k;
        lemma_find_project_at(ps, j);
        lemma_find_project_at(s2, j);
    } else {
        assert(!has_project(s2, k)) by {
            if has_project(s2, k) {
                let j = choose|j: int| 0 <= j < s2.len() && #[trigger] s2[j].title == k;
                assert(s2[j].title == ps[j].title);
            }
        }
    }
}

proof fn lemma_find_project_push(ps: Seq<ProjectV>, p: ProjectV, k: Seq<char>)
    requires
        distinct_projects(ps),
        !has_project(ps, p.title),
    ensures
        find_project(ps.push(p), k) == if k == p.title {
            Some(p)
        } else {
            find_project(ps, k)
        },
{
    let s2 = ps.push(p);
    assert forall|i: int, j: int|
        0 <= i < s2.len() && 0 <= j < s2.len() && #[trigger] s2[i].title == #[trigger] s2[j].title
            implies i == j by {
        if i < ps.len() && j == ps.len() {
            assert(ps[i].title == p.title);
        }
        if j < ps.len() && i == ps.len() {
            assert(ps[j].title == p.title);
        }
    }
    if k == p.title {
        lemma_find_project_at(s2, ps.len() as int);
    } else if has_project(ps, k) {
        let j = choose|j: int| 0 <= j < ps.len() && #[trigger] ps[j].title == k;
        lemma_find_project_at(ps, j);
        assert(s2[j] == ps[j]);
        lemma_find_project_at(s2, j);
    } else {
        assert(!has_project(s2, k)) by {
            if has_project(s2, k) {
                let j = choose|j: int| 0 <= j < s2.len() && #[trigger] s2[j].title == k;
                assert(s2[j] == ps[j]);
            }
        }
    }
}

proof fn lemma_find_project_remove(ps: Seq<ProjectV>, i: int, k: Seq<char>)
    requires
        distinct_projects(ps),
        0 <= i < ps.len(),
    ensures
        find_project(ps.remove(i), k) == if k == ps[i].title {
            None
        } else {
            find_project(ps, k)
        },
{
    let s2 = ps.remove(i);
    assert forall|a: int, b: int|
        0 <= a < s2.len() && 0 <= b < s2.len() && #[trigger] s2[a].title == #[trigger] s2[b].title
            implies a == b by {
        let x = if a < i { a } else { a + 1 };
        let y = if b < i { b } else { b + 1 };
        assert(s2[a] == ps[x]);
        assert(s2[b] == ps[y]);
    }
    if has_project(s2, k) {
        let j = choose|j: int| 0 <= j < s2.len() && #[trigger] s2[j].title == k;
        let x = if j < i { j } else { j + 1 };
        assert(s2[j] == ps[x]);
        lemma_find_project_at(s2, j);
        lemma_find_project_at(ps, x);
    } else {
        if k != ps[i].title && has_project(ps, k) {
            let x = choose|x: int| 0 <= x < ps.len() && #[trigger] ps[x].title == k;
            let j = if x < i { x } else { x - 1 };
            assert(s2[j] == ps[x]);
        }
    }
}

/// The title part of a task reference.
pub open spec fn ref_title(rf: Seq<char>) -> Seq<char> {
    match ref_of(rf) {
        TaskRefV::TopLevel(t) => t,
        TaskRefV::Nested(_p, t) => t,
    }
}

/// The refusal owed to a task reference that resolves to nothing.
pub open spec fn not_found(s: ToDoFileV, rf: Seq<char>) -> StoreErrorV {
    match ref_of(rf) {
        TaskRefV::Nested(p, _t) => if !has_project(s.projects, p) {
            StoreErrorV::ProjectNotFound(p)
        } else {
            StoreErrorV::TaskNotFound(rf)
        },
        TaskRefV::TopLevel(_t) => StoreErrorV::TaskNotFound(rf),
    }
}

/// Creating a task never overwrites one: a reference that already resolves is refused with
/// `TaskAlreadyExists`; on success the new task, not done, is what the reference resolves to, and
/// every reference that resolved before resolves to the same task.
pub proof fn law_create_task_never_overwrites(
    s: ToDoFileV,
    rf: Seq<char>,
    description: Seq<char>,
    priority: i32,
    limit: Option<Seq<char>>,
    other: Seq<char>,
)
    requires
        s.wf(),
    ensures
        resolve(s, rf) is Some ==> after_create_task(s, rf, description, priority, limit) == Err::<
            ToDoFileV,
            StoreErrorV,
        >(StoreErrorV::TaskAlreadyExists(rf)),
        match after_create_task(s, rf, description, priority, limit) {
            Ok(n) => resolve(n, rf) == Some(new_task(ref_title(rf), description, priority, limit))
                && (resolve(s, other) is Some ==> resolve(n, other) == resolve(s, other)),
            Err(_) => true,
        },
{
    let nt = new_task(ref_title(rf), description, priority, limit);
    match ref_of(rf) {
        TaskRefV::TopLevel(t) => {
            if !has_task(s.to_do, t) {
                lemma_find_push(s.to_do, nt, t);
                match ref_of(other) {
                    TaskRefV::TopLevel(t2) => {
                        lemma_find_push(s.to_do, nt, t2);
                    },
                    TaskRefV::Nested(_p2, _t2) => {},
                }
            }
        },
        TaskRefV::Nested(p, t) => {
            if has_project(s.projects, p) {
                let i = project_index(s.projects, p);
                lemma_find_project_at(s.projects, i);
                let tasks = s.projects[i].to_do;
                if !has_task(tasks, t) {
                    lemma_find_push(tasks, nt, t);
                    lemma_find_project_update(s.projects, i, tasks.push(nt), p);
                    match ref_of(other) {
                        TaskRefV::TopLevel(_t2) => {},
                        TaskRefV::Nested(p2, t2) => {
                            lemma_find_push(tasks, nt, t2);
                            lemma_find_project_update(s.projects, i, tasks.push(nt), p2);
                        },
                    }
                }
            }
        },
    }
}

/// Creating a project never overwrites one: an existing title is refused with
/// `ProjectAlreadyExists`; on success the project exists and every reference resolves as before.
pub proof fn law_create_project_never_overwrites(
    s: ToDoFileV,
    name: Seq<char>,
    description: Seq<char>,
    other: Seq<char>,
)
    requires
        s.wf(),
    ensures
        has_project(s.projects, name) ==> after_create_project(s, name, description) == Err::<
            ToDoFileV,
            StoreErrorV,
        >(StoreErrorV::ProjectAlreadyExists(name)),
        match after_create_project(s, name, description) {
            Ok(n) => has_project(n.projects, name) && resolve(n, other) == resolve(s, other),
            Err(_) => true,
        },
{
    if !has_project(s.projects, name) {
        let pr = ProjectV { title: name, description, to_do: Seq::empty() };
        let ps = s.projects.push(pr);
        assert(ps[s.projects.len() as int].title == name);
        match ref_of(other) {
            TaskRefV::TopLevel(_t2) => {},
            TaskRefV::Nested(p2, t2) => {
                lemma_find_project_push(s.projects, pr, p2);
                if p2 == name {
                    assert(!has_task(pr.to_do, t2));
                }
            },
        }
    }
}

/// A reference that resolves to no task is refused by removal and by completion, with
/// `ProjectNotFound` where it names an absent project and `TaskNotFound` otherwise, and a refused
/// call leaves the store as it was.
pub proof fn law_task_not_found(
    s: ToDoFileV,
    rf: Seq<char>,
    r: Result<(), StoreError>,
    after: ToDoFileV,
)
    requires
        s.wf(),
        resolve(s, rf) is None,
    ensures
        after_remove_task(s, rf) == Err::<ToDoFileV, StoreErrorV>(not_found(s, rf)),
        after_complete_task(s, rf) == Err::<ToDoFileV, StoreErrorV>(not_found(s, rf)),
        applied(s, r, after, after_remove_task(s, rf)) ==> r is Err && after == s,
        applied(s, r, after, after_complete_task(s, rf)) ==> r is Err && after == s,
{
}

/// Removing an absent project is refused with `ProjectNotFound`, leaving the store as it was.
pub proof fn law_project_not_found(
    s: ToDoFileV,
    name: Seq<char>,
    r: Result<(), StoreError>,
    after: ToDoFileV,
)
    requires
        s.wf(),
        !has_project(s.projects, name),
    ensures
        after_remove_project(s, name) == Err::<ToDoFileV, StoreErrorV>(
            StoreErrorV::ProjectNotFound(name),
        ),
        applied(s, r, after, after_remove_project(s, name)) ==> r is Err && after == s,
{
}

/// Tasks are scoped by their collection: removing the task that `rf` refers to leaves every
/// reference to another place resolving as before, so removing `p/x` keeps a top-level `x` and
/// the other way round.
pub proof fn law_remove_task_scoped(s: ToDoFileV, rf: Seq<char>, other: Seq<char>)
    requires
        s.wf(),
        ref_of(other) != ref_of(rf),
    ensures
        match after_remove_task(s, rf) {
            Ok(n) => resolve(n, rf) is None && resolve(n, other) == resolve(s, other),
            Err(_) => true,
        },
{
    match ref_of(rf) {
        TaskRefV::TopLevel(t) => {
            if has_task(s.to_do, t) {
                let k = task_index(s.to_do, t);
                lemma_find_remove(s.to_do, k, t);
                match ref_of(other) {
                    TaskRefV::TopLevel(t2) => {
                        lemma_find_remove(s.to_do, k, t2);
                    },
                    TaskRefV::Nested(_p2, _t2) => {},
                }
            }
        },
        TaskRefV::Nested(p, t) => {
            if has_project(s.projects, p) {
                let i = project_index(s.projects, p);
                let tasks = s.projects[i].to_do;
                if has_task(tasks, t) {
                    let k = task_index(tasks, t);
                    lemma_find_remove(tasks, k, t);
                    lemma_find_project_update(s.projects, i, tasks.remove(k), p);
                    match ref_of(other) {
                        TaskRefV::TopLevel(_t2) => {},
                        TaskRefV::Nested(p2, t2) => {
                            lemma_find_remove(tasks, k, t2);
                            lemma_find_project_update(s.projects, i, tasks.remove(k), p2);
                        },
                    }
                }
            }
        },
    }
}

/// Completing a task succeeds exactly where the reference resolves; the task then has `done` set
/// and its title, description, priority and limit unchanged, and every reference to another
/// place resolves as before.
pub proof fn law_complete_preserves_fields(s: ToDoFileV, rf: Seq<char>, other: Seq<char>)
    requires
        s.wf(),
        ref_of(other) != ref_of(rf),
    ensures
        after_complete_task(s, rf) is Ok <==> resolve(s, rf) is Some,
        match after_complete_task(s, rf) {
            Ok(n) => resolve(n, rf) == Some(completed(resolve(s, rf)->Some_0))
                && resolve(n, other) == resolve(s, other),
            Err(_) => true,
        },
{
    match ref_of(rf) {
        TaskRefV::TopLevel(t) => {
            if has_task(s.to_do, t) {
                let k = task_index(s.to_do, t);
                let c = completed(s.to_do[k]);
                lemma_find_update(s.to_do, k, c, t);
                match ref_of(other) {
                    TaskRefV::TopLevel(t2) => {
                        lemma_find_update(s.to_do, k, c, t2);
                    },
                    TaskRefV::Nested(_p2, _t2) => {},
                }
            }
        },
        TaskRefV::Nested(p, t) => {
            if has_project(s.projects, p) {
                let i = project_index(s.projects, p);
                lemma_find_project_at(s.projects, i);
                let tasks = s.projects[i].to_do;
                if has_task(tasks, t) {
                    let k = task_index(tasks, t);
                    let c = completed(tasks[k]);
                    lemma_find_update(tasks, k, c, t);
                    lemma_find_project_update(s.projects, i, tasks.update(k, c), p);
                    match ref_of(other) {
                        TaskRefV::TopLevel(_t2) => {},
                        TaskRefV::Nested(p2, t2) => {
                            lemma_find_update(tasks, k, c, t2);
                            lemma_find_project_update(s.projects, i, tasks.update(k, c), p2);
                        },
                    }
                }
            }
        },
    }
}

/// Removing a project removes its tasks with it: afterwards the project is absent, and a reference
/// into it is refused with `ProjectNotFound`, not `TaskNotFound`, by removal, completion and
/// creation.
pub proof fn law_remove_project_cascades(
    s: ToDoFileV,
    name: Seq<char>,
    rf: Seq<char>,
    description: Seq<char>,
    priority: i32,
    limit: Option<Seq<char>>,
)
    requires
        s.wf(),
        ref_of(rf) matches TaskRefV::Nested(p, _t) && p == name,
    ensures
        match after_remove_project(s, name) {
            Ok(n) => {
                &&& !has_project(n.projects, name)
                &&& resolve(n, rf) is None
                &&& after_remove_task(n, rf) == Err::<ToDoFileV, StoreErrorV>(
                    StoreErrorV::ProjectNotFound(name),
                )
                &&& after_complete_task(n, rf) == Err::<ToDoFileV, StoreErrorV>(
                    StoreErrorV::ProjectNotFound(name),
                )
                &&& after_create_task(n, rf, description, priority, limit) == Err::<
                    ToDoFileV,
                    StoreErrorV,
                >(StoreErrorV::ProjectNotFound(name))
            },
            Err(_) => true,
        },
{
    if has_project(s.projects, name) {
        let i = project_index(s.projects, name);
        lemma_find_project_remove(s.projects, i, name);
        let ps = s.projects.remove(i);
        if has_project(ps, name) {
            let j = choose|j: int| 0 <= j < ps.len() && #[trigger] ps[j].title == name;
            lemma_find_project_at(ps, j);
        }
    }
}

/// Completing a task is idempotent: completing it again succeeds and changes nothing.
pub proof fn law_complete_idempotent(s: ToDoFileV, rf: Seq<char>)
    requires
        s.wf(),
    ensures
        match after_complete_task(s, rf) {
            Ok(n) => after_complete_task(n, rf) == Ok::<ToDoFileV, StoreErrorV>(n),
            Err(_) => true,
        },
{
    match ref_of(rf) {
        TaskRefV::TopLevel(t) => {
            if has_task(s.to_do, t) {
                let k = task_index(s.to_do, t);
                let c = completed(s.to_do[k]);
                let tasks = s.to_do.update(k, c);
                lemma_find_update(s.to_do, k, c, t);
                assert(tasks[k].title == t);
                lemma_find_task_at(tasks, k);
                let k2 = task_index(tasks, t);
                assert(k2 == k);
                assert(tasks.update(k, completed(tasks[k])) =~= tasks);
            }
        },
        TaskRefV::Nested(p, t) => {
            if has_project(s.projects, p) {
                let i = project_index(s.projects, p);
                let old_tasks = s.projects[i].to_do;
                if has_task(old_tasks, t) {
                    let k = task_index(old_tasks, t);
                    let c = completed(old_tasks[k]);
                    let tasks = old_tasks.update(k, c);
                    lemma_find_update(old_tasks, k, c, t);
                    let ps = with_project_tasks(s.projects, i, tasks);
                    lemma_find_project_update(s.projects, i, tasks, p);
                    assert(ps[i].title == p);
                    lemma_find_project_at(ps, i);
                    assert(project_index(ps, p) == i);
                    assert(tasks[k].title == t);
                    lemma_find_task_at(tasks, k);
                    assert(task_index(tasks, t) == k);
                    assert(tasks.update(k, completed(tasks[k])) =~= tasks);
                    assert(with_project_tasks(ps, i, tasks) =~= ps);
                }
            }
        },
    }
}

} // verus!
