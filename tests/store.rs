use todo::command::{execute, execute_view, Actions, RegisterType};
use todo::objects::{ToDo, ToDoFile};
use todo::operations::StoreError;
use todo::reference::{parse_ref, TaskRef};

fn s(x: &str) -> String {
    x.to_string()
}

fn find<'a>(tasks: &'a [ToDo], title: &str) -> Option<&'a ToDo> {
    tasks.iter().find(|t| t.title == title)
}

fn project_tasks<'a>(store: &'a ToDoFile, name: &str) -> Option<&'a Vec<ToDo>> {
    store.projects.iter().find(|p| p.title == name).map(|p| &p.to_do)
}

fn home_store() -> ToDoFile {
    let mut store = ToDoFile::new();
    store.create_project(s("home"), s("Household")).unwrap();
    store
        .create_task(s("home/clean"), s("Clean kitchen"), 2, Some(s("friday")))
        .unwrap();
    store
}

#[test]
fn parse_top_level_reference() {
    assert_eq!(parse_ref("buy-milk"), TaskRef::TopLevel(s("buy-milk")));
    assert_eq!(parse_ref(""), TaskRef::TopLevel(s("")));
}

#[test]
fn parse_nested_reference_splits_at_first_slash() {
    assert_eq!(parse_ref("home/clean"), TaskRef::Nested(s("home"), s("clean")));
    assert_eq!(parse_ref("a/b/c"), TaskRef::Nested(s("a"), s("b/c")));
    assert_eq!(parse_ref("/x"), TaskRef::Nested(s(""), s("x")));
    assert_eq!(parse_ref("ñu/é"), TaskRef::Nested(s("ñu"), s("é")));
}

#[test]
fn create_top_level_task_in_empty_store() {
    let mut store = ToDoFile::new();
    assert_eq!(store.create_task(s("buy-milk"), s("Groceries"), 1, None), Ok(()));
    assert_eq!(store.to_do.len(), 1);
    let t = find(&store.to_do, "buy-milk").unwrap();
    assert_eq!(t.description, "Groceries");
    assert_eq!(t.priority, 1);
    assert_eq!(t.limit, None);
    assert!(!t.done);
    assert!(store.projects.is_empty());
}

#[test]
fn create_task_inside_project() {
    let store = home_store();
    let tasks = project_tasks(&store, "home").unwrap();
    assert_eq!(tasks.len(), 1);
    let t = find(tasks, "clean").unwrap();
    assert_eq!(t.description, "Clean kitchen");
    assert_eq!(t.priority, 2);
    assert_eq!(t.limit, Some(s("friday")));
    assert!(!t.done);
    assert!(store.to_do.is_empty());
}

#[test]
fn complete_nested_task_twice() {
    let mut store = home_store();
    assert_eq!(store.complete_task(s("home/clean")), Ok(()));
    let t = find(project_tasks(&store, "home").unwrap(), "clean").unwrap();
    assert!(t.done);
    assert_eq!(store.complete_task(s("home/clean")), Ok(()));
    let t = find(project_tasks(&store, "home").unwrap(), "clean").unwrap();
    assert!(t.done);
    assert_eq!(t.description, "Clean kitchen");
    assert_eq!(t.priority, 2);
    assert_eq!(t.limit, Some(s("friday")));
}

#[test]
fn remove_missing_task_is_refused() {
    let mut store = home_store();
    let before = store.clone();
    assert_eq!(
        store.remove_task(s("nonexistent")),
        Err(StoreError::TaskNotFound(s("nonexistent")))
    );
    assert_eq!(store, before);
}

#[test]
fn create_nested_task_twice_is_refused() {
    let mut store = home_store();
    let before = store.clone();
    assert_eq!(
        store.create_task(s("home/clean"), s("Again"), 5, None),
        Err(StoreError::TaskAlreadyExists(s("home/clean")))
    );
    assert_eq!(store, before);
}

#[test]
fn create_top_level_task_twice_is_refused() {
    let mut store = ToDoFile::new();
    store.create_task(s("x"), s("first"), 1, None).unwrap();
    assert_eq!(
        store.create_task(s("x"), s("second"), 9, None),
        Err(StoreError::TaskAlreadyExists(s("x")))
    );
    assert_eq!(find(&store.to_do, "x").unwrap().description, "first");
}

#[test]
fn create_project_twice_is_refused() {
    let mut store = home_store();
    let before = store.clone();
    assert_eq!(
        store.create_project(s("home"), s("Other")),
        Err(StoreError::ProjectAlreadyExists(s("home")))
    );
    assert_eq!(store, before);
}

#[test]
fn removed_project_gives_project_not_found() {
    let mut store = home_store();
    assert_eq!(store.remove_project(s("home")), Ok(()));
    assert!(store.projects.is_empty());
    assert_eq!(
        store.complete_task(s("home/clean")),
        Err(StoreError::ProjectNotFound(s("home")))
    );
    assert_eq!(
        store.remove_task(s("home/clean")),
        Err(StoreError::ProjectNotFound(s("home")))
    );
}

#[test]
fn remove_missing_project_is_refused() {
    let mut store = home_store();
    let before = store.clone();
    assert_eq!(
        store.remove_project(s("work")),
        Err(StoreError::ProjectNotFound(s("work")))
    );
    assert_eq!(store, before);
}

#[test]
fn create_in_missing_project_is_refused() {
    let mut store = ToDoFile::new();
    assert_eq!(
        store.create_task(s("work/report"), s("d"), 0, None),
        Err(StoreError::ProjectNotFound(s("work")))
    );
    assert!(store.to_do.is_empty());
}

#[test]
fn nested_task_missing_in_existing_project() {
    let mut store = home_store();
    assert_eq!(
        store.complete_task(s("home/dust")),
        Err(StoreError::TaskNotFound(s("home/dust")))
    );
    assert_eq!(
        store.remove_task(s("home/dust")),
        Err(StoreError::TaskNotFound(s("home/dust")))
    );
}

#[test]
fn same_title_in_two_scopes_is_independent() {
    let mut store = ToDoFile::new();
    store.create_project(s("p"), s("")).unwrap();
    assert_eq!(store.create_task(s("x"), s("top"), 1, None), Ok(()));
    assert_eq!(store.create_task(s("p/x"), s("nested"), 2, None), Ok(()));
    assert_eq!(store.remove_task(s("p/x")), Ok(()));
    assert_eq!(find(&store.to_do, "x").unwrap().description, "top");
    assert!(project_tasks(&store, "p").unwrap().is_empty());
    store.create_task(s("p/x"), s("nested"), 2, None).unwrap();
    assert_eq!(store.remove_task(s("x")), Ok(()));
    assert!(store.to_do.is_empty());
    assert_eq!(find(project_tasks(&store, "p").unwrap(), "x").unwrap().description, "nested");
}

#[test]
fn complete_top_level_keeps_fields() {
    let mut store = ToDoFile::new();
    store.create_task(s("t"), s("desc"), -3, Some(s("monday"))).unwrap();
    store.create_task(s("u"), s("other"), 4, None).unwrap();
    assert_eq!(store.complete_task(s("t")), Ok(()));
    let t = find(&store.to_do, "t").unwrap();
    assert!(t.done);
    assert_eq!(t.title, "t");
    assert_eq!(t.description, "desc");
    assert_eq!(t.priority, -3);
    assert_eq!(t.limit, Some(s("monday")));
    assert!(!find(&store.to_do, "u").unwrap().done);
}

#[test]
fn listing_shows_undefined_without_limit() {
    let mut store = ToDoFile::new();
    store.create_task(s("a"), s("first"), 1, None).unwrap();
    store.create_task(s("b"), s("second"), 7, Some(s("soon"))).unwrap();
    store.complete_task(s("b")).unwrap();
    let rows = execute_view(&store);
    assert_eq!(rows.len(), 2);
    assert_eq!(rows[0].title, "a");
    assert_eq!(rows[0].description, "first");
    assert_eq!(rows[0].priority, 1);
    assert_eq!(rows[0].limit, "Undefined");
    assert!(!rows[0].done);
    assert_eq!(rows[1].limit, "soon");
    assert!(rows[1].done);
    assert_eq!(store.task_rows(), rows);
}

#[test]
fn well_formedness_check() {
    let mut store = home_store();
    assert!(store.is_well_formed());
    assert!(ToDoFile::new().is_well_formed());
    let dup = store.projects[0].to_do[0].clone();
    store.projects[0].to_do.push(dup);
    assert!(!store.is_well_formed());
    let mut store = ToDoFile::new();
    store.create_task(s("a"), s(""), 0, None).unwrap();
    let dup = store.to_do[0].clone();
    store.to_do.push(dup);
    assert!(!store.is_well_formed());
    let mut store = home_store();
    let dup = store.projects[0].clone();
    store.projects.push(dup);
    assert!(!store.is_well_formed());
}

#[test]
fn execute_dispatches_actions() {
    let mut store = ToDoFile::new();
    let create_project = Actions::Create(RegisterType::Project { name: s("home"), description: s("Household") });
    assert_eq!(execute(&mut store, create_project), Ok(true));
    let create = Actions::Create(RegisterType::Task {
        name: s("home/clean"),
        description: s("Clean kitchen"),
        priority: 2,
        limit: None,
    });
    assert_eq!(execute(&mut store, create.clone()), Ok(true));
    let edit = match create {
        Actions::Create(t) => Actions::Edit(t),
        other => other,
    };
    assert_eq!(
        execute(&mut store, edit),
        Err(StoreError::TaskAlreadyExists(s("home/clean")))
    );
    let done = Actions::Done(RegisterType::Task { name: s("home/clean"), description: s(""), priority: 0, limit: None });
    assert_eq!(execute(&mut store, done), Ok(true));
    assert!(find(project_tasks(&store, "home").unwrap(), "clean").unwrap().done);
    let before = store.clone();
    assert_eq!(execute(&mut store, Actions::View), Ok(false));
    let done_project = Actions::Done(RegisterType::Project { name: s("home"), description: s("") });
    assert_eq!(execute(&mut store, done_project), Ok(false));
    assert_eq!(store, before);
    let remove = Actions::Remove(RegisterType::Project { name: s("home"), description: s("") });
    assert_eq!(execute(&mut store, remove), Ok(true));
    assert!(store.projects.is_empty());
    let remove_task = Actions::Remove(RegisterType::Task { name: s("gone"), description: s(""), priority: 0, limit: None });
    assert_eq!(
        execute(&mut store, remove_task),
        Err(StoreError::TaskNotFound(s("gone")))
    );
}
