use tutel::Project;
use tutel::Task;

#[test]
fn remove_task() {
    let mut project = Project::new(
        String::from("/invalid/path"),
        0,
        String::from("testproject"),
        false,
    );

    project.add("iam".to_string(), false);
    project.add("root".to_string(), true);

    project.remove(0);

    assert!(project.get_task_mut(0).is_err());
    assert_eq!(project.next_index(), 2);
}

#[test]
fn remove_all_completed() {
    let mut project = Project::new(
        String::from("/invalid/path"),
        0,
        String::from("testproject"),
        false,
    );

    project.add("never".to_string(), true);
    project.add("gonna".to_string(), false);
    project.add("give".to_string(), false);
    project.add("you".to_string(), true);
    project.add("up".to_string(), false);

    project.remove_completed();

    assert!(project.get_task_mut(0).is_err());
    assert!(project.get_task_mut(3).is_err());
}

#[test]
fn next_index() {
    let mut project = Project::new(String::new(), 0, String::from("dummy"), false);
    project.data.tasks.push(Task::new("a", false, 5));
    project.data.tasks.push(Task::new("a", false, 16));

    assert_eq!(project.next_index(), 17);
}

#[test]
fn wrap_index() {
    let mut project = Project::new(String::new(), 0, String::from("dummy"), false);
    project.data.tasks.push(Task::new("a", false, 999));
    project.data.tasks.push(Task::new("a", false, 3));

    assert_eq!(project.next_index(), 0);
}

#[test]
fn next_index_empty() {
    let project = Project::new(String::new(), 0, String::from("dummy"), false);
    assert_eq!(project.next_index(), 0);
}

#[test]
fn get_task_from_selector() {
    let mut root = Project::new(String::new(), 0, String::from("root"), false);
    let mut child1 = Project::new(String::new(), 1, String::from("child1"), true);
    let mut child2 = Project::new(String::new(), 1, String::from("child2"), true);
    let mut child2_1 = Project::new(String::new(), 2, String::from("child2_1"), true);

    // create tasks
    child1.add("wegot".to_string(), false);
    child2_1.add("themoves".to_string(), false);

    // attach children
    child2.attach_child(child2_1);
    root.attach_child(child1);
    root.attach_child(child2);

    assert_eq!(
        *root.find_task("child1", 0).unwrap(),
        Task::new("wegot", false, 0)
    );
    assert_eq!(
        *root.find_task("child2_1", 0).unwrap(),
        Task::new("themoves", false, 0)
    );
}

#[test]
fn find_task_prefers_own_node_over_children() {
    let mut root = Project::new(String::new(), 0, String::from("app"), false);
    let mut child = Project::new(String::new(), 1, String::from("apple"), true);
    child.add("inner".to_string(), false);
    root.add("outer".to_string(), false);
    root.attach_child(child);

    // "app" matches the root's own name first, so its task wins.
    assert_eq!(*root.find_task("app", 0).unwrap(), Task::new("outer", false, 0));
    // "apple" does not match "app", so the child is searched.
    assert_eq!(*root.find_task("apple", 0).unwrap(), Task::new("inner", false, 0));
}

#[test]
fn find_task_miss_reports_node_name() {
    let root = Project::new(String::new(), 0, String::from("root"), false);
    match root.find_task("nomatch", 3) {
        Err(tutel::Error::NoSuchTask { list, index }) => {
            assert_eq!(list, "root");
            assert_eq!(index, 3);
        }
        _ => panic!("expected a missing-task error"),
    }
}

#[test]
fn remove_completed_keeps_pending_in_order() {
    let mut project = Project::new(String::new(), 0, String::from("p"), false);
    project.data.tasks.push(Task::new("a", true, 0));
    project.data.tasks.push(Task::new("b", false, 1));
    project.data.tasks.push(Task::new("c", true, 2));

    project.remove_completed();

    assert_eq!(project.data.tasks, vec![Task::new("b", false, 1)]);
}

#[test]
fn mark_completion_missing_index_leaves_list_unmodified() {
    let mut project = Project::new(String::new(), 0, String::from("p"), false);
    project.add("a".to_string(), false);
    project.add("b".to_string(), false);
    let before = project.data.tasks.clone();

    let r = project.mark_completion(5, true);

    match r {
        Err(tutel::Error::NoSuchTask { index, .. }) => assert_eq!(index, 5),
        _ => panic!("expected a missing-task error for index 5"),
    }
    assert_eq!(project.data.tasks, before);
}

#[test]
fn mark_completion_sets_the_flag() {
    let mut project = Project::new(String::new(), 0, String::from("p"), false);
    project.add("a".to_string(), false);
    project.add("b".to_string(), false);

    project.mark_completion(1, true).unwrap();

    assert_eq!(project.data.tasks[0].completed, false);
    assert_eq!(project.data.tasks[1].completed, true);

    project.mark_completion_all(true);
    assert!(project.data.tasks.iter().all(|t| t.completed));
}

#[test]
fn attached_children_are_marked_as_children() {
    let mut root = Project::new(String::new(), 0, String::from("root"), false);
    let a = Project::new(String::new(), 1, String::from("a"), true);
    let b = Project::new(String::new(), 1, String::from("b"), true);
    root.attach_child(a);
    root.attach_child(b);

    assert_eq!(root.get_children().len(), 2);
    assert!(root.get_children().iter().all(|c| c.is_child()));
}

#[test]
fn add_assigns_wrapped_indices() {
    let mut project = Project::new(String::new(), 0, String::from("p"), false);
    project.data.tasks.push(Task::new("old", true, 999));
    project.add("fresh".to_string(), false);

    // After 999 the numbering wraps to 0.
    assert_eq!(project.data.tasks[1], Task::new("fresh", false, 0));
}

#[test]
fn accessors_reflect_construction() {
    let p = Project::new(String::from("somewhere/.tutel.toml"), -2, String::from("x"), true);
    assert_eq!(p.path(), "somewhere/.tutel.toml");
    assert_eq!(p.steps(), -2);
    assert!(p.is_child());
    assert!(p.get_children().is_empty());
}
