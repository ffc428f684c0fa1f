use tutel::nav::find_entry;
use tutel::selector::done;
use tutel::selector::remove;
use tutel::Error;
use tutel::Project;
use tutel::Task;
use tutel::TaskSelector;

fn sample() -> Project {
    let mut p = Project::new(String::new(), 0, String::from("sample"), false);
    p.add("one".to_string(), false);
    p.add("two".to_string(), false);
    p.add("three".to_string(), true);
    p
}

#[test]
fn done_marks_selected_indices() {
    let mut p = sample();
    done(&mut p, &TaskSelector::Indexed(vec![0, 2]), true).unwrap();
    assert_eq!(p.data.tasks[0].completed, true);
    assert_eq!(p.data.tasks[1].completed, false);
    assert_eq!(p.data.tasks[2].completed, true);
}

#[test]
fn done_all_marks_everything() {
    let mut p = sample();
    done(&mut p, &TaskSelector::All, true).unwrap();
    assert!(p.data.tasks.iter().all(|t| t.completed));

    done(&mut p, &TaskSelector::All, false).unwrap();
    assert!(p.data.tasks.iter().all(|t| !t.completed));
}

#[test]
fn done_aborts_at_the_first_missing_index() {
    let mut p = sample();
    // Index 0 is marked before the batch stops at the absent index 9;
    // index 2's mark is never applied.
    let r = done(&mut p, &TaskSelector::Indexed(vec![0, 9, 2]), true);
    match r {
        Err(Error::NoSuchTask { index, .. }) => assert_eq!(index, 9),
        _ => panic!("expected the batch to stop at index 9"),
    }
    assert_eq!(p.data.tasks[0].completed, true);
    assert_eq!(p.data.tasks[2].completed, true); // was already completed
    assert_eq!(p.data.tasks[1].completed, false);
}

#[test]
fn remove_selected_indices() {
    let mut p = sample();
    remove(&mut p, &TaskSelector::Indexed(vec![0, 2]));
    assert_eq!(p.data.tasks, vec![Task::new("two", false, 1)]);
}

#[test]
fn remove_all_and_completed() {
    let mut p = sample();
    remove(&mut p, &TaskSelector::Completed);
    assert_eq!(
        p.data.tasks,
        vec![Task::new("one", false, 0), Task::new("two", false, 1)]
    );

    remove(&mut p, &TaskSelector::All);
    assert!(p.data.tasks.is_empty());
}

#[test]
fn find_entry_returns_the_first_match() {
    let lines = vec![
        "alpha /srv/alpha".to_string(),
        "beta /srv/beta".to_string(),
        "beta /srv/beta2".to_string(),
    ];

    let (i, line) = find_entry("beta", &lines).unwrap();
    assert_eq!(i, 1);
    assert_eq!(line, "beta /srv/beta");
}

#[test]
fn find_entry_needs_the_whole_name() {
    let lines = vec!["alphabet /srv/a".to_string()];
    // "alpha" is not followed by a space in "alphabet ...", so it is no
    // entry for "alpha".
    assert!(find_entry("alpha", &lines).is_none());
    assert!(find_entry("alphabet", &lines).is_some());
}

#[test]
fn error_messages_name_the_failure() {
    assert_eq!(Error::NoProjectFound.message(), "no project found");
    let e = Error::NoSuchTask {
        list: "root".to_string(),
        index: 5,
    };
    assert_eq!(e.message(), "no task root:5 found");
    let m = Error::MissingField {
        field: "name".to_string(),
    };
    assert_eq!(m.message(), "missing field name");
}

#[test]
fn flatten_newlines_replaces_line_breaks() {
    assert_eq!(tutel::text::flatten_newlines("a\nb\nc"), "a b c");
    assert_eq!(tutel::text::flatten_newlines(""), "");
    assert_eq!(tutel::text::flatten_newlines("plain"), "plain");
}
