use tutel::codec::project_data_from_doc;
use tutel::codec::project_data_to_doc;
use tutel::codec::DocEntry;
use tutel::codec::DocValue;
use tutel::Error;
use tutel::Project;
use tutel::ProjectData;
use tutel::Task;

#[test]
fn load() {
    let text = r#"
            name = 'testproject'

            [[tasks]]
            desc = 'testtask'
            completed = true
            index = 67

            [[tasks]]
            desc = 'moretest'
            completed = false
            index = 99
               "#;

    let data = ProjectData::from_toml_str(text).expect("unable to load project");

    assert_eq!(data.name, "testproject");
    assert_eq!(
        data.tasks,
        vec![
            Task::new("testtask", true, 67),
            Task::new("moretest", false, 99),
        ]
    );
    assert_eq!(data.is_child, false);
}

#[test]
fn save() {
    let mut project = Project::new(String::new(), 0, String::from("testproject"), false);

    project.add("hypa hypa".to_string(), false);
    project.add("HYPA HYPA".to_string(), true);

    project.data.to_toml_string().expect("unable to save project");
}

#[test]
fn toml_round_trip_preserves_fields() {
    let mut project = Project::new(String::new(), 0, String::from("roundtrip"), false);
    project.add("first".to_string(), false);
    project.add("second, with punctuation: 'quotes' \"too\"".to_string(), true);

    let text = project.data.to_toml_string().unwrap();
    let back = ProjectData::from_toml_str(&text).unwrap();

    assert_eq!(back, project.data);
}

#[test]
fn toml_round_trip_keeps_child_flag() {
    let mut data = ProjectData {
        name: "sub".to_string(),
        tasks: Vec::new(),
        is_child: true,
    };
    data.tasks.push(Task::new("t", false, 7));

    let text = data.to_toml_string().unwrap();
    assert!(text.contains("is_child"));

    let back = ProjectData::from_toml_str(&text).unwrap();
    assert_eq!(back, data);
}

#[test]
fn root_file_omits_child_flag() {
    let data = ProjectData {
        name: "root".to_string(),
        tasks: vec![Task::new("t", true, 3)],
        is_child: false,
    };

    let text = data.to_toml_string().unwrap();
    assert!(!text.contains("is_child"));

    let back = ProjectData::from_toml_str(&text).unwrap();
    assert_eq!(back.is_child, false);
}

#[test]
fn task_description_accepts_legacy_name_field() {
    let text = r#"
        name = 'legacy'

        [[tasks]]
        name = 'written long ago'
        completed = false
        index = 0
        "#;

    let data = ProjectData::from_toml_str(text).unwrap();
    assert_eq!(data.tasks, vec![Task::new("written long ago", false, 0)]);
}

#[test]
fn missing_task_fields_are_rejected() {
    let no_completed = r#"
        name = 'x'

        [[tasks]]
        desc = 'y'
        index = 0
        "#;
    match ProjectData::from_toml_str(no_completed) {
        Err(Error::MissingField { field }) => assert_eq!(field, "completed"),
        _ => panic!("expected a missing-field error"),
    }

    let no_desc = r#"
        name = 'x'

        [[tasks]]
        completed = true
        index = 0
        "#;
    match ProjectData::from_toml_str(no_desc) {
        Err(Error::MissingField { field }) => assert_eq!(field, "desc or name"),
        _ => panic!("expected a missing-field error"),
    }
}

#[test]
fn missing_top_level_fields_are_rejected() {
    match ProjectData::from_toml_str("tasks = []") {
        Err(Error::MissingField { field }) => assert_eq!(field, "name"),
        _ => panic!("expected a missing-field error"),
    }
    match ProjectData::from_toml_str("name = 'x'") {
        Err(Error::MissingField { field }) => assert_eq!(field, "tasks"),
        _ => panic!("expected a missing-field error"),
    }
}

#[test]
fn unknown_fields_are_rejected() {
    let text = "name = 'x'\ntasks = []\ncolor = 'green'\n";
    match ProjectData::from_toml_str(text) {
        Err(Error::UnknownField { field }) => assert_eq!(field, "color"),
        _ => panic!("expected an unknown-field error"),
    }
}

#[test]
fn wrong_field_kinds_are_rejected() {
    let text = "name = 'x'\ntasks = [{ desc = 'y', completed = 3, index = 0 }]\n";
    match ProjectData::from_toml_str(text) {
        Err(Error::InvalidFieldType { field }) => assert_eq!(field, "completed"),
        _ => panic!("expected an ill-typed-field error"),
    }

    let negative = "name = 'x'\ntasks = [{ desc = 'y', completed = true, index = -4 }]\n";
    match ProjectData::from_toml_str(negative) {
        Err(Error::InvalidFieldType { field }) => assert_eq!(field, "index"),
        _ => panic!("expected an ill-typed-field error"),
    }
}

#[test]
fn ill_formed_text_is_a_syntax_error() {
    match ProjectData::from_toml_str("not == toml ===") {
        Err(Error::Syntax { .. }) => {}
        _ => panic!("expected a syntax error"),
    }
}

#[test]
fn duplicate_keys_in_text_are_rejected() {
    let text = "name = 'x'\nname = 'y'\ntasks = []\n";
    match ProjectData::from_toml_str(text) {
        Err(Error::Syntax { .. }) => {}
        _ => panic!("expected duplicate keys to fail the parse"),
    }
}

#[test]
fn duplicate_fields_in_a_document_are_rejected() {
    let doc = DocValue::Table(vec![
        DocEntry {
            key: "name".to_string(),
            value: DocValue::Text("x".to_string()),
        },
        DocEntry {
            key: "name".to_string(),
            value: DocValue::Text("y".to_string()),
        },
    ]);
    match project_data_from_doc(&doc) {
        Err(Error::DuplicateField { field }) => assert_eq!(field, "name"),
        _ => panic!("expected a duplicate-field error"),
    }

    let task = DocValue::Table(vec![
        DocEntry {
            key: "desc".to_string(),
            value: DocValue::Text("a".to_string()),
        },
        DocEntry {
            key: "name".to_string(),
            value: DocValue::Text("b".to_string()),
        },
    ]);
    let doc = DocValue::Table(vec![
        DocEntry {
            key: "name".to_string(),
            value: DocValue::Text("x".to_string()),
        },
        DocEntry {
            key: "tasks".to_string(),
            value: DocValue::List(vec![task]),
        },
    ]);
    match project_data_from_doc(&doc) {
        Err(Error::DuplicateField { field }) => assert_eq!(field, "desc/name"),
        _ => panic!("expected a duplicate-field error"),
    }
}

#[test]
fn document_round_trip_on_values() {
    let data = ProjectData {
        name: "doc".to_string(),
        tasks: vec![Task::new("a", true, 0), Task::new("b", false, 12)],
        is_child: true,
    };

    let doc = project_data_to_doc(&data);
    let back = project_data_from_doc(&doc).unwrap();

    assert_eq!(back, data);
}

#[test]
fn rendered_text_keeps_field_order() {
    let data = ProjectData {
        name: "order".to_string(),
        tasks: vec![Task::new("a", false, 0)],
        is_child: false,
    };

    let text = data.to_toml_string().unwrap();
    let name_at = text.find("name =").unwrap();
    let tasks_at = text.find("[[tasks]]").unwrap();
    let desc_at = text.find("desc =").unwrap();
    let completed_at = text.find("completed =").unwrap();
    let index_at = text.find("index =").unwrap();

    assert!(name_at < tasks_at);
    assert!(tasks_at < desc_at);
    assert!(desc_at < completed_at);
    assert!(completed_at < index_at);
}

#[test]
fn float_values_are_rejected_by_the_schema() {
    let text = "name = 'x'\ntasks = [{ desc = 'y', completed = true, index = 1.5 }]\n";
    match ProjectData::from_toml_str(text) {
        Err(Error::InvalidFieldType { field }) => assert_eq!(field, "index"),
        _ => panic!("expected an ill-typed-field error"),
    }
}
