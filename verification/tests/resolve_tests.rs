use tutel::resolve::load_project_rec;
use tutel::resolve::resolve_root;
use tutel::resolve::AncestorProbe;
use tutel::resolve::DirSnapshot;
use tutel::resolve::ListProbe;
use tutel::Error;
use tutel::Project;
use tutel::ProjectData;

fn list(name: &str, is_child: bool) -> ProjectData {
    ProjectData {
        name: name.to_string(),
        tasks: Vec::new(),
        is_child,
    }
}

fn probe(path: &str, probe: ListProbe) -> AncestorProbe {
    AncestorProbe {
        file_path: path.to_string(),
        probe,
    }
}

fn dir(path: &str, probe: ListProbe, subdirs: Vec<DirSnapshot>) -> DirSnapshot {
    DirSnapshot {
        file_path: path.to_string(),
        probe,
        subdirs,
    }
}

#[test]
fn find_project_with_children() {
    // Resolving from `root/level1`: `level1` holds a child list, `root`
    // holds the governing list; under the root, `level1` is a child,
    // `level1/level2` is a bare directory whose `level3` holds a child
    // list, and `level1/level2_2` holds a child list.
    let ancestors = vec![
        probe("level1/.tutel.toml", ListProbe::Found(list("l1", true))),
        probe(".tutel.toml", ListProbe::Found(list("root", false))),
    ];
    let subdirs = vec![dir(
        "level1/.tutel.toml",
        ListProbe::Found(list("l1", true)),
        vec![
            dir(
                "level1/level2_2/.tutel.toml",
                ListProbe::Found(list("l2_2", true)),
                vec![],
            ),
            dir(
                "level1/level2/.tutel.toml",
                ListProbe::Missing,
                vec![dir(
                    "level1/level2/level3/.tutel.toml",
                    ListProbe::Found(list("l3", true)),
                    vec![],
                )],
            ),
        ],
    )];

    let mut expected = Project::from_data(".tutel.toml".to_string(), -1, list("root", false));

    let mut level1_child =
        Project::from_data("level1/.tutel.toml".to_string(), 0, list("l1", true));

    level1_child.attach_child(Project::from_data(
        "level1/level2_2/.tutel.toml".to_string(),
        1,
        list("l2_2", true),
    ));

    level1_child.attach_child(Project::from_data(
        "level1/level2/level3/.tutel.toml".to_string(),
        1,
        list("l3", true),
    ));

    expected.attach_child(level1_child);

    assert_eq!(load_project_rec(ancestors, subdirs).unwrap(), expected);
}

#[test]
fn resolution_skips_child_marked_ancestors() {
    let ancestors = vec![
        probe("a/b/c/.tutel.toml", ListProbe::Found(list("c", true))),
        probe("a/b/.tutel.toml", ListProbe::Found(list("b", true))),
        probe("a/.tutel.toml", ListProbe::Found(list("a", false))),
    ];

    let root = resolve_root(ancestors).unwrap();
    assert_eq!(root.data.name, "a");
    assert_eq!(root.steps(), -2);
    assert_eq!(root.path(), "a/.tutel.toml");
}

#[test]
fn resolution_skips_corrupt_intermediate_files() {
    let ancestors = vec![
        probe("a/b/.tutel.toml", ListProbe::Invalid),
        probe("a/.tutel.toml", ListProbe::Found(list("a", false))),
    ];

    let root = resolve_root(ancestors).unwrap();
    assert_eq!(root.data.name, "a");
    assert_eq!(root.steps(), -1);
}

#[test]
fn resolution_starts_at_the_origin_itself() {
    let ancestors = vec![
        probe("here/.tutel.toml", ListProbe::Found(list("here", false))),
        probe(".tutel.toml", ListProbe::Found(list("above", false))),
    ];

    let root = resolve_root(ancestors).unwrap();
    assert_eq!(root.data.name, "here");
    assert_eq!(root.steps(), 0);
}

#[test]
fn no_eligible_ancestor_is_no_project() {
    let ancestors = vec![
        probe("a/b/.tutel.toml", ListProbe::Missing),
        probe("a/.tutel.toml", ListProbe::Invalid),
        probe(".tutel.toml", ListProbe::Found(list("x", true))),
    ];

    match resolve_root(ancestors) {
        Err(Error::NoProjectFound) => {}
        _ => panic!("expected no project to be found"),
    }
}

#[test]
fn descent_skips_unrelated_projects() {
    let ancestors = vec![probe(".tutel.toml", ListProbe::Found(list("root", false)))];
    // A non-child list below the root is an independent project: it is not
    // attached, and nothing under it is either.
    let subdirs = vec![dir(
        "other/.tutel.toml",
        ListProbe::Found(list("other", false)),
        vec![dir(
            "other/inner/.tutel.toml",
            ListProbe::Found(list("inner", true)),
            vec![],
        )],
    )];

    let root = load_project_rec(ancestors, subdirs).unwrap();
    assert!(root.get_children().is_empty());
}

#[test]
fn descent_stops_at_the_depth_limit() {
    // A chain of child lists deeper than the limit: only five levels are
    // attached.
    let mut snapshot = dir("d6/.tutel.toml", ListProbe::Found(list("c6", true)), vec![]);
    for k in (1..=5).rev() {
        let name = format!("c{}", k);
        snapshot = dir(
            &format!("d{}/.tutel.toml", k),
            ListProbe::Found(list(&name, true)),
            vec![snapshot],
        );
    }
    let ancestors = vec![probe(".tutel.toml", ListProbe::Found(list("root", false)))];

    let root = load_project_rec(ancestors, vec![snapshot]).unwrap();

    let mut node = &root;
    let mut depth = 0;
    while let Some(child) = node.get_children().first() {
        node = child;
        depth += 1;
    }
    assert_eq!(depth, 5);
    assert_eq!(node.data.name, "c5");
    assert_eq!(node.steps(), 5);
}

#[test]
fn attached_children_step_one_past_their_parent() {
    let ancestors = vec![
        probe("p/.tutel.toml", ListProbe::Missing),
        probe(".tutel.toml", ListProbe::Found(list("root", false))),
    ];
    // A child list under two bare directories still sits one hop below
    // the node it attaches to.
    let subdirs = vec![dir(
        "a/.tutel.toml",
        ListProbe::Missing,
        vec![dir(
            "a/b/.tutel.toml",
            ListProbe::Missing,
            vec![dir(
                "a/b/c/.tutel.toml",
                ListProbe::Found(list("deep", true)),
                vec![],
            )],
        )],
    )];

    let root = load_project_rec(ancestors, subdirs).unwrap();
    assert_eq!(root.steps(), -1);
    assert_eq!(root.get_children().len(), 1);
    assert_eq!(root.get_children()[0].data.name, "deep");
    assert_eq!(root.get_children()[0].steps(), 0);
}
