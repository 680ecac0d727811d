use kindra::boundary::{
    branch_is_merged, cherry_equivalent_commits, collect_first_parent_chain, find_sync_boundary, LocalRef,
};
use kindra::commands::restack::find_floating_children;
use kindra::floating::{
    build_floating_target_context, find_floating_base, match_patch_ids, missing_patch_ids, parse_patch_ids,
    read_branch_reflog_ids, reflog_name, remember_patch_ids, scan_floating_base,
    within_history_limit, CommitDetails, FloatingScan,
};
use kindra::component::collect_stack_component;
use kindra::graph::{reaches_commit, CommitGraph, GraphError};
use kindra::names::{sorted_texts, NameMap};
use kindra::oid::{parse_oid, zero_oid};
use kindra::stack::{
    build_parent_maps, collect_descendants, collect_descendants_of_id, collect_path_branches,
    compute_base_map, display_name, find_parent_in_stack, get_immediate_successors,
    get_stack_branches, get_stack_branches_from_merge_base, get_stack_tips, has_branch,
    sort_branches_topologically, visualize_stack, StackBranch, StackError,
};

fn texts(list: &[&str]) -> Vec<String> {
    list.iter().map(|s| s.to_string()).collect()
}

fn branch(name: &str, id: &str) -> StackBranch {
    StackBranch { name: name.to_string(), id: id.to_string() }
}

fn names(list: &[StackBranch]) -> Vec<&str> {
    list.iter().map(|b| b.name.as_str()).collect()
}

/// base - a1 - a2 - b1, a2 - c1, base - u1
fn graph() -> CommitGraph {
    let mut g = CommitGraph::new();
    g.insert("base".to_string(), &vec![]).unwrap();
    g.insert("a1".to_string(), &texts(&["base"])).unwrap();
    g.insert("a2".to_string(), &texts(&["a1"])).unwrap();
    g.insert("b1".to_string(), &texts(&["a2"])).unwrap();
    g.insert("c1".to_string(), &texts(&["a2"])).unwrap();
    g.insert("u1".to_string(), &texts(&["base"])).unwrap();
    g
}

fn stack() -> Vec<StackBranch> {
    vec![branch("c", "c1"), branch("b", "b1"), branch("a", "a2")]
}

#[test]
fn commits_come_after_their_parents() {
    let mut g = graph();
    assert_eq!(g.len(), 6);
    assert!(g.contains("a1"));
    assert!(matches!(
        g.insert("x".to_string(), &texts(&["nowhere"])),
        Err(GraphError::Unknown(_))
    ));
    assert!(matches!(g.insert("a1".to_string(), &vec![]), Err(GraphError::Twice(_))));
    assert_eq!(g.parents("b1"), Some(texts(&["a2"])));
    assert_eq!(g.parents("nowhere"), None);
}

#[test]
fn descent_is_strict_and_transitive() {
    let g = graph();
    assert!(g.descendant_of("b1", "a2"));
    assert!(g.descendant_of("a2", "base"));
    assert!(g.descendant_of("b1", "base"));
    assert!(!g.descendant_of("a2", "a2"));
    assert!(!g.descendant_of("a2", "b1"));
    assert!(reaches_commit(&g, "a2", "a2"));
}

#[test]
fn both_ways_find_the_same_stack() {
    let g = graph();
    let locals = vec![branch("main", "u1"), branch("a", "a2"), branch("b", "b1")];
    let one = get_stack_branches(&g, &locals, "base", "b1", "u1", "main");
    let two = get_stack_branches_from_merge_base(&g, &locals, "base", "b1", "u1", "main");
    let mut first = names(&one);
    let mut second = names(&two);
    first.sort();
    second.sort();
    assert_eq!(first, vec!["a", "b"]);
    assert_eq!(first, second);
}

#[test]
fn merged_branches_are_not_in_the_stack() {
    let g = graph();
    let locals = vec![branch("a", "a1"), branch("b", "b1")];
    let found = get_stack_branches_from_merge_base(&g, &locals, "a1", "b1", "a1", "main");
    assert_eq!(names(&found), vec!["b"]);
}

#[test]
fn successors_and_tips() {
    let g = graph();
    assert_eq!(get_immediate_successors(&g, "a2", &stack()), texts(&["c", "b"]));
    assert_eq!(get_immediate_successors(&g, "a1", &stack()), texts(&["a"]));
    let mut tips = get_stack_tips(&g, &stack());
    tips.sort();
    assert_eq!(tips, texts(&["b", "c"]));
}

#[test]
fn descendants_and_paths() {
    let g = graph();
    let mut found = vec![];
    collect_descendants(&g, "a", &stack(), &mut found).unwrap();
    assert!(has_branch(&found, "b") && has_branch(&found, "c"));
    assert!(matches!(
        collect_descendants(&g, "zzz", &stack(), &mut found),
        Err(StackError::RootNotInStack(_))
    ));
    let mut from_id = vec![];
    collect_descendants_of_id(&g, "b1", &stack(), &mut from_id);
    assert!(!has_branch(&from_id, "c"));
    let path = collect_path_branches(&g, "b1", "base", &stack());
    assert!(has_branch(&path, "a") && has_branch(&path, "b") && !has_branch(&path, "c"));
}

#[test]
fn branches_are_sorted_parents_first() {
    let g = graph();
    let mut list = stack();
    sort_branches_topologically(&g, &mut list);
    assert_eq!(names(&list), vec!["a", "b", "c"]);
}

#[test]
fn the_parent_is_the_nearest_branch_below() {
    let g = graph();
    assert_eq!(find_parent_in_stack(&g, "b", &stack(), "base").unwrap(), "a2");
    assert_eq!(find_parent_in_stack(&g, "a", &stack(), "base").unwrap(), "base");
    assert!(matches!(
        find_parent_in_stack(&g, "zzz", &stack(), "base"),
        Err(StackError::NotInStack(_))
    ));
    let (ids, parents) =
        build_parent_maps(&g, &stack(), &stack(), "base", "b1", "b").unwrap();
    assert_eq!(ids.get("b").unwrap(), "a2");
    assert_eq!(parents.get("b").unwrap(), "a");
    let with_upstream: Vec<(StackBranch, String)> =
        stack().into_iter().map(|b| (b, "origin".to_string())).collect();
    let bases = compute_base_map(&g, &with_upstream, "u1", "main");
    assert_eq!(bases.len(), 3);
    assert_eq!(bases.get("c").unwrap(), "a");
    assert_eq!(bases.get("a").unwrap(), "main");
}

#[test]
fn a_merged_branch_is_no_base() {
    let g = graph();
    let list = |all: Vec<StackBranch>| -> Vec<(StackBranch, String)> {
        all.into_iter().map(|b| (b, "origin".to_string())).collect()
    };
    let merged = compute_base_map(&g, &list(stack()), "a2", "main");
    assert_eq!(merged.get("b").unwrap(), "main");
    assert_eq!(merged.get("c").unwrap(), "main");
    let low = vec![branch("b", "b1"), branch("low", "a1"), branch("a", "a2")];
    let bases = compute_base_map(&g, &list(low), "a1", "main");
    assert_eq!(bases.get("b").unwrap(), "a");
    assert_eq!(bases.get("a").unwrap(), "main");
}

#[test]
fn the_current_branch_stands_out() {
    let g = graph();
    assert_ne!(display_name("a", Some("a")), display_name("a", Some("b")));
    let lines = visualize_stack(&g, &stack(), Some("b"));
    assert_eq!(lines.len(), 3);
    assert!(lines.iter().any(|l| l.name == "b"));
}

#[test]
fn histories_lead_down_or_are_broken() {
    let g = graph();
    assert_eq!(
        collect_first_parent_chain(&g, "base", "b1").unwrap(),
        texts(&["a1", "a2", "b1"])
    );
    let err = collect_first_parent_chain(&g, "u1", "b1").unwrap_err();
    assert_eq!(err.tip, "b1");
    assert!(!err.message().is_empty());
}

#[test]
fn the_boundary_lies_above_what_is_merged() {
    let g = graph();
    let locals = vec![
        LocalRef {
            name: "a".to_string(),
            id: "a2".to_string(),
            ref_name: "refs/heads/a".to_string(),
            upstream_ref: None,
        },
        LocalRef {
            name: "b".to_string(),
            id: "b1".to_string(),
            ref_name: "refs/heads/b".to_string(),
            upstream_ref: None,
        },
    ];
    let found = find_sync_boundary(
        &g,
        &locals,
        "b1",
        "u1",
        "base",
        "main",
        &None,
        &texts(&["a1", "a2"]),
    )
    .unwrap();
    assert_eq!(found.old_base.as_deref(), Some("a2"));
    assert_eq!(found.merged_branches, texts(&["a"]));
    let none = find_sync_boundary(&g, &locals, "b1", "u1", "base", "main", &None, &vec![]).unwrap();
    assert_eq!(none.old_base.as_deref(), Some("base"));
    assert!(none.merged_branches.is_empty());
    let (one, two, three) = ("1".repeat(40), "2".repeat(40), "3".repeat(40));
    assert_eq!(
        cherry_equivalent_commits(&format!("- {one}\n+ {two}\n- {three}\n")),
        vec![one, three]
    );
}

#[test]
fn branches_are_merged_when_all_of_them_has_landed() {
    let g = graph();
    assert!(branch_is_merged(&g, "b1", "a2", "a2", &vec![]));
    assert!(!branch_is_merged(&g, "u1", "base", "a2", &texts(&["a2"])));
    assert!(branch_is_merged(&g, "u1", "base", "a2", &texts(&["a1", "a2"])));
    assert!(!branch_is_merged(&g, "u1", "nowhere", "a2", &texts(&["a1", "a2"])));
}

fn details(id: &str, tree: &str) -> CommitDetails {
    CommitDetails {
        id: id.to_string(),
        tree_id: tree.to_string(),
        summary: "the same work".to_string(),
        email: "a@b".to_string(),
        parent_id: None,
    }
}

#[test]
fn floating_branches_are_found_by_reflog_or_patch() {
    let g = graph();
    let mut cache: NameMap<Option<String>> = NameMap::new();
    cache.insert("u1".to_string(), Some("patch".to_string()));
    let target = build_floating_target_context(
        &vec![details("u1", "t9")],
        0,
        &cache,
        texts(&["a2"]),
    );
    let history = vec![details("b1", "t3"), details("a2", "t2"), details("a1", "t1")];
    match scan_floating_base(&g, "b1", &history, &target, 0).unwrap() {
        FloatingScan::Base(id) => assert_eq!(id, "a2"),
        other => panic!("{other:?}"),
    }
    let plain = build_floating_target_context(&vec![details("u1", "t9")], 0, &cache, vec![]);
    match scan_floating_base(&g, "b1", &history, &plain, 0).unwrap() {
        FloatingScan::NeedPatchIds(ids) => {
            let missing = missing_patch_ids(&ids, &cache);
            let mut computed: NameMap<String> = NameMap::new();
            computed.insert("a1".to_string(), "patch".to_string());
            remember_patch_ids(&mut cache, &missing, &computed);
            assert_eq!(match_patch_ids(&ids, "b1", &cache, &plain).as_deref(), Some("a1"));
            assert_eq!(
                find_floating_base(&g, "b1", &history, &plain, 0, &cache).unwrap().as_deref(),
                Some("a1")
            );
        }
        other => panic!("{other:?}"),
    }
    assert!(matches!(
        scan_floating_base(&g, "u1", &history, &plain, 0),
        Ok(FloatingScan::NotFloating)
    ));
    let candidates = vec![branch("b", "b1"), branch("u", "u1")];
    let lines = || {
        vec![
            vec![details("b1", "t3"), details("a2", "t2"), details("a1", "t1")],
            vec![details("u1", "t9")],
        ]
    };
    let children = find_floating_children(&g, &candidates, &lines(), &plain, 0, &cache).unwrap();
    assert_eq!(children.len(), 1);
    assert_eq!(children[0].name, "b");
    assert_eq!(children[0].id, "a1");
    let empty = build_floating_target_context(&vec![], 0, &cache, vec![]);
    assert!(find_floating_children(&g, &candidates, &lines(), &empty, 0, &cache).is_err());
    assert!(find_floating_children(&g, &vec![], &vec![], &empty, 0, &cache).unwrap().is_empty());
    assert!(scan_floating_base(&g, "b1", &history, &empty, 0).is_err());
}

#[test]
fn limits_and_reflogs() {
    let id = "4".repeat(40);
    let mut computed: NameMap<String> = NameMap::new();
    parse_patch_ids(&format!("patch {id}\nnonsense\n"), &mut computed);
    assert_eq!(computed.get(&id).unwrap(), "patch");
    assert_eq!(computed.len(), 1);
    assert!(within_history_limit(5, 0));
    assert!(within_history_limit(1, 2));
    assert!(!within_history_limit(2, 2));
    assert_eq!(reflog_name("a"), "refs/heads/a");
    assert_eq!(reflog_name("refs/x"), "refs/x");
    let zero = "0".repeat(40);
    let ids = read_branch_reflog_ids(&vec![(zero.clone(), "a1".to_string())]);
    assert!(!ids.contains(&zero));
    assert!(ids.contains(&"a1".to_string()));
}

#[test]
fn ids_are_read_and_written_out() {
    let full = "0123456789abcdef0123456789abcdef01234567";
    assert_eq!(parse_oid(full).as_deref(), Some(full));
    assert_eq!(parse_oid(&full.to_uppercase()).as_deref(), Some(full));
    assert_eq!(parse_oid("12").as_deref(), Some(format!("12{}", "0".repeat(38)).as_str()));
    assert_eq!(parse_oid("xyz"), None);
    assert_eq!(parse_oid(""), None);
    assert_eq!(parse_oid(&"1".repeat(41)), None);
    assert!(zero_oid(&"0".repeat(40)));
    assert!(!zero_oid(full));
    assert_eq!(parse_oid(&parse_oid("12").unwrap()), parse_oid("12"));
}

#[test]
fn names_are_kept_in_order() {
    let mut map: NameMap<usize> = NameMap::new();
    map.insert("b".to_string(), 2);
    map.insert("a".to_string(), 1);
    map.insert("b".to_string(), 3);
    assert_eq!(map.len(), 2);
    assert_eq!(map.name_at(0), "a");
    assert_eq!(*map.value_at(1), 3);
    map.remove("a");
    assert!(!map.contains("a"));
    assert_eq!(sorted_texts(&texts(&["b", "a", "b"])), texts(&["a", "b"]));
}

#[test]
fn a_component_holds_the_forks() {
    let mut graph = CommitGraph::new();
    for (id, parents) in [
        ("m", vec![]),
        ("a", vec!["m"]),
        ("b", vec!["a"]),
        ("c", vec!["a"]),
        ("x", vec!["m"]),
        ("n", vec!["m"]),
    ] {
        graph.insert(id.to_string(), &texts(&parents)).unwrap();
    }
    let locals = vec![
        branch("top", "b"),
        branch("fork", "c"),
        branch("low", "a"),
        branch("other", "x"),
        branch("main", "n"),
    ];
    let component =
        |anchor: &str| collect_stack_component(&graph, &locals, anchor, "m", "n", "main");
    assert_eq!(names(&component("top"))[0], "low");
    assert_eq!(component("top").len(), 3);
    for member in ["low", "fork"] {
        assert_eq!(names(&component(member)), names(&component("top")));
    }
    assert_eq!(names(&component("other")), vec!["other"]);
    assert!(component("main").is_empty());
}
