use vista_sdk::dto::{GmodDto, GmodNodeDto};
use vista_sdk::error::VisError;
use vista_sdk::gmod::Gmod;
use vista_sdk::node::GmodNode;
use vista_sdk::version::VisVersion;
use vista_sdk::walk::TraversalHandlerResult;

fn node(code: &str, category: &str, node_type: &str) -> GmodNodeDto {
    GmodNodeDto {
        category: category.to_string(),
        node_type: node_type.to_string(),
        code: code.to_string(),
        name: Some(format!("name of {}", code)),
        common_name: None,
        definition: None,
        common_definition: None,
        install_substructure: None,
        normal_assignment_names: None,
    }
}

fn plain(code: &str) -> GmodNodeDto {
    node(code, "ASSET FUNCTION", "LEAF")
}

fn edge(parent: &str, child: &str) -> [String; 2] {
    [parent.to_string(), child.to_string()]
}

fn definition(items: Vec<GmodNodeDto>, relations: Vec<[String; 2]>) -> GmodDto {
    GmodDto { vis_release: "3-4a".to_string(), items, relations }
}

fn build(items: Vec<GmodNodeDto>, relations: Vec<[String; 2]>) -> Gmod {
    let dto = definition(items, relations);
    assert!(dto.is_consistent());
    Gmod::new(&dto).unwrap()
}

// VE -> 300a -> 100a -> 200a
//    |       `-> 500
//    `-> 400a -> 410 -> 411s
//             `-> 500
fn sample() -> Gmod {
    build(
        vec![
            node("VE", "ASSET", "TYPE"),
            node("300a", "ASSET FUNCTION", "GROUP"),
            node("400a", "ASSET FUNCTION", "GROUP"),
            node("100a", "ASSET FUNCTION", "LEAF"),
            node("200a", "PRODUCT", "TYPE"),
            node("410", "PRODUCT FUNCTION", "COMPOSITION"),
            node("411s", "PRODUCT", "SELECTION"),
            node("500", "ASSET FUNCTION", "LEAF"),
        ],
        vec![
            edge("VE", "300a"),
            edge("VE", "400a"),
            edge("300a", "100a"),
            edge("100a", "200a"),
            edge("400a", "410"),
            edge("410", "411s"),
            edge("300a", "500"),
            edge("400a", "500"),
        ],
    )
}

fn codes(nodes: &Vec<&GmodNode>) -> Vec<String> {
    nodes.iter().map(|found| found.code().to_string()).collect()
}

type Log = Vec<(Vec<String>, String)>;

fn record(mut log: Log, ancestors: &Vec<&GmodNode>, visited: &GmodNode) -> Log {
    log.push((codes(ancestors), visited.code().to_string()));
    log
}

fn visited(log: &Log) -> Vec<&str> {
    log.iter().map(|entry| entry.1.as_str()).collect()
}

#[test]
fn ve_is_root() {
    let gmod = sample();
    assert_eq!("VE", gmod.root_node().code());
}

#[test]
fn ve_has_300a() {
    let gmod = sample();
    let root_node = gmod.root_node();

    assert!(gmod.get_children(root_node).iter().any(|n| n.code() == "300a"))
}

#[test]
fn ve_has_no_parents() {
    let gmod = sample();
    let root_node = gmod.root_node();

    let parent_count = gmod.get_parents(root_node).iter().count();
    assert_eq!(parent_count, 0);
}

#[test]
fn traverse() {
    let gmod = sample();

    let traverse_count = {
        let (count, reached_end) = gmod.traverse_with_state(
            0,
            |count: i32, _parents: &Vec<&GmodNode>, _node: &GmodNode| {
                (count + 1, TraversalHandlerResult::Continue)
            },
        );
        assert!(reached_end);
        assert!(count > 0, "Count should increase after traversal");
        println!("Gmod traversal count: {}", count);
        count
    };

    let traverse_from_count = {
        let root = gmod.root_node();

        let (count, reached_end) = gmod.traverse_from_with_state(
            root,
            0,
            |count: i32, _parents: &Vec<&GmodNode>, _node: &GmodNode| {
                (count + 1, TraversalHandlerResult::Continue)
            },
        );

        assert!(reached_end);
        assert!(count > 0, "Count should increase after traversal");
        println!("Gmod traversal count: {}", count);
        count
    };

    assert_eq!(traverse_count, traverse_from_count);
}

#[test]
fn root_and_its_neighbours() {
    let gmod = build(vec![plain("VE"), plain("300a")], vec![edge("VE", "300a")]);
    let root = gmod.root_node();
    assert_eq!(root.code(), "VE");
    assert_eq!(codes(&gmod.get_children(root)), vec!["300a"]);
    assert!(gmod.get_parents(root).is_empty());
    let child = gmod.get_node("300a");
    assert_eq!(codes(&gmod.get_parents(child)), vec!["VE"]);
    assert!(gmod.get_children(child).is_empty());
}

#[test]
fn product_type_of_a_function() {
    let gmod = build(
        vec![plain("VE"), node("100a", "FUNCTION", "LEAF"), node("200a", "PRODUCT", "TYPE")],
        vec![edge("VE", "100a"), edge("100a", "200a")],
    );
    let function = gmod.get_node("100a");
    assert_eq!(gmod.get_product_type_for(function).map(|found| found.code()), Some("200a"));
    assert_eq!(function.product_type(&gmod).map(|found| found.code()), Some("200a"));
    assert!(gmod.get_product_selection_for(function).is_none());
    assert!(function.product_selection(&gmod).is_none());
}

#[test]
fn product_selection_of_a_function() {
    let gmod = build(
        vec![plain("VE"), node("100a", "FUNCTION", "LEAF"), node("200a", "PRODUCT", "SELECTION")],
        vec![edge("VE", "100a"), edge("100a", "200a")],
    );
    let function = gmod.get_node("100a");
    assert_eq!(gmod.get_product_selection_for(function).map(|found| found.code()), Some("200a"));
    assert_eq!(function.product_selection(&gmod).map(|found| found.code()), Some("200a"));
    assert!(gmod.get_product_type_for(function).is_none());
    assert!(function.product_type(&gmod).is_none());
}

#[test]
fn inference_needs_exactly_one_child() {
    let gmod = build(
        vec![
            plain("VE"),
            node("100a", "FUNCTION", "LEAF"),
            node("200a", "PRODUCT", "TYPE"),
            node("201a", "PRODUCT", "TYPE"),
            node("110a", "FUNCTION", "LEAF"),
        ],
        vec![edge("VE", "100a"), edge("100a", "200a"), edge("100a", "201a"), edge("VE", "110a")],
    );
    assert!(gmod.get_product_type_for(gmod.get_node("100a")).is_none());
    assert!(gmod.get_product_type_for(gmod.get_node("110a")).is_none());
    assert!(gmod.get_product_selection_for(gmod.get_node("110a")).is_none());
}

#[test]
fn inference_reads_the_categories() {
    let gmod = build(
        vec![
            plain("VE"),
            node("a", "ASSET", "LEAF"),
            node("a1", "PRODUCT", "TYPE"),
            node("b", "PRODUCT FUNCTION", "LEAF"),
            node("b1", "ASSET PRODUCT", "TYPE"),
            node("c", "ASSET FUNCTION", "LEAF"),
            node("c1", "ASSET PRODUCT", "SELECTION"),
            node("d", "FUNCTION", "LEAF"),
            node("d1", "ASSET", "SELECTION"),
        ],
        vec![
            edge("VE", "a"),
            edge("a", "a1"),
            edge("VE", "b"),
            edge("b", "b1"),
            edge("VE", "c"),
            edge("c", "c1"),
            edge("VE", "d"),
            edge("d", "d1"),
        ],
    );
    // The parent is no function.
    assert!(gmod.get_product_type_for(gmod.get_node("a")).is_none());
    // A product type has the category PRODUCT and nothing else.
    assert!(gmod.get_product_type_for(gmod.get_node("b")).is_none());
    // A selection may be of a composite category.
    let selection = gmod.get_product_selection_for(gmod.get_node("c"));
    assert_eq!(selection.map(|found| found.code()), Some("c1"));
    assert!(gmod.get_product_type_for(gmod.get_node("c")).is_none());
    // The category of a selection has to mention PRODUCT.
    assert!(gmod.get_product_selection_for(gmod.get_node("d")).is_none());
}

#[test]
fn inference_goes_by_the_category_of_the_node_given() {
    let gmod = build(
        vec![plain("VE"), node("100a", "FUNCTION", "LEAF"), node("200a", "PRODUCT", "TYPE")],
        vec![edge("VE", "100a"), edge("100a", "200a")],
    );
    let moved = gmod.get_node("100a").with_location("1".to_string());
    assert_eq!(gmod.get_product_type_for(&moved).map(|found| found.code()), Some("200a"));
}

#[test]
fn lookup_by_code() {
    let gmod = sample();
    assert_eq!(gmod.len(), 8);
    assert_eq!(gmod.version(), VisVersion::v3_4a);
    assert_eq!(gmod.get_node("411s").code(), "411s");
    assert_eq!(gmod.try_get_node("500").map(|found| found.code()), Some("500"));
    assert!(gmod.try_get_node("5000").is_none());
    assert!(gmod.try_get_node("").is_none());
    assert!(gmod.try_get_node("ve").is_none());
    assert_eq!(gmod.find("VE"), Some(0));
    assert_eq!(gmod.find("500"), Some(7));
    assert_eq!(gmod.find("nothing"), None);
    assert_eq!(gmod.get_index(gmod.get_node("400a")), 2);
    assert_eq!(gmod.node_at(4).code(), "200a");
}

#[test]
fn nodes_carry_their_records() {
    let mut described = node("VE", "ASSET", "TYPE");
    described.common_name = Some("Ship".to_string());
    described.definition = Some("All of it".to_string());
    described.common_definition = Some("Everything".to_string());
    described.install_substructure = Some(false);
    described.normal_assignment_names =
        Some(vec![("a".to_string(), "A".to_string()), ("b".to_string(), "B".to_string())]);
    let gmod = build(vec![described, plain("x")], vec![]);
    let root = gmod.root_node();
    assert_eq!(root.location(), "");
    let metadata = root.metadata();
    assert_eq!(metadata.category(), "ASSET");
    assert_eq!(metadata.node_type(), "TYPE");
    assert_eq!(metadata.name().as_deref(), Some("name of VE"));
    assert_eq!(metadata.common_name().as_deref(), Some("Ship"));
    assert_eq!(metadata.definition().as_deref(), Some("All of it"));
    assert_eq!(metadata.common_definition().as_deref(), Some("Everything"));
    assert_eq!(metadata.install_substructure(), Some(false));
    assert_eq!(
        metadata.normal_assignment_names(),
        &vec![("a".to_string(), "A".to_string()), ("b".to_string(), "B".to_string())]
    );
    let other = gmod.get_node("x").metadata();
    assert!(other.normal_assignment_names().is_empty());
    assert_eq!(other.install_substructure(), None);
    assert_eq!(other.common_name(), &None);
}

#[test]
fn location_is_set_on_a_copy() {
    let gmod = sample();
    let held = gmod.get_node("100a");
    let placed = held.with_location("2".to_string());
    assert_eq!(placed.location(), "2");
    assert_eq!(placed.code(), "100a");
    assert_eq!(placed.metadata().category(), "ASSET FUNCTION");
    assert_eq!(held.location(), "");
    assert_eq!(gmod.get_node("100a").location(), "");
    let cleared = placed.without_location();
    assert_eq!(cleared.location(), "");
    assert_eq!(cleared.code(), "100a");
    assert_eq!(placed.location(), "2");
    let copy = placed.clone();
    assert_eq!(copy.location(), "2");
    // A node is found by its code, whatever its location.
    assert_eq!(codes(&gmod.get_children(&placed)), vec!["200a"]);
    assert_eq!(gmod.get_index(&placed), 3);
}

#[test]
fn adjacency_keeps_the_order_of_the_edges() {
    let gmod = build(
        vec![plain("VE"), plain("b"), plain("a"), plain("c")],
        vec![edge("VE", "c"), edge("VE", "a"), edge("VE", "b"), edge("a", "b"), edge("c", "b")],
    );
    assert_eq!(codes(&gmod.get_children(gmod.root_node())), vec!["c", "a", "b"]);
    assert_eq!(codes(&gmod.get_parents(gmod.get_node("b"))), vec!["VE", "a", "c"]);
    assert_eq!(gmod.child_positions(0), &vec![3, 2, 1]);
    assert_eq!(gmod.parent_positions(1), &vec![0, 2, 3]);
    let found = gmod.nodes_at(&vec![2, 2, 0]);
    assert_eq!(codes(&found), vec!["a", "a", "VE"]);
}

#[test]
fn adjacency_is_symmetric() {
    let gmod = sample();
    let all = ["VE", "300a", "400a", "100a", "200a", "410", "411s", "500"];
    for parent in all {
        for child in all {
            let down = gmod
                .get_children(gmod.get_node(parent))
                .iter()
                .any(|found| found.code() == child);
            let up =
                gmod.get_parents(gmod.get_node(child)).iter().any(|found| found.code() == parent);
            assert_eq!(down, up, "{} -> {}", parent, child);
        }
    }
    assert_eq!(codes(&gmod.get_parents(gmod.get_node("500"))), vec!["300a", "400a"]);
}

#[test]
fn a_repeated_edge_is_kept_in_both_directions() {
    let gmod = build(vec![plain("VE"), plain("a")], vec![edge("VE", "a"), edge("VE", "a")]);
    assert_eq!(codes(&gmod.get_children(gmod.root_node())), vec!["a", "a"]);
    assert_eq!(codes(&gmod.get_parents(gmod.get_node("a"))), vec!["VE", "VE"]);
}

#[test]
fn unknown_version_tag_is_refused() {
    let mut dto = definition(vec![plain("VE")], vec![]);
    dto.vis_release = "3-4".to_string();
    match Gmod::new(&dto) {
        Err(VisError::VersionNotRecognized(tag)) => assert_eq!(tag, "3-4"),
        _ => panic!("an unknown version is due"),
    }
}

#[test]
fn consistency_of_definitions() {
    assert!(definition(vec![plain("VE")], vec![]).is_consistent());
    assert!(definition(vec![plain("a"), plain("VE")], vec![edge("a", "VE"), edge("VE", "VE")])
        .is_consistent());
    // No root.
    assert!(!definition(vec![], vec![]).is_consistent());
    assert!(!definition(vec![plain("a")], vec![]).is_consistent());
    // A code that is listed twice.
    assert!(!definition(vec![plain("VE"), plain("a"), plain("a")], vec![]).is_consistent());
    // An edge to or from a code that is not listed.
    assert!(!definition(vec![plain("VE")], vec![edge("VE", "a")]).is_consistent());
    assert!(!definition(vec![plain("VE")], vec![edge("a", "VE")]).is_consistent());
}

#[test]
fn full_traversal_visits_in_depth_first_order() {
    let gmod = sample();
    let (log, completed) = gmod.traverse_with_state(
        Log::new(),
        |log: Log, ancestors: &Vec<&GmodNode>, visited: &GmodNode| {
            (record(log, ancestors, visited), TraversalHandlerResult::Continue)
        },
    );
    assert!(completed);
    assert_eq!(
        visited(&log),
        vec!["VE", "300a", "100a", "200a", "500", "400a", "410", "411s", "500"]
    );
    let paths: Vec<Vec<String>> = log.iter().map(|entry| entry.0.clone()).collect();
    assert_eq!(paths[0], Vec::<String>::new());
    assert_eq!(paths[1], vec!["VE"]);
    assert_eq!(paths[3], vec!["VE", "300a", "100a"]);
    assert_eq!(paths[4], vec!["VE", "300a"]);
    assert_eq!(paths[7], vec!["VE", "400a", "410"]);
    assert_eq!(paths[8], vec!["VE", "400a"]);
}

#[test]
fn full_traversal_reaches_every_node() {
    let gmod = sample();
    let (log, completed) = gmod.traverse_with_state(
        Log::new(),
        |log: Log, ancestors: &Vec<&GmodNode>, visited: &GmodNode| {
            (record(log, ancestors, visited), TraversalHandlerResult::Continue)
        },
    );
    assert!(completed);
    for code in ["VE", "300a", "400a", "100a", "200a", "410", "411s", "500"] {
        assert!(visited(&log).contains(&code), "{}", code);
    }
}

#[test]
fn a_node_with_two_parents_is_visited_once_per_path() {
    let gmod = sample();
    let (log, _) = gmod.traverse_with_state(
        Log::new(),
        |log: Log, ancestors: &Vec<&GmodNode>, visited: &GmodNode| {
            (record(log, ancestors, visited), TraversalHandlerResult::Continue)
        },
    );
    let shared: Vec<&Vec<String>> =
        log.iter().filter(|entry| entry.1 == "500").map(|entry| &entry.0).collect();
    assert_eq!(shared.len(), 2);
    assert_eq!(shared[0], &vec!["VE", "300a"]);
    assert_eq!(shared[1], &vec!["VE", "400a"]);
}

#[test]
fn skip_subtree_keeps_out_of_the_children() {
    let gmod = sample();
    let (log, completed) = gmod.traverse_with_state(
        Log::new(),
        |log: Log, ancestors: &Vec<&GmodNode>, visited: &GmodNode| {
            let answer = if visited.code() == "300a" {
                TraversalHandlerResult::SkipSubtree
            } else {
                TraversalHandlerResult::Continue
            };
            (record(log, ancestors, visited), answer)
        },
    );
    assert!(completed);
    assert_eq!(visited(&log), vec!["VE", "300a", "400a", "410", "411s", "500"]);
    // 100a and 200a lie behind 300a alone; 500 is reached through 400a too.
    assert!(!visited(&log).contains(&"100a"));
    assert!(!visited(&log).contains(&"200a"));
    assert!(log.iter().all(|entry| !entry.0.contains(&"300a".to_string())));
}

#[test]
fn skip_subtree_at_the_start_completes() {
    let gmod = sample();
    let (count, completed) = gmod.traverse_with_state(
        0,
        |count: u32, _ancestors: &Vec<&GmodNode>, _visited: &GmodNode| {
            (count + 1, TraversalHandlerResult::SkipSubtree)
        },
    );
    assert!(completed);
    assert_eq!(count, 1);
}

#[test]
fn stop_ends_the_traversal() {
    let gmod = sample();
    let (log, completed) = gmod.traverse_with_state(
        Log::new(),
        |log: Log, ancestors: &Vec<&GmodNode>, visited: &GmodNode| {
            let answer = if visited.code() == "200a" {
                TraversalHandlerResult::Stop
            } else {
                TraversalHandlerResult::Continue
            };
            (record(log, ancestors, visited), answer)
        },
    );
    assert!(!completed);
    assert_eq!(visited(&log), vec!["VE", "300a", "100a", "200a"]);
}

#[test]
fn stop_at_the_kth_visit() {
    let gmod = sample();
    for k in 1..=9u32 {
        let (count, completed) = gmod.traverse_with_state(
            0u32,
            move |count: u32, _ancestors: &Vec<&GmodNode>, _visited: &GmodNode| {
                if count + 1 == k {
                    (count + 1, TraversalHandlerResult::Stop)
                } else {
                    (count + 1, TraversalHandlerResult::Continue)
                }
            },
        );
        assert!(!completed);
        assert_eq!(count, k);
    }
}

#[test]
fn a_back_edge_does_not_loop() {
    let gmod = build(
        vec![plain("VE"), plain("a"), plain("b")],
        vec![edge("VE", "a"), edge("a", "b"), edge("b", "a"), edge("b", "VE")],
    );
    let (log, completed) = gmod.traverse_with_state(
        Log::new(),
        |log: Log, ancestors: &Vec<&GmodNode>, visited: &GmodNode| {
            (record(log, ancestors, visited), TraversalHandlerResult::Continue)
        },
    );
    assert!(completed);
    assert_eq!(visited(&log), vec!["VE", "a", "b"]);
    assert_eq!(log[2].0, vec!["VE", "a"]);
}

#[test]
fn a_self_loop_does_not_loop() {
    let gmod = build(vec![plain("VE")], vec![edge("VE", "VE")]);
    let (count, completed) = gmod.traverse_with_state(
        0,
        |count: u32, _ancestors: &Vec<&GmodNode>, _visited: &GmodNode| {
            (count + 1, TraversalHandlerResult::Continue)
        },
    );
    assert!(completed);
    assert_eq!(count, 1);
}

#[test]
fn no_visit_holds_a_node_twice_on_its_path() {
    let gmod = build(
        vec![plain("VE"), plain("a"), plain("b"), plain("c")],
        vec![
            edge("VE", "a"),
            edge("VE", "b"),
            edge("a", "b"),
            edge("b", "a"),
            edge("a", "c"),
            edge("b", "c"),
            edge("c", "VE"),
        ],
    );
    let (log, completed) = gmod.traverse_with_state(
        Log::new(),
        |log: Log, ancestors: &Vec<&GmodNode>, visited: &GmodNode| {
            (record(log, ancestors, visited), TraversalHandlerResult::Continue)
        },
    );
    assert!(completed);
    assert_eq!(visited(&log), vec!["VE", "a", "b", "c", "c", "b", "a", "c", "c"]);
    for (path, last) in &log {
        let mut trail = path.clone();
        trail.push(last.clone());
        assert!(trail.len() <= gmod.len());
        assert_eq!(trail[0], "VE");
        for (i, code) in trail.iter().enumerate() {
            assert!(!trail[..i].contains(code));
        }
    }
}

#[test]
fn traversal_from_a_node_starts_a_fresh_path() {
    let gmod = sample();
    let start = gmod.get_node("400a");
    let (log, completed) = gmod.traverse_from_with_state(
        start,
        Log::new(),
        |log: Log, ancestors: &Vec<&GmodNode>, visited: &GmodNode| {
            (record(log, ancestors, visited), TraversalHandlerResult::Continue)
        },
    );
    assert!(completed);
    assert_eq!(visited(&log), vec!["400a", "410", "411s", "500"]);
    assert_eq!(log[0].0, Vec::<String>::new());
    assert_eq!(log[2].0, vec!["400a", "410"]);
}

#[test]
fn traversal_from_a_leaf_visits_it_alone() {
    let gmod = sample();
    let (count, completed) = gmod.traverse_from_with_state(
        gmod.get_node("200a"),
        0,
        |count: u32, _ancestors: &Vec<&GmodNode>, _visited: &GmodNode| {
            (count + 1, TraversalHandlerResult::Continue)
        },
    );
    assert!(completed);
    assert_eq!(count, 1);
}

#[test]
fn plain_handler_tells_whether_it_was_stopped() {
    let gmod = sample();
    assert!(gmod.traverse(|_ancestors: &Vec<&GmodNode>, _visited: &GmodNode| {
        TraversalHandlerResult::Continue
    }));
    assert!(gmod.traverse(|_ancestors: &Vec<&GmodNode>, visited: &GmodNode| {
        if visited.code() == "VE" {
            TraversalHandlerResult::SkipSubtree
        } else {
            TraversalHandlerResult::Stop
        }
    }));
    assert!(!gmod.traverse(|ancestors: &Vec<&GmodNode>, _visited: &GmodNode| {
        if ancestors.len() == 3 {
            TraversalHandlerResult::Stop
        } else {
            TraversalHandlerResult::Continue
        }
    }));
    let start = gmod.get_node("400a");
    assert!(gmod.traverse_from(start, |_ancestors: &Vec<&GmodNode>, _visited: &GmodNode| {
        TraversalHandlerResult::Continue
    }));
    assert!(!gmod.traverse_from(start, |_ancestors: &Vec<&GmodNode>, visited: &GmodNode| {
        if visited.code() == "500" {
            TraversalHandlerResult::Stop
        } else {
            TraversalHandlerResult::Continue
        }
    }));
}

#[test]
fn plain_handler_sees_what_the_threading_one_sees() {
    let gmod = sample();
    let seen = std::cell::RefCell::new(Log::new());
    let completed = gmod.traverse(|ancestors: &Vec<&GmodNode>, visited: &GmodNode| {
        seen.borrow_mut().push((codes(ancestors), visited.code().to_string()));
        TraversalHandlerResult::Continue
    });
    assert!(completed);
    let (log, _) = gmod.traverse_with_state(
        Log::new(),
        |log: Log, ancestors: &Vec<&GmodNode>, visited: &GmodNode| {
            (record(log, ancestors, visited), TraversalHandlerResult::Continue)
        },
    );
    assert_eq!(*seen.borrow(), log);
}
