use omnimind_server::graph::{
    build_graph, extract_type, extract_wikilinks, handle_graph, is_wiki_page, resolve_link,
    wiki_root, yaml_frontmatter_block, ApiGraphEdge, ApiGraphNode, GraphFile, ONE,
};
use omnimind_server::json::Json;
use omnimind_server::order::{sort_ranked, TextSet};
use omnimind_server::projects::ProjectEntry;

fn file(path: &str, content: &str) -> GraphFile {
    GraphFile {
        path: path.as_bytes().to_vec(),
        content: Some(content.to_string()),
        title: format!("Title of {path}"),
    }
}

fn node(id: &str, label: &str, node_type: &str, link_count: usize) -> ApiGraphNode {
    ApiGraphNode {
        id: id.to_string(),
        label: label.to_string(),
        node_type: node_type.to_string(),
        path: format!("wiki/{id}.md"),
        link_count,
    }
}

fn edge(source: &str, target: &str) -> ApiGraphEdge {
    ApiGraphEdge {
        source: source.to_string(),
        target: target.to_string(),
        weight: ONE,
    }
}

fn project() -> ProjectEntry {
    ProjectEntry {
        id: "p1".to_string(),
        name: "P".to_string(),
        path: "/p".to_string(),
        current: false,
    }
}

fn ids(body: &Json, name: &str, field: &str) -> Vec<String> {
    match body.get(name).unwrap() {
        Json::Array(items) => items
            .iter()
            .map(|item| item.text_field(field).unwrap().to_string())
            .collect(),
        other => panic!("no array: {other:?}"),
    }
}

#[test]
fn extract_type_reads_only_yaml_frontmatter() {
    let with_fm = "---\ntitle: Demo\ntype: concept\n---\n# Body\ntype: ignored\n";
    assert_eq!(extract_type(with_fm), "concept");

    let quoted = "---\ntype: \"entity\"\n---\nbody type: concept\n";
    assert_eq!(extract_type(quoted), "entity");

    let no_fm = "# Title\ntype: concept\n";
    assert_eq!(extract_type(no_fm), "other");

    let fm_without_type = "---\ntitle: only\n---\ntype: concept\n";
    assert_eq!(extract_type(fm_without_type), "other");
}

#[test]
fn front_matter_is_fenced() {
    assert_eq!(
        yaml_frontmatter_block("---\na\nb\n---\nbody"),
        Some("a\nb".to_string())
    );
    assert_eq!(
        yaml_frontmatter_block("\u{feff}---\r\na\r\n---\r\nbody"),
        Some("a\r".to_string())
    );
    assert_eq!(yaml_frontmatter_block("---\na\n---"), Some("a".to_string()));
    assert_eq!(yaml_frontmatter_block("---\na\n----\nb"), None);
    assert_eq!(yaml_frontmatter_block("---\na\nb"), None);
    assert_eq!(yaml_frontmatter_block(" ---\na\n---\n"), None);
    assert_eq!(yaml_frontmatter_block("---\n---\n"), Some(String::new()));
    assert_eq!(
        yaml_frontmatter_block("---\r\n---\r\na\n---\n"),
        Some(String::new())
    );
    assert_eq!(yaml_frontmatter_block("---\n----\na"), None);
    assert_eq!(yaml_frontmatter_block("---\n\n---\n"), Some(String::new()));
}

#[test]
fn body_text_is_no_front_matter() {
    assert_eq!(extract_type("---\n---\ntype: concept\n---\n"), "other");
    let page = |body: &str| extract_type(&format!("---\ntype: entity\n---\n{body}"));
    assert_eq!(page(""), "entity");
    assert_eq!(page("type: concept\n---\n"), "entity");
}

#[test]
fn types_are_bare_and_small() {
    assert_eq!(extract_type("---\r\n  type: 'ÄPFEL'  \r\n---\r\n"), "äpfel");
    assert_eq!(extract_type("---\ntype:\ntype: Query\n---\n"), "query");
    assert_eq!(extract_type("---\ntype: ''\n---\n"), "other");
    assert_eq!(extract_type("---\nsubtype: x\n---\n"), "other");
}

#[test]
fn wikilinks_are_found_in_order() {
    assert_eq!(
        extract_wikilinks("a [[One]] b [[ Two | shown ]] [[|x]] [[]] [[Three"),
        vec!["One", "Two"]
    );
    assert_eq!(extract_wikilinks("[[a]]]] [[[b]]"), vec!["a", "[b"]);
    assert!(extract_wikilinks("no links").is_empty());
}

#[test]
fn links_mean_pages() {
    let ids = TextSet::new()
        .with("Alpha".to_string())
        .with("alpha".to_string())
        .with("two-words".to_string());
    assert_eq!(resolve_link("alpha", &ids), Some("alpha".to_string()));
    assert_eq!(resolve_link("ALPHA", &ids), Some("Alpha".to_string()));
    assert_eq!(
        resolve_link("Two Words", &ids),
        Some("two-words".to_string())
    );
    assert_eq!(resolve_link("three", &ids), None);
}

#[test]
fn graph_nodes_prioritize_high_link_count_before_limit() {
    let files = vec![
        file(
            "/r/wiki/hub.md",
            "---\ntype: concept\n---\n# Hub\n[[leaf-a]] [[leaf-b]]\n",
        ),
        file(
            "/r/wiki/leaf-a.md",
            "---\ntype: concept\n---\n# Leaf A\n[[hub]]\n",
        ),
        file(
            "/r/wiki/leaf-b.md",
            "---\ntype: concept\n---\n# Leaf B\n[[hub]]\n",
        ),
        file(
            "/r/wiki/orphan.md",
            "---\ntype: concept\n---\n# Orphan\nNo links here.\n",
        ),
    ];
    let (nodes, edges) = build_graph("/r", files);
    assert_eq!(edges.len(), 2);
    let mut nodes = sort_ranked(nodes);
    nodes.truncate(2);

    assert_eq!(nodes.len(), 2);
    assert!(nodes.iter().all(|n| n.link_count >= 1), "{nodes:?}");
    assert!(nodes.iter().any(|n| n.id == "hub"), "{nodes:?}");
    assert!(nodes.iter().all(|n| n.id != "orphan"), "{nodes:?}");
    assert!(nodes.iter().all(|n| n.node_type == "concept"), "{nodes:?}");
}

#[test]
fn graph_leaves_out_what_is_no_page() {
    let unreadable = GraphFile {
        path: b"/r/wiki/x.md".to_vec(),
        content: None,
        title: String::new(),
    };
    let files = vec![
        file("/r/wiki/a.md", "[[b]] [[B]] [[a]] [[missing]] [[q]]"),
        file("/r/wiki/sub/b.md", "[[a]]"),
        file("/r/wiki/q.md", "---\ntype: query\n---\n[[b]]"),
        file("/r/wiki/notes.txt", "[[a]]"),
        unreadable,
    ];
    let (nodes, edges) = build_graph("/r", files);
    let shown: Vec<(&str, usize, &str)> = nodes
        .iter()
        .map(|n| (n.id.as_str(), n.link_count, n.path.as_str()))
        .collect();
    assert_eq!(shown, vec![("a", 2, "wiki/a.md"), ("b", 2, "wiki/sub/b.md")]);
    let pairs: Vec<(&str, &str)> = edges
        .iter()
        .map(|e| (e.source.as_str(), e.target.as_str()))
        .collect();
    assert_eq!(pairs, vec![("a", "b"), ("a", "q"), ("q", "b")]);
    assert!(edges.iter().all(|e| f64::from_bits(e.weight) == 1.0));
    assert_eq!(nodes[0].label, "Title of /r/wiki/a.md");
    assert_eq!(nodes[0].node_type, "other");
}

#[test]
fn later_page_of_one_name_counts() {
    let files = vec![
        file("/r/wiki/one/a.md", "[[b]]"),
        file("/r/wiki/b.md", ""),
        file("/r/wiki/two/a.md", "nothing"),
    ];
    let (nodes, edges) = build_graph("/r", files);
    assert_eq!(nodes.len(), 2);
    assert_eq!(nodes[0].path, "wiki/two/a.md");
    assert!(edges.is_empty());
    assert_eq!(wiki_root("/r"), "/r/wiki");
    assert!(is_wiki_page(b"/r/wiki/a.md"));
    assert!(!is_wiki_page(b"/r/wiki/a.MD"));
    assert!(!is_wiki_page(b"/r/wiki/.md"));
}

#[test]
fn graph_answer_is_filtered_ranked_and_connected() {
    let nodes = || {
        vec![
            node("a", "Apple", "concept", 1),
            node("b", "Banana", "entity", 3),
            node("c", "Cherry", "concept", 2),
            node("d", "Date", "concept", 2),
        ]
    };
    let edges = || vec![edge("a", "b"), edge("b", "c"), edge("c", "d")];
    let answer = handle_graph(&project(), "", nodes(), edges());
    assert_eq!(answer.status, 200);
    assert_eq!(answer.body.text_field("projectId"), Some("p1"));
    assert_eq!(ids(&answer.body, "nodes", "id"), vec!["b", "c", "d", "a"]);
    assert_eq!(ids(&answer.body, "edges", "source"), vec!["a", "b", "c"]);

    let answer = handle_graph(&project(), "limit=2", nodes(), edges());
    assert_eq!(ids(&answer.body, "nodes", "id"), vec!["b", "c"]);
    assert_eq!(ids(&answer.body, "edges", "source"), vec!["b"]);
    assert_eq!(ids(&answer.body, "edges", "target"), vec!["c"]);

    let answer = handle_graph(&project(), "nodeType=CONCEPT&limit=0", nodes(), edges());
    assert_eq!(ids(&answer.body, "nodes", "id"), vec!["c"]);

    let answer = handle_graph(&project(), "q=AN", nodes(), edges());
    assert_eq!(ids(&answer.body, "nodes", "id"), vec!["b"]);
    assert!(ids(&answer.body, "edges", "source").is_empty());

    let answer = handle_graph(&project(), "limit=many", nodes(), edges());
    assert_eq!(ids(&answer.body, "nodes", "id").len(), 4);
}

#[test]
fn sorting_keeps_the_order_of_equals() {
    let sorted = sort_ranked(vec![
        node("b", "first", "x", 1),
        node("a", "one", "x", 1),
        node("b", "second", "x", 1),
        node("z", "top", "x", 5),
        node("a", "two", "x", 1),
    ]);
    let labels: Vec<&str> = sorted.iter().map(|n| n.label.as_str()).collect();
    assert_eq!(labels, vec!["top", "one", "two", "first", "second"]);
}
