use zst_compress::listing::{compare_names, entry_size, generate_listing, render_line, Node};
use zst_compress::timestamp::Timestamp;

fn when() -> Timestamp {
    Timestamp { year: 2024, month: 1, day: 2, hour: 3, minute: 4, second: 5 }
}

fn file(name: &str, len: u64) -> Node {
    Node::file(name.to_string(), len, when())
}

fn dir(name: &str, children: Vec<Node>) -> Node {
    let mut d = Node::dir(name.to_string(), when());
    for c in children {
        d.add_child(c);
    }
    d
}

fn names(n: &Node) -> Vec<String> {
    n.children.iter().map(|c| c.name.clone()).collect()
}

#[test]
fn add_child_orders_by_name_and_replaces() {
    let mut d = dir("d", vec![file("b", 1), file("c", 2), file("a", 3)]);
    assert_eq!(names(&d), vec!["a", "b", "c"]);
    d.add_child(file("b", 9));
    assert_eq!(names(&d), vec!["a", "b", "c"]);
    assert_eq!(d.children[1].len, 9);
    d.add_child(file("B", 1));
    d.add_child(file("ab", 1));
    assert_eq!(names(&d), vec!["B", "a", "ab", "b", "c"]);
}

#[test]
fn compare_names_order() {
    assert_eq!(compare_names("a", "b"), -1);
    assert_eq!(compare_names("b", "a"), 1);
    assert_eq!(compare_names("ab", "ab"), 0);
    assert_eq!(compare_names("a", "ab"), -1);
    assert_eq!(compare_names("", "a"), -1);
    assert_eq!(compare_names("Z", "a"), -1);
}

#[test]
fn render_line_layout() {
    let line = render_line(0, &file("data.bin", 1_000_000));
    assert_eq!(line, "2024-01-02 03:04:05    976.6KB \u{2500} data.bin");
    let line = render_line(2, &dir("sub", vec![file("x", 2048)]));
    assert_eq!(
        line,
        "2024-01-02 03:04:05      2.0KB \u{2502}  \u{2514}\u{2500}\u{2500}\u{252c} sub"
    );
}

#[test]
fn listing_of_nested_directory() {
    let root = dir(
        "root",
        vec![
            file("text.txt", 44),
            dir("sub", vec![file("inner.bin", 2048), file(".hidden", 1024)]),
            file("data.bin", 1_000_000),
        ],
    );
    let expected = [
        "2024-01-02 03:04:05    976.6KB \u{2500} data.bin\n",
        "2024-01-02 03:04:05      3.0KB \u{252c} sub\n",
        "2024-01-02 03:04:05      2.0KB \u{2514}\u{2500}\u{2500}\u{2500} inner.bin\n",
        "2024-01-02 03:04:05      44.0B \u{2500} text.txt\n",
    ]
    .join("");
    assert_eq!(generate_listing(&root, 4), expected);
}

#[test]
fn listing_stops_at_depth_limit() {
    let root = dir("root", vec![dir("a", vec![dir("b", vec![file("c", 1)])])]);
    let depth0 = generate_listing(&root, 0);
    assert_eq!(depth0.lines().count(), 1);
    assert!(depth0.contains(" a\n"));
    let depth1 = generate_listing(&root, 1);
    assert_eq!(depth1.lines().count(), 2);
    assert!(!depth1.contains(" c\n"));
    let depth2 = generate_listing(&root, 2);
    assert_eq!(depth2.lines().count(), 3);
    assert!(depth2.contains("\u{2502}  \u{2514}\u{2500}\u{2500}\u{2500} c\n"));
    let deep = generate_listing(&root, 255);
    assert_eq!(deep, depth2);
}

#[test]
fn hidden_entries_not_rendered_but_counted() {
    let root = dir(
        "root",
        vec![dir(".git", vec![file("objects", 4096)]), dir("d", vec![file(".x", 1536)])],
    );
    let text = generate_listing(&root, 4);
    assert!(!text.contains(".git"));
    assert!(!text.contains("objects"));
    assert!(!text.contains(".x"));
    assert_eq!(text, "2024-01-02 03:04:05      1.5KB \u{252c} d\n");
    assert_eq!(entry_size(&root), 4096 + 1536);
}

#[test]
fn listing_independent_of_discovery_order() {
    let a = dir("r", vec![file("x", 1), file("y", 2), dir("z", vec![file("q", 3)])]);
    let b = dir("r", vec![dir("z", vec![file("q", 3)]), file("y", 2), file("x", 1)]);
    assert_eq!(generate_listing(&a, 4), generate_listing(&b, 4));
    assert_eq!(generate_listing(&a, 4), generate_listing(&a, 4));
}

#[test]
fn empty_directory_lists_nothing() {
    assert_eq!(generate_listing(&dir("e", vec![]), 4), "");
}
