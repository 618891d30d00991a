//! The graph of links.

use vaultdb::links::{extract_links, text_list, Direction, LinkGraph};
use vaultdb::record::{Record, Value};

fn note(name: &str, content: &str) -> Record {
    Record {
        path: format!("/vault/{}.md", name),
        fields: vec![],
        raw_content: Some(content.into()),
        modified: None,
        created: None,
    }
}

fn graph() -> LinkGraph {
    LinkGraph::build(&vec![
        note("a", "[[b]] and [[c|see c]]"),
        note("b", "[[c#part]] [[missing]]"),
        note("c", "nothing"),
        note("d", "[[a]]"),
    ])
}

#[test]
fn links_are_extracted() {
    assert_eq!(extract_links("x [[b]] y [[c|d]] [[e#f]]"), vec!["b", "c", "e"]);
    assert!(extract_links("[[open").is_empty());
    assert!(extract_links("no [link]").is_empty());
}

#[test]
fn a_backlink_is_a_link_seen_from_its_target() {
    let g = graph();
    assert_eq!(g.outgoing_links("a"), vec!["b", "c"]);
    assert_eq!(g.incoming_links("c"), vec!["a", "b"]);
    assert!(g.has_link_to("a", "b"));
    assert!(g.has_link_from("b", "a"));
    assert!(!g.has_link_to("b", "a"));
    assert!(g.record_by_name("d").is_some());
    assert!(g.record_by_name("missing").is_none());
}

#[test]
fn link_fields_are_computed() {
    let g = graph();
    assert_eq!(
        g.virtual_field("a", "_links"),
        text_list(&vec!["b".into(), "c".into()])
    );
    assert_eq!(g.virtual_field("a", "_link_count"), Value::Integer(2));
    assert_eq!(g.virtual_field("c", "_backlink_count"), Value::Integer(2));
}

#[test]
fn unresolved_links_have_no_note() {
    let u = graph().unresolved();
    assert_eq!(u.len(), 1);
    assert_eq!(u[0].target, "missing");
    assert_eq!(u[0].sources, vec!["b"]);
}

#[test]
fn traversal_goes_by_the_shortest_way() {
    let g = graph();
    let out = g.traverse("d", 3, Direction::Outgoing);
    assert_eq!(
        out,
        vec![
            ("a".to_string(), 1),
            ("b".to_string(), 2),
            ("c".to_string(), 2),
            ("missing".to_string(), 3),
        ]
    );
    assert_eq!(g.traverse("d", 1, Direction::Outgoing), vec![("a".to_string(), 1)]);
    assert_eq!(g.traverse("a", 1, Direction::Incoming), vec![("d".to_string(), 1)]);
    let both = g.traverse("a", 1, Direction::Both);
    assert_eq!(both.len(), 3);
    assert!(both.contains(&("d".to_string(), 1)));
}
