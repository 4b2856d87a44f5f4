use graph_cardinality::error::{Family, ImportError};
use graph_cardinality::import::Context;
use graph_cardinality::registry::IdentityRegistry;
use graph_cardinality::stats::{EdgeCount, Statistics, VertexCount};

fn vertex(label: &str, count: u64) -> VertexCount {
    VertexCount { label: label.to_string(), count }
}

fn edge(src: &str, edge: &str, dst: &str, count: u64) -> EdgeCount {
    EdgeCount { src: src.to_string(), edge: edge.to_string(), dst: dst.to_string(), count }
}

#[test]
fn new_statistics_are_empty() {
    let stats = Statistics::new();
    assert_eq!(stats.vertices(), vec![]);
    assert_eq!(stats.edges(), vec![]);
    assert_eq!(stats.vertex_count(""), 0);
    assert_eq!(stats.vertex_count("Person"), 0);
    assert_eq!(stats.edge_count("", "", ""), 0);
    assert!(stats.has_room_for_vertex("Person"));
    assert!(stats.has_room_for_edge("Person", "KNOWS", "Person"));
    let other = Statistics::default();
    assert_eq!(other.vertices(), vec![]);
    assert_eq!(other.edges(), vec![]);
}

#[test]
fn count_vertex_lists_each_label_once() {
    let mut stats = Statistics::new();
    for label in ["Person", "Post", "Person", "Forum", "Person", "Post"] {
        assert_eq!(stats.count_vertex(label), Ok(()));
    }
    let mut lines = stats.vertices();
    lines.sort_by(|a, b| a.label.cmp(&b.label));
    assert_eq!(lines, vec![vertex("", 6), vertex("Forum", 1), vertex("Person", 3), vertex("Post", 2)]);
}

#[test]
fn count_edge_lists_each_triple_once() {
    let mut stats = Statistics::new();
    assert_eq!(stats.count_edge("A", "R", "B"), Ok(()));
    assert_eq!(stats.count_edge("A", "R", "C"), Ok(()));
    let mut lines = stats.edges();
    lines.sort_by(|a, b| (&a.src, &a.edge, &a.dst).cmp(&(&b.src, &b.edge, &b.dst)));
    assert_eq!(
        lines,
        vec![
            edge("", "", "", 2),
            edge("", "", "B", 1),
            edge("", "", "C", 1),
            edge("", "R", "", 2),
            edge("", "R", "B", 1),
            edge("", "R", "C", 1),
            edge("A", "", "", 2),
            edge("A", "", "B", 1),
            edge("A", "", "C", 1),
            edge("A", "R", "", 2),
            edge("A", "R", "B", 1),
            edge("A", "R", "C", 1),
        ]
    );
}

#[test]
fn the_wildcard_entry_is_the_sum_of_the_labels() {
    let mut stats = Statistics::new();
    let labels = ["Person", "City", "Person", "Tag", "Country", "City", "Person", "Forum"];
    for (seen, label) in labels.iter().enumerate() {
        assert_eq!(stats.count_vertex(label), Ok(()));
        let sum: u64 =
            stats.vertices().iter().filter(|line| !line.label.is_empty()).map(|line| line.count).sum();
        assert_eq!(stats.vertex_count(""), sum);
        assert_eq!(sum, seen as u64 + 1);
    }
}

#[test]
fn every_edge_entry_is_the_sum_of_the_triples_it_stands_for() {
    let mut stats = Statistics::new();
    let seen = [
        ("Person", "KNOWS", "Person"),
        ("Person", "LIKES", "Post"),
        ("Person", "LIKES", "Comment"),
        ("Comment", "REPLY_OF", "Post"),
        ("Person", "KNOWS", "Person"),
        ("Comment", "HAS_CREATOR", "Person"),
        ("Person", "LIKES", "Post"),
    ];
    for (src, edge, dst) in seen {
        assert_eq!(stats.count_edge(src, edge, dst), Ok(()));
    }
    let lines = stats.edges();
    for key in &lines {
        let sum: u64 = lines
            .iter()
            .filter(|line| !line.src.is_empty() && !line.edge.is_empty() && !line.dst.is_empty())
            .filter(|line| key.src.is_empty() || key.src == line.src)
            .filter(|line| key.edge.is_empty() || key.edge == line.edge)
            .filter(|line| key.dst.is_empty() || key.dst == line.dst)
            .map(|line| line.count)
            .sum();
        assert_eq!(key.count, sum);
    }
    assert_eq!(stats.edge_count("", "", ""), 7);
    assert_eq!(stats.edge_count("Person", "", ""), 5);
    assert_eq!(stats.edge_count("", "LIKES", ""), 3);
    assert_eq!(stats.edge_count("", "", "Post"), 3);
    assert_eq!(stats.edge_count("Person", "LIKES", ""), 3);
    assert_eq!(stats.edge_count("Person", "", "Post"), 2);
}

#[test]
fn every_roll_up_of_a_counted_triple_is_in_the_table() {
    let mut stats = Statistics::new();
    assert_eq!(stats.count_edge("Person", "STUDY_AT", "University"), Ok(()));
    assert_eq!(stats.count_edge("Forum", "HAS_TAG", "Tag"), Ok(()));
    let lines = stats.edges();
    let held = |src: &str, edge: &str, dst: &str| {
        lines.iter().any(|line| line.src == src && line.edge == edge && line.dst == dst)
    };
    for line in &lines {
        for src in [line.src.as_str(), ""] {
            for edge in [line.edge.as_str(), ""] {
                for dst in [line.dst.as_str(), ""] {
                    assert!(held(src, edge, dst));
                }
            }
        }
    }
    assert_eq!(lines.len(), 15);
}

#[test]
fn from_lines_takes_back_what_was_handed_out() {
    let mut stats = Statistics::new();
    assert_eq!(stats.count_vertex("Person"), Ok(()));
    assert_eq!(stats.count_vertex("Post"), Ok(()));
    assert_eq!(stats.count_edge("Person", "LIKES", "Post"), Ok(()));
    let mut again = Statistics::from_lines(stats.vertices(), stats.edges()).unwrap();
    assert_eq!(again.vertices(), stats.vertices());
    assert_eq!(again.edges(), stats.edges());
    assert_eq!(again.count_vertex("Person"), Ok(()));
    assert_eq!(again.vertex_count("Person"), 2);
    assert_eq!(again.vertex_count(""), 3);
    assert_eq!(stats.vertex_count("Person"), 1);
}

#[test]
fn from_lines_refuses_a_key_that_stands_twice() {
    assert!(Statistics::from_lines(vec![vertex("", 3), vertex("A", 1), vertex("A", 2)], vec![]).is_none());
    assert!(Statistics::from_lines(
        vec![],
        vec![edge("", "", "", 2), edge("A", "R", "B", 1), edge("A", "R", "B", 1)]
    )
    .is_none());
    assert!(Statistics::from_lines(
        vec![],
        vec![edge("", "", "", 2), edge("A", "R", "B", 1), edge("A", "R", "C", 1)]
    )
    .is_some());
}

#[test]
fn from_lines_refuses_a_count_above_the_total() {
    assert!(Statistics::from_lines(vec![vertex("A", 1)], vec![]).is_none());
    assert!(Statistics::from_lines(vec![vertex("", 1), vertex("A", 2)], vec![]).is_none());
    assert!(Statistics::from_lines(vec![vertex("", 2), vertex("A", 2)], vec![]).is_some());
    assert!(Statistics::from_lines(vec![vertex("A", 0)], vec![]).is_some());
    assert!(Statistics::from_lines(vec![], vec![edge("A", "", "", 1)]).is_none());
    assert!(Statistics::from_lines(vec![], vec![edge("", "", "", 1), edge("A", "", "", 2)]).is_none());
    assert!(Statistics::from_lines(vec![], vec![edge("", "", "", 2), edge("A", "", "", 2)]).is_some());
}

#[test]
fn room_is_measured_at_the_wildcard() {
    let full = Statistics::from_lines(vec![vertex("", u64::MAX - 1)], vec![edge("", "", "", u64::MAX - 3)])
        .unwrap();
    assert!(full.has_room_for_vertex("Person"));
    assert!(!full.has_room_for_vertex(""));
    assert!(full.has_room_for_edge("A", "R", "B"));
    assert!(full.has_room_for_edge("", "R", "B"));
    assert!(full.has_room_for_edge("A", "", "B"));
    assert!(!full.has_room_for_edge("", "", "B"));
    assert!(!full.has_room_for_edge("", "R", ""));
    assert!(!full.has_room_for_edge("", "", ""));
}

#[test]
fn count_vertex_without_room_changes_nothing() {
    let mut full = Statistics::from_lines(vec![vertex("", u64::MAX), vertex("A", 1)], vec![]).unwrap();
    assert_eq!(full.count_vertex("A"), Err(ImportError::CountOverflow));
    assert_eq!(full.count_vertex("B"), Err(ImportError::CountOverflow));
    assert_eq!(full.vertices(), vec![vertex("", u64::MAX), vertex("A", 1)]);
}

#[test]
fn count_edge_without_room_changes_nothing() {
    let mut full = Statistics::from_lines(vec![], vec![edge("", "", "", u64::MAX)]).unwrap();
    assert_eq!(full.count_edge("A", "R", "B"), Err(ImportError::CountOverflow));
    assert_eq!(full.edges(), vec![edge("", "", "", u64::MAX)]);
}

#[test]
fn registry_holds_each_family_apart() {
    let mut registry = IdentityRegistry::new();
    assert_eq!(registry.len(Family::Place), 0);
    assert!(!registry.contains(Family::Place, 1));
    assert_eq!(registry.register(Family::Place, 1, "City"), Ok(()));
    assert_eq!(registry.register(Family::Organisation, 1, "Company"), Ok(()));
    assert_eq!(registry.register(Family::Place, 2, "Country"), Ok(()));
    assert!(registry.contains(Family::Place, 1));
    assert!(registry.contains(Family::Organisation, 1));
    assert!(!registry.contains(Family::Organisation, 2));
    assert_eq!(registry.len(Family::Place), 2);
    assert_eq!(registry.len(Family::Organisation), 1);
    assert_eq!(registry.resolve(Family::Place, 1), Ok("City".to_string()));
    assert_eq!(registry.resolve(Family::Organisation, 1), Ok("Company".to_string()));
    assert_eq!(registry.resolve(Family::Place, 2), Ok("Country".to_string()));
}

#[test]
fn registry_refuses_an_identifier_it_holds() {
    let mut registry = IdentityRegistry::default();
    assert_eq!(registry.register(Family::Place, 7, "City"), Ok(()));
    assert_eq!(
        registry.register(Family::Place, 7, "Country"),
        Err(ImportError::DuplicateIdentifier { family: Family::Place, id: 7 })
    );
    assert_eq!(
        registry.register(Family::Place, 7, "City"),
        Err(ImportError::DuplicateIdentifier { family: Family::Place, id: 7 })
    );
    assert_eq!(registry.resolve(Family::Place, 7), Ok("City".to_string()));
    assert_eq!(registry.len(Family::Place), 1);
}

#[test]
fn registry_refuses_to_resolve_what_it_does_not_hold() {
    let mut registry = IdentityRegistry::new();
    assert_eq!(
        registry.resolve(Family::Organisation, 3),
        Err(ImportError::UnknownIdentifier { family: Family::Organisation, id: 3 })
    );
    assert_eq!(registry.register(Family::Place, 3, "City"), Ok(()));
    assert_eq!(
        registry.resolve(Family::Organisation, 3),
        Err(ImportError::UnknownIdentifier { family: Family::Organisation, id: 3 })
    );
    assert_eq!(
        registry.resolve(Family::Place, u64::MAX),
        Err(ImportError::UnknownIdentifier { family: Family::Place, id: u64::MAX })
    );
}

#[test]
fn new_context_is_empty() {
    for context in [Context::new(), Context::default()] {
        assert_eq!(context.statistics.vertices(), vec![]);
        assert_eq!(context.statistics.edges(), vec![]);
        assert_eq!(context.registry.len(Family::Place), 0);
        assert_eq!(context.registry.len(Family::Organisation), 0);
    }
}
