use graph_cardinality::error::Family;
use graph_cardinality::label::{
    family_of_endpoint, family_of_label, resolve_edge_name, resolve_file_name, resolve_vertex_name,
    IllegalLabelName, LabelName,
};
use graph_cardinality::order::{count_tokens, import_order};

fn vertex(label: &str) -> Result<LabelName, IllegalLabelName> {
    Ok(LabelName::Vertex(label.to_string()))
}

fn edge(src: &str, edge: &str, dst: &str) -> Result<LabelName, IllegalLabelName> {
    Ok(LabelName::Edge(src.to_string(), edge.to_string(), dst.to_string()))
}

fn refused(src: &str, edge: &str, dst: &str) -> Result<LabelName, IllegalLabelName> {
    Err(IllegalLabelName { src: src.to_string(), edge: edge.to_string(), dst: dst.to_string() })
}

#[test]
fn every_vertex_token_has_its_label() {
    let table = [
        ("place", "Place"),
        ("organisation", "Organisation"),
        ("tagclass", "TagClass"),
        ("tag", "Tag"),
        ("comment", "Comment"),
        ("forum", "Forum"),
        ("person", "Person"),
        ("post", "Post"),
    ];
    for (token, label) in table {
        assert_eq!(resolve_vertex_name(token), Some(label));
        assert_eq!(resolve_edge_name(token), None);
    }
    assert_eq!(resolve_vertex_name("Person"), None);
    assert_eq!(resolve_vertex_name("persons"), None);
    assert_eq!(resolve_vertex_name(""), None);
}

#[test]
fn every_edge_token_has_its_label() {
    let table = [
        ("isPartOf", "IS_PART_OF"),
        ("isSubclassOf", "IS_SUBCLASS_OF"),
        ("isLocatedIn", "IS_LOCATED_IN"),
        ("hasType", "HAS_TYPE"),
        ("hasCreator", "HAS_CREATOR"),
        ("replyOf", "REPLY_OF"),
        ("containerOf", "CONTAINER_OF"),
        ("hasMember", "HAS_MEMBER"),
        ("hasModerator", "HAS_MODERATOR"),
        ("hasTag", "HAS_TAG"),
        ("hasInterest", "HAS_INTEREST"),
        ("knows", "KNOWS"),
        ("likes", "LIKES"),
        ("studyAt", "STUDY_AT"),
        ("workAt", "WORK_AT"),
    ];
    for (token, label) in table {
        assert_eq!(resolve_edge_name(token), Some(label));
        assert_eq!(resolve_vertex_name(token), None);
    }
    assert_eq!(resolve_edge_name("KNOWS"), None);
    assert_eq!(resolve_edge_name(""), None);
}

#[test]
fn vertex_files_resolve_by_their_first_token() {
    assert_eq!(resolve_file_name("person_0.csv"), vertex("Person"));
    assert_eq!(resolve_file_name("place_0.csv"), vertex("Place"));
    assert_eq!(resolve_file_name("person_0_0.csv"), vertex("Person"));
    assert_eq!(resolve_file_name("tagclass_0_0.csv"), vertex("TagClass"));
    assert_eq!(resolve_file_name("organisation_0_0"), vertex("Organisation"));
    assert_eq!(resolve_file_name("post"), vertex("Post"));
}

#[test]
fn edge_files_resolve_by_their_first_three_tokens() {
    assert_eq!(resolve_file_name("person_knows_person.csv"), edge("Person", "KNOWS", "Person"));
    assert_eq!(
        resolve_file_name("comment_isLocatedIn_place.csv"),
        edge("Comment", "IS_LOCATED_IN", "Place")
    );
    assert_eq!(
        resolve_file_name("person_workAt_organisation_0_0.csv"),
        edge("Person", "WORK_AT", "Organisation")
    );
    assert_eq!(resolve_file_name("tag_hasType_tagclass_0_0.csv"), edge("Tag", "HAS_TYPE", "TagClass"));
    assert_eq!(resolve_file_name("forum_containerOf_post"), edge("Forum", "CONTAINER_OF", "Post"));
}

#[test]
fn names_that_resolve_in_part_are_refused_with_their_tokens() {
    assert_eq!(resolve_file_name("person_knows_0.csv"), refused("person", "knows", "0"));
    assert_eq!(resolve_file_name("person_0_person.csv"), refused("person", "0", "person"));
    assert_eq!(resolve_file_name("people_0_0.csv"), refused("people", "0", "0"));
    assert_eq!(resolve_file_name("updateStream_0_0_person.csv"), refused("updateStream", "0", "0"));
    assert_eq!(resolve_file_name("knows.csv"), refused("knows", "", ""));
    assert_eq!(resolve_file_name("person_knows"), refused("person", "knows", ""));
    assert_eq!(resolve_file_name(""), refused("", "", ""));
    assert_eq!(resolve_file_name("_person_knows_person"), refused("", "person", "knows"));
}

#[test]
fn the_extension_is_no_part_of_the_last_token() {
    assert_eq!(resolve_file_name("person_knows_person.csv.gz"), refused("person", "knows", "person.csv"));
    assert_eq!(resolve_file_name("person_knows_person."), edge("Person", "KNOWS", "Person"));
    assert_eq!(resolve_file_name("person.csv"), vertex("Person"));
    assert_eq!(resolve_file_name(".person"), refused(".person", "", ""));
}

#[test]
fn families_of_row_labels() {
    assert_eq!(family_of_label("City"), Some(Family::Place));
    assert_eq!(family_of_label("Country"), Some(Family::Place));
    assert_eq!(family_of_label("Continent"), Some(Family::Place));
    assert_eq!(family_of_label("University"), Some(Family::Organisation));
    assert_eq!(family_of_label("Company"), Some(Family::Organisation));
    assert_eq!(family_of_label("Place"), None);
    assert_eq!(family_of_label("Organisation"), None);
    assert_eq!(family_of_label("Person"), None);
    assert_eq!(family_of_label("city"), None);
    assert_eq!(family_of_label(""), None);
}

#[test]
fn families_of_declared_endpoints() {
    assert_eq!(family_of_endpoint("Place"), Some(Family::Place));
    assert_eq!(family_of_endpoint("Organisation"), Some(Family::Organisation));
    assert_eq!(family_of_endpoint("City"), None);
    assert_eq!(family_of_endpoint("Person"), None);
    assert_eq!(family_of_endpoint(""), None);
}

#[test]
fn tokens_are_counted_without_the_extension() {
    assert_eq!(count_tokens("person_0.csv"), 2);
    assert_eq!(count_tokens("person_knows_person.csv"), 3);
    assert_eq!(count_tokens("person_0_0.csv"), 3);
    assert_eq!(count_tokens("person_knows_person_0_0.csv"), 5);
    assert_eq!(count_tokens("person"), 1);
    assert_eq!(count_tokens(""), 1);
    assert_eq!(count_tokens("a__b"), 3);
    assert_eq!(count_tokens("a_b.c_d"), 2);
}

#[test]
fn import_order_puts_names_of_fewer_tokens_first() {
    let names: Vec<String> = [
        "person_knows_person.csv",
        "person_0.csv",
        "comment_isLocatedIn_place.csv",
        "place_0.csv",
        "forum_hasMember_person.csv",
        "comment_0.csv",
    ]
    .iter()
    .map(|name| name.to_string())
    .collect();
    assert_eq!(import_order(&names), vec![1, 3, 5, 0, 2, 4]);
}

#[test]
fn import_order_puts_vertex_files_first_whatever_the_listing() {
    let vertex_files = ["person_0.csv", "place_0.csv", "comment_0.csv"];
    let edge_files = ["person_knows_person.csv", "comment_isLocatedIn_place.csv"];
    let listings: [[usize; 5]; 6] = [
        [0, 1, 2, 3, 4],
        [4, 3, 2, 1, 0],
        [3, 0, 4, 1, 2],
        [0, 3, 1, 4, 2],
        [4, 0, 1, 2, 3],
        [2, 4, 1, 3, 0],
    ];
    for listing in listings {
        let names: Vec<String> = listing
            .iter()
            .map(|&at| if at < 3 { vertex_files[at] } else { edge_files[at - 3] }.to_string())
            .collect();
        let order = import_order(&names);
        assert_eq!(order.len(), 5);
        let mut sorted = order.clone();
        sorted.sort();
        assert_eq!(sorted, vec![0, 1, 2, 3, 4]);
        for (place, &at) in order.iter().enumerate() {
            let is_vertex = count_tokens(&names[at]) == 2;
            assert_eq!(is_vertex, place < 3);
        }
    }
}

#[test]
fn import_order_keeps_the_listing_among_names_of_equally_many_tokens() {
    let names: Vec<String> =
        ["b_2", "a_b_c", "a_1", "x", "c_3", "d_e_f", "y"].iter().map(|name| name.to_string()).collect();
    assert_eq!(import_order(&names), vec![3, 6, 0, 2, 4, 1, 5]);
    assert_eq!(import_order(&Vec::new()), Vec::<usize>::new());
    assert_eq!(import_order(&vec!["only".to_string()]), vec![0]);
}

#[test]
fn a_vertex_file_of_three_tokens_listed_after_an_edge_file_stays_after_it() {
    let names: Vec<String> =
        ["person_knows_person.csv", "person_0_0.csv"].iter().map(|name| name.to_string()).collect();
    assert_eq!(import_order(&names), vec![0, 1]);
}
