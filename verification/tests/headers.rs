use graph_cardinality::error::{Family, ImportError};
use graph_cardinality::header::{
    column_type_of, read_edge_header, read_vertex_header, EdgeColumns, VertexColumns,
};

fn header(columns: &[&str]) -> Vec<String> {
    columns.iter().map(|column| column.to_string()).collect()
}

#[test]
fn column_type_is_what_follows_the_first_colon() {
    assert_eq!(column_type_of("id:ID(Person)"), Some("ID(Person)".to_string()));
    assert_eq!(column_type_of(":LABEL"), Some("LABEL".to_string()));
    assert_eq!(column_type_of(":START_ID(Person)"), Some("START_ID(Person)".to_string()));
    assert_eq!(column_type_of("name:"), Some("".to_string()));
    assert_eq!(column_type_of("a:b:c"), Some("b".to_string()));
    assert_eq!(column_type_of("name"), None);
    assert_eq!(column_type_of(""), None);
}

#[test]
fn vertex_header_without_label_column() {
    assert_eq!(
        read_vertex_header(&header(&["id:ID(Person)", "firstName:STRING", "birthday:DATE"])),
        Ok(VertexColumns { label: None })
    );
    assert_eq!(read_vertex_header(&header(&["id:ID"])), Ok(VertexColumns { label: None }));
}

#[test]
fn vertex_header_with_label_column() {
    assert_eq!(
        read_vertex_header(&header(&["id:ID(Place)", "name:STRING", "url:STRING", ":LABEL"])),
        Ok(VertexColumns { label: Some(3) })
    );
    assert_eq!(
        read_vertex_header(&header(&["id:ID(Organisation)", ":LABEL", "name:STRING"])),
        Ok(VertexColumns { label: Some(1) })
    );
}

#[test]
fn vertex_header_ignores_other_types() {
    assert_eq!(
        read_vertex_header(&header(&["id:ID", "a:START_ID", "b:END_ID", "c:LABELS", "d:label", "e:"])),
        Ok(VertexColumns { label: None })
    );
}

#[test]
fn vertex_header_column_without_type_is_malformed() {
    assert_eq!(
        read_vertex_header(&header(&["id:ID(Person)", "firstName", ":LABEL"])),
        Err(ImportError::MalformedColumn { index: 1 })
    );
    assert_eq!(read_vertex_header(&header(&[""])), Err(ImportError::MalformedColumn { index: 0 }));
}

#[test]
fn vertex_header_second_label_column_is_refused() {
    assert_eq!(
        read_vertex_header(&header(&["id:ID(Place)", ":LABEL", "name:STRING", "kind:LABEL"])),
        Err(ImportError::DuplicateLabelColumn { index: 3 })
    );
}

#[test]
fn vertex_header_identifier_column_must_come_first() {
    assert_eq!(
        read_vertex_header(&header(&["name:STRING", "id:ID(Person)"])),
        Err(ImportError::MisplacedIdColumn { index: 1 })
    );
    assert_eq!(
        read_vertex_header(&header(&["id:ID(Person)", "other:ID(Person)"])),
        Err(ImportError::MisplacedIdColumn { index: 1 })
    );
}

#[test]
fn vertex_header_without_identifier_column_is_refused() {
    assert_eq!(
        read_vertex_header(&header(&["name:STRING", ":LABEL"])),
        Err(ImportError::MissingIdColumn { index: 0 })
    );
    assert_eq!(read_vertex_header(&header(&[])), Err(ImportError::MissingIdColumn { index: 0 }));
}

#[test]
fn vertex_header_reports_its_first_fault() {
    assert_eq!(
        read_vertex_header(&header(&["name:STRING", "broken", "id:ID"])),
        Err(ImportError::MalformedColumn { index: 1 })
    );
    assert_eq!(
        read_vertex_header(&header(&[":LABEL", "id:ID", ":LABEL"])),
        Err(ImportError::MisplacedIdColumn { index: 1 })
    );
    assert_eq!(
        read_vertex_header(&header(&[":LABEL", ":LABEL", "id:ID"])),
        Err(ImportError::DuplicateLabelColumn { index: 1 })
    );
}

#[test]
fn edge_header_between_plain_labels() {
    assert_eq!(
        read_edge_header(
            &header(&[":START_ID(Person)", ":END_ID(Person)", "creationDate:DATE_TIME"]),
            "Person",
            "Person"
        ),
        Ok(EdgeColumns { src_family: None, dst_family: None })
    );
}

#[test]
fn edge_header_notes_the_endpoints_declared_as_a_family() {
    let columns = header(&[":START_ID(A)", ":END_ID(B)"]);
    assert_eq!(
        read_edge_header(&columns, "Comment", "Place"),
        Ok(EdgeColumns { src_family: None, dst_family: Some(Family::Place) })
    );
    assert_eq!(
        read_edge_header(&columns, "Person", "Organisation"),
        Ok(EdgeColumns { src_family: None, dst_family: Some(Family::Organisation) })
    );
    assert_eq!(
        read_edge_header(&columns, "Organisation", "Place"),
        Ok(EdgeColumns { src_family: Some(Family::Organisation), dst_family: Some(Family::Place) })
    );
    assert_eq!(
        read_edge_header(&columns, "Place", "Place"),
        Ok(EdgeColumns { src_family: Some(Family::Place), dst_family: Some(Family::Place) })
    );
    assert_eq!(
        read_edge_header(&columns, "City", "Company"),
        Ok(EdgeColumns { src_family: None, dst_family: None })
    );
}

#[test]
fn edge_header_column_without_type_is_malformed() {
    assert_eq!(
        read_edge_header(&header(&[":START_ID", ":END_ID", "weight"]), "Person", "Person"),
        Err(ImportError::MalformedColumn { index: 2 })
    );
}

#[test]
fn edge_header_identifier_columns_must_come_first_and_second() {
    assert_eq!(
        read_edge_header(&header(&[":END_ID", ":START_ID"]), "Person", "Person"),
        Err(ImportError::MisplacedIdColumn { index: 0 })
    );
    assert_eq!(
        read_edge_header(&header(&["x:INT", ":START_ID", ":END_ID"]), "Person", "Person"),
        Err(ImportError::MisplacedIdColumn { index: 1 })
    );
    assert_eq!(
        read_edge_header(&header(&[":START_ID", "x:INT", ":END_ID"]), "Person", "Person"),
        Err(ImportError::MisplacedIdColumn { index: 2 })
    );
    assert_eq!(
        read_edge_header(&header(&[":START_ID", ":END_ID", ":START_ID"]), "Person", "Person"),
        Err(ImportError::MisplacedIdColumn { index: 2 })
    );
    assert_eq!(
        read_edge_header(&header(&[":START_ID", ":END_ID", ":END_ID"]), "Person", "Person"),
        Err(ImportError::MisplacedIdColumn { index: 2 })
    );
}

#[test]
fn edge_header_without_identifier_columns_is_refused() {
    assert_eq!(
        read_edge_header(&header(&["a:INT", "b:INT"]), "Person", "Person"),
        Err(ImportError::MissingIdColumn { index: 0 })
    );
    assert_eq!(
        read_edge_header(&header(&[]), "Person", "Person"),
        Err(ImportError::MissingIdColumn { index: 0 })
    );
    assert_eq!(
        read_edge_header(&header(&[":START_ID"]), "Person", "Person"),
        Err(ImportError::MissingIdColumn { index: 1 })
    );
    assert_eq!(
        read_edge_header(&header(&[":START_ID", "b:INT"]), "Person", "Person"),
        Err(ImportError::MissingIdColumn { index: 1 })
    );
    assert_eq!(
        read_edge_header(&header(&["id:ID", "b:ID"]), "Person", "Person"),
        Err(ImportError::MissingIdColumn { index: 0 })
    );
}
