use graph_cardinality::error::{Family, ImportError};
use graph_cardinality::import::Context;
use graph_cardinality::label::{resolve_file_name, LabelName};
use graph_cardinality::order::import_order;

/// Header and rows of a table written with `|` between fields.
fn table(text: &str) -> (Vec<String>, Vec<Vec<String>>) {
    let mut reader = csv::ReaderBuilder::new()
        .has_headers(true)
        .delimiter(b'|')
        .from_reader(text.as_bytes());
    let header = reader.headers().unwrap().iter().map(|field| field.to_string()).collect();
    let rows = reader
        .records()
        .map(|record| record.unwrap().iter().map(|field| field.to_string()).collect())
        .collect();
    (header, rows)
}

/// Imports one file as the run does: by what its name says.
fn import(context: &mut Context, name: &str, text: &str) -> Result<(), ImportError> {
    let (header, rows) = table(text);
    match resolve_file_name(name).unwrap() {
        LabelName::Vertex(label) => context.import_vertex(&header, &rows, &label),
        LabelName::Edge(src, edge, dst) => context.import_edge(&header, &rows, &src, &edge, &dst),
    }
}

const PERSONS: &str = "id:ID(Person)|firstName:STRING|lastName:STRING\n\
                       933|Mahinda|Perera\n\
                       1129|Carmen|Lepland\n\
                       4194|Hồ Chí|Do\n";

const PLACES: &str = "id:ID(Place)|name:STRING|url:STRING|:LABEL\n\
                      0|India|http://dbpedia.org/resource/India|Country\n\
                      111|Bombay|http://dbpedia.org/resource/Bombay|City\n\
                      112|Delhi|http://dbpedia.org/resource/Delhi|City\n";

const KNOWS: &str = ":START_ID(Person)|:END_ID(Person)|creationDate:DATE_TIME\n\
                     933|1129|2010-03-24T18:34:36.466+0000\n\
                     1129|4194|2010-11-02T11:20:01.301+0000\n";

const COMMENTS: &str = "id:ID(Comment)|content:STRING\n\
                        10|fine\n\
                        11|thanks\n\
                        12|no\n";

const LOCATED: &str = ":START_ID(Comment)|:END_ID(Place)\n\
                       10|111\n\
                       11|0\n\
                       12|112\n";

#[test]
fn person_file_without_label_column_counts_under_the_file_label() {
    let mut context = Context::new();
    assert_eq!(import(&mut context, "person_0.csv", PERSONS), Ok(()));
    assert_eq!(context.statistics.vertex_count("Person"), 3);
    assert_eq!(context.statistics.vertex_count(""), 3);
    assert_eq!(context.statistics.vertices().len(), 2);
    assert_eq!(context.registry.len(Family::Place), 0);
    assert_eq!(context.registry.len(Family::Organisation), 0);
}

#[test]
fn place_file_counts_by_row_label_and_registers_identifiers() {
    let mut context = Context::new();
    assert_eq!(import(&mut context, "place_0.csv", PLACES), Ok(()));
    assert_eq!(context.statistics.vertex_count("City"), 2);
    assert_eq!(context.statistics.vertex_count("Country"), 1);
    assert_eq!(context.statistics.vertex_count(""), 3);
    assert_eq!(context.statistics.vertex_count("Place"), 0);
    assert_eq!(context.registry.len(Family::Place), 3);
    assert_eq!(context.registry.len(Family::Organisation), 0);
    assert_eq!(context.registry.resolve(Family::Place, 0), Ok("Country".to_string()));
    assert_eq!(context.registry.resolve(Family::Place, 111), Ok("City".to_string()));
    assert_eq!(context.registry.resolve(Family::Place, 112), Ok("City".to_string()));
}

#[test]
fn knows_file_counts_every_roll_up() {
    let mut context = Context::new();
    assert_eq!(import(&mut context, "person_knows_person.csv", KNOWS), Ok(()));
    let stats = &context.statistics;
    assert_eq!(stats.edge_count("Person", "KNOWS", "Person"), 2);
    assert_eq!(stats.edge_count("Person", "KNOWS", ""), 2);
    assert_eq!(stats.edge_count("Person", "", "Person"), 2);
    assert_eq!(stats.edge_count("Person", "", ""), 2);
    assert_eq!(stats.edge_count("", "KNOWS", "Person"), 2);
    assert_eq!(stats.edge_count("", "KNOWS", ""), 2);
    assert_eq!(stats.edge_count("", "", "Person"), 2);
    assert_eq!(stats.edge_count("", "", ""), 2);
    assert_eq!(stats.edges().len(), 8);
    assert_eq!(stats.vertex_count(""), 0);
}

#[test]
fn located_in_file_counts_under_the_registered_labels() {
    let mut context = Context::new();
    assert_eq!(import(&mut context, "place_0.csv", PLACES), Ok(()));
    assert_eq!(import(&mut context, "comment_0.csv", COMMENTS), Ok(()));
    assert_eq!(import(&mut context, "comment_isLocatedIn_place.csv", LOCATED), Ok(()));
    let stats = &context.statistics;
    assert_eq!(stats.edge_count("Comment", "IS_LOCATED_IN", "City"), 2);
    assert_eq!(stats.edge_count("Comment", "IS_LOCATED_IN", "Country"), 1);
    assert_eq!(stats.edge_count("Comment", "IS_LOCATED_IN", "Place"), 0);
    assert_eq!(stats.edge_count("Comment", "IS_LOCATED_IN", ""), 3);
    assert_eq!(stats.edge_count("", "", "City"), 2);
    assert_eq!(stats.edge_count("", "", "Country"), 1);
    assert_eq!(stats.edge_count("", "", "Place"), 0);
    assert_eq!(stats.edge_count("", "", ""), 3);
}

#[test]
fn edge_file_before_its_vertex_file_finds_no_identifier() {
    let mut context = Context::new();
    assert_eq!(
        import(&mut context, "comment_isLocatedIn_place.csv", LOCATED),
        Err(ImportError::UnknownIdentifier { family: Family::Place, id: 111 })
    );
    assert_eq!(context.statistics.edge_count("", "", ""), 0);
}

#[test]
fn a_run_in_import_order_succeeds_whatever_the_listing() {
    let files: Vec<(&str, &str)> = vec![
        ("comment_isLocatedIn_place_0_0.csv", LOCATED),
        ("person_knows_person_0_0.csv", KNOWS),
        ("place_0_0.csv", PLACES),
        ("comment_0_0.csv", COMMENTS),
        ("person_0_0.csv", PERSONS),
    ];
    let names: Vec<String> = files.iter().map(|(name, _)| name.to_string()).collect();
    let order = import_order(&names);
    assert_eq!(order, vec![2, 3, 4, 0, 1]);
    let mut context = Context::new();
    for at in order {
        assert_eq!(import(&mut context, files[at].0, files[at].1), Ok(()));
    }
    let stats = &context.statistics;
    assert_eq!(stats.vertex_count(""), 9);
    assert_eq!(stats.vertex_count("Person"), 3);
    assert_eq!(stats.vertex_count("Comment"), 3);
    assert_eq!(stats.vertex_count("City"), 2);
    assert_eq!(stats.vertex_count("Country"), 1);
    assert_eq!(stats.edge_count("", "", ""), 5);
    assert_eq!(stats.edge_count("Person", "KNOWS", "Person"), 2);
    assert_eq!(stats.edge_count("Comment", "IS_LOCATED_IN", "City"), 2);
    assert_eq!(stats.edge_count("Comment", "", ""), 3);
    assert_eq!(stats.edge_count("", "IS_LOCATED_IN", "Country"), 1);
}
