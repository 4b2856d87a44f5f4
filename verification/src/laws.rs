//! What holds of every run, proved of the states that the import passes
//! through.
//!
//! The sums hold as long as no vertex and no edge is counted under an empty
//! label: the empty label is the wildcard, and a vertex or an edge that
//! bears it is counted twice under one key.

use crate::error::{Family, ImportError};
use crate::header::{edge_columns, vertex_columns, EdgeColumns, VertexColumns};
use crate::import::{lemma_vertex_rows_stop, row_id, row_label, ContextView};
use crate::label::{endpoint_family, family_of};
use crate::registry::RegistryView;
use crate::rollup::{
    any_edge, concrete, covered, edges_add_up, holds_all_roll_ups, labelled, lemma_edges_add_up,
    lemma_holds_all_roll_ups, lemma_roll_ups_copies, lemma_vertex_keys, lemma_vertices_add_up,
    roll_ups, vertex_keys, vertices_add_up, wildcard, Triple,
};
use crate::tally::{count_of, lemma_tallied_finite, total};
use vstd::prelude::*;

verus! {

/// Whether no row of a vertex file that is taken has the empty label.
pub open spec fn rows_are_labelled(
    state: ContextView,
    columns: VertexColumns,
    label_name: Seq<char>,
    rows: Seq<Seq<Seq<char>>>,
) -> bool {
    forall|i: int|
        0 <= i < rows.len() && state.with_vertex_rows(columns, label_name, rows.take(i + 1)).1.is_ok()
            ==> row_label(columns, label_name, #[trigger] rows[i]) != Ok::<Seq<char>, ImportError>(
            wildcard(),
        )
}

/// Whether no row of an edge file that is taken is counted under a triple
/// with an empty label.
pub open spec fn rows_are_concrete(
    state: ContextView,
    columns: EdgeColumns,
    src_label: Seq<char>,
    edge_label: Seq<char>,
    dst_label: Seq<char>,
    rows: Seq<Seq<Seq<char>>>,
) -> bool {
    forall|i: int|
        0 <= i < rows.len() && state.with_edge_rows(
            columns,
            src_label,
            edge_label,
            dst_label,
            rows.take(i + 1),
        ).1.is_ok() ==> match state.edge_triple(
            columns,
            src_label,
            edge_label,
            dst_label,
            #[trigger] rows[i],
        ) {
            Ok(triple) => concrete(triple),
            Err(_) => true,
        }
}

/// Whether every label in the registry belongs to the family that holds
/// it.
pub open spec fn kept_in_family(registry: RegistryView) -> bool {
    forall|family: Family, id: u64|
        registry.of(family).contains_key(id) ==> family_of(#[trigger] registry.of(family)[id])
            == Some(family)
}

/// Whether the state is one that a run is in as long as no file and no row
/// has an empty label: both tables are finite, the wildcard entry of the
/// vertex table is the sum of the other entries, every entry of the edge
/// table is the sum of the wildcard-free entries that its key stands for, the
/// edge table holds every roll-up of each of its keys, and every label in
/// the registry belongs to the family that holds it.
pub open spec fn consistent(state: ContextView) -> bool {
    &&& state.statistics.finite()
    &&& vertices_add_up(state.statistics.vertex_cardinality)
    &&& edges_add_up(state.statistics.edge_cardinality)
    &&& holds_all_roll_ups(state.statistics.edge_cardinality)
    &&& kept_in_family(state.registry)
}

/// A label that belongs to a family is not empty.
pub proof fn lemma_family_label_is_not_empty(label: Seq<char>)
    requires
        family_of(label).is_some(),
    ensures
        label != wildcard(),
{
    reveal_strlit("City");
    reveal_strlit("Country");
    reveal_strlit("Continent");
    reveal_strlit("University");
    reveal_strlit("Company");
    assert(label.len() > 0);
}

/// The wildcard entry of the vertex table is the sum of the entries of all
/// labels, before and after every row of a vertex file, as long as no row
/// that is taken has the empty label; and where all rows are taken, it has
/// risen by their number.
pub proof fn lemma_vertex_rows_add_up(
    state: ContextView,
    columns: VertexColumns,
    label_name: Seq<char>,
    rows: Seq<Seq<Seq<char>>>,
)
    requires
        state.statistics.finite(),
        vertices_add_up(state.statistics.vertex_cardinality),
        rows_are_labelled(state, columns, label_name, rows),
    ensures
        state.with_vertex_rows(columns, label_name, rows).0.statistics.finite(),
        vertices_add_up(
            state.with_vertex_rows(columns, label_name, rows).0.statistics.vertex_cardinality,
        ),
        state.with_vertex_rows(columns, label_name, rows).1.is_ok() ==> count_of(
            state.with_vertex_rows(columns, label_name, rows).0.statistics.vertex_cardinality,
            wildcard(),
        ) == count_of(state.statistics.vertex_cardinality, wildcard()) + rows.len(),
        state.with_vertex_rows(columns, label_name, rows).0.statistics.edge_cardinality
            == state.statistics.edge_cardinality,
    decreases rows.len(),
{
    if rows.len() > 0 {
        let shorter = rows.drop_last();
        assert forall|i: int|
            0 <= i < shorter.len() && state.with_vertex_rows(
                columns,
                label_name,
                shorter.take(i + 1),
            ).1.is_ok() implies row_label(columns, label_name, #[trigger] shorter[i]) != Ok::<
            Seq<char>,
            ImportError,
        >(wildcard()) by {
            assert(shorter[i] == rows[i]);
            assert(shorter.take(i + 1) =~= rows.take(i + 1));
        }
        lemma_vertex_rows_add_up(state, columns, label_name, shorter);
        let (mid, outcome) = state.with_vertex_rows(columns, label_name, shorter);
        if outcome.is_ok() && mid.with_vertex_row(columns, label_name, rows.last()).is_ok() {
            assert(rows.last() == rows[rows.len() - 1]);
            assert(rows.take(rows.len() as int) =~= rows);
            let label = row_label(columns, label_name, rows.last()).unwrap();
            lemma_vertices_add_up(mid.statistics.vertex_cardinality, label);
            lemma_tallied_finite(mid.statistics.vertex_cardinality, vertex_keys(label));
            lemma_vertex_keys(label, wildcard());
        }
    }
}

/// Every entry of the edge table is the sum of the wildcard-free entries
/// that its key stands for, before and after every row of an edge file, as
/// long as no row that is taken is counted under an empty label; and where
/// all rows are taken, the all-wildcard entry has risen by their number: it
/// is the number of edges of the run.
pub proof fn lemma_edge_rows_add_up(
    state: ContextView,
    columns: EdgeColumns,
    src_label: Seq<char>,
    edge_label: Seq<char>,
    dst_label: Seq<char>,
    rows: Seq<Seq<Seq<char>>>,
)
    requires
        state.statistics.finite(),
        edges_add_up(state.statistics.edge_cardinality),
        rows_are_concrete(state, columns, src_label, edge_label, dst_label, rows),
    ensures
        state.with_edge_rows(columns, src_label, edge_label, dst_label, rows).0.statistics.finite(),
        edges_add_up(
            state.with_edge_rows(
                columns,
                src_label,
                edge_label,
                dst_label,
                rows,
            ).0.statistics.edge_cardinality,
        ),
        state.with_edge_rows(columns, src_label, edge_label, dst_label, rows).1.is_ok() ==> count_of(
            state.with_edge_rows(
                columns,
                src_label,
                edge_label,
                dst_label,
                rows,
            ).0.statistics.edge_cardinality,
            any_edge(),
        ) == count_of(state.statistics.edge_cardinality, any_edge()) + rows.len(),
        state.with_edge_rows(columns, src_label, edge_label, dst_label, rows).0.statistics.vertex_cardinality
            == state.statistics.vertex_cardinality,
        state.with_edge_rows(columns, src_label, edge_label, dst_label, rows).0.registry
            == state.registry,
    decreases rows.len(),
{
    if rows.len() > 0 {
        let shorter = rows.drop_last();
        assert forall|i: int|
            0 <= i < shorter.len() && state.with_edge_rows(
                columns,
                src_label,
                edge_label,
                dst_label,
                shorter.take(i + 1),
            ).1.is_ok() implies match state.edge_triple(
            columns,
            src_label,
            edge_label,
            dst_label,
            #[trigger] shorter[i],
        ) {
            Ok(triple) => concrete(triple),
            Err(_) => true,
        } by {
            assert(shorter[i] == rows[i]);
            assert(shorter.take(i + 1) =~= rows.take(i + 1));
        }
        lemma_edge_rows_add_up(state, columns, src_label, edge_label, dst_label, shorter);
        let (mid, outcome) = state.with_edge_rows(columns, src_label, edge_label, dst_label, shorter);
        let row = rows.last();
        if outcome.is_ok() && mid.with_edge_row(columns, src_label, edge_label, dst_label, row).is_ok() {
            assert(row == rows[rows.len() - 1]);
            assert(rows.take(rows.len() as int) =~= rows);
            assert(mid.edge_triple(columns, src_label, edge_label, dst_label, row)
                == state.edge_triple(columns, src_label, edge_label, dst_label, row));
            let (src, edge, dst) = mid.edge_triple(
                columns,
                src_label,
                edge_label,
                dst_label,
                row,
            ).unwrap();
            lemma_edges_add_up(mid.statistics.edge_cardinality, src, edge, dst);
            lemma_tallied_finite(mid.statistics.edge_cardinality, roll_ups(src, edge, dst));
            lemma_roll_ups_copies(src, edge, dst, any_edge());
        }
    }
}

/// With every triple it holds, the edge table holds all eight roll-ups of
/// the triple, before and after every row of an edge file.
pub proof fn lemma_edge_rows_hold_all_roll_ups(
    state: ContextView,
    columns: EdgeColumns,
    src_label: Seq<char>,
    edge_label: Seq<char>,
    dst_label: Seq<char>,
    rows: Seq<Seq<Seq<char>>>,
)
    requires
        holds_all_roll_ups(state.statistics.edge_cardinality),
    ensures
        holds_all_roll_ups(
            state.with_edge_rows(
                columns,
                src_label,
                edge_label,
                dst_label,
                rows,
            ).0.statistics.edge_cardinality,
        ),
    decreases rows.len(),
{
    if rows.len() > 0 {
        let shorter = rows.drop_last();
        lemma_edge_rows_hold_all_roll_ups(state, columns, src_label, edge_label, dst_label, shorter);
        let (mid, outcome) = state.with_edge_rows(columns, src_label, edge_label, dst_label, shorter);
        let row = rows.last();
        if outcome.is_ok() && mid.with_edge_row(columns, src_label, edge_label, dst_label, row).is_ok() {
            let (src, edge, dst) = mid.edge_triple(
                columns,
                src_label,
                edge_label,
                dst_label,
                row,
            ).unwrap();
            lemma_holds_all_roll_ups(mid.statistics.edge_cardinality, src, edge, dst);
        }
    }
}

/// The rows of a vertex file leave in the registry all that was in it, and
/// every label that they add belongs to the family that holds it. Each row
/// that is taken and whose label belongs to a family is then registered with
/// that label.
pub proof fn lemma_vertex_rows_keep_registry(
    state: ContextView,
    columns: VertexColumns,
    label_name: Seq<char>,
    rows: Seq<Seq<Seq<char>>>,
)
    ensures
        state.registry.kept_by(state.with_vertex_rows(columns, label_name, rows).0.registry),
        kept_in_family(state.registry) ==> kept_in_family(
            state.with_vertex_rows(columns, label_name, rows).0.registry,
        ),
        state.with_vertex_rows(columns, label_name, rows).1.is_ok() ==> forall|i: int|
            0 <= i < rows.len() ==> is_registered(
                state.with_vertex_rows(columns, label_name, rows).0.registry,
                columns,
                label_name,
                #[trigger] rows[i],
            ),
    decreases rows.len(),
{
    if rows.len() > 0 {
        let shorter = rows.drop_last();
        lemma_vertex_rows_keep_registry(state, columns, label_name, shorter);
        let (mid, outcome) = state.with_vertex_rows(columns, label_name, shorter);
        let (end, _) = state.with_vertex_rows(columns, label_name, rows);
        assert(mid.registry.kept_by(end.registry));
        if kept_in_family(state.registry) {
            assert forall|family: Family, id: u64| end.registry.of(family).contains_key(
                id,
            ) implies family_of(#[trigger] end.registry.of(family)[id]) == Some(family) by {
                if mid.registry.of(family).contains_key(id) {
                    assert(end.registry.of(family)[id] == mid.registry.of(family)[id]);
                }
            }
        }
        if state.with_vertex_rows(columns, label_name, rows).1.is_ok() {
            assert forall|i: int| 0 <= i < rows.len() implies is_registered(
                end.registry,
                columns,
                label_name,
                #[trigger] rows[i],
            ) by {
                if i < shorter.len() {
                    assert(shorter[i] == rows[i]);
                    assert(is_registered(mid.registry, columns, label_name, shorter[i]));
                }
            }
        }
    }
}

/// Whether the registry holds the identifier of a row of a vertex file with
/// the label of the row, where that label belongs to a family.
pub open spec fn is_registered(
    registry: RegistryView,
    columns: VertexColumns,
    label_name: Seq<char>,
    row: Seq<Seq<char>>,
) -> bool {
    match (row_label(columns, label_name, row), row_id(row, 0)) {
        (Ok(label), Ok(id)) => match family_of(label) {
            Some(family) => registry.of(family).contains_key(id) && registry.of(family)[id] == label,
            None => true,
        },
        _ => true,
    }
}

/// No identifier is registered twice in a family: a vertex file with two
/// rows of the same identifier whose labels belong to the same family is not
/// imported to its end.
pub proof fn lemma_same_identifier_twice_is_fatal(
    state: ContextView,
    columns: VertexColumns,
    label_name: Seq<char>,
    rows: Seq<Seq<Seq<char>>>,
    first: int,
    second: int,
    family: Family,
    id: u64,
)
    requires
        0 <= first < second < rows.len(),
        row_label(columns, label_name, rows[first]).is_ok(),
        family_of(row_label(columns, label_name, rows[first]).unwrap()) == Some(family),
        row_id(rows[first], 0) == Ok::<u64, ImportError>(id),
        row_label(columns, label_name, rows[second]).is_ok(),
        family_of(row_label(columns, label_name, rows[second]).unwrap()) == Some(family),
        row_id(rows[second], 0) == Ok::<u64, ImportError>(id),
    ensures
        state.with_vertex_rows(columns, label_name, rows).1.is_err(),
{
    let before = rows.take(second);
    let upto = rows.take(second + 1);
    let (mid, outcome) = state.with_vertex_rows(columns, label_name, before);
    assert(upto.drop_last() =~= before);
    assert(upto.last() == rows[second]);
    if outcome.is_ok() {
        lemma_vertex_rows_keep_registry(state, columns, label_name, before);
        assert(before[first] == rows[first]);
        assert(is_registered(mid.registry, columns, label_name, before[first]));
        assert(mid.with_vertex_row(columns, label_name, rows[second]).is_err());
    }
    assert(state.with_vertex_rows(columns, label_name, upto).1.is_err());
    lemma_vertex_rows_stop(state, columns, label_name, rows, second + 1);
}

/// No identifier is registered twice in a family, across files too: once a
/// vertex row has been taken whose label belongs to a family, every vertex
/// row with the same identifier and a label of the same family is refused, in
/// every state that keeps what the registry held then.
pub proof fn lemma_second_registration_is_refused(
    state: ContextView,
    later: ContextView,
    family: Family,
    id: u64,
    first_columns: VertexColumns,
    first_label_name: Seq<char>,
    first_row: Seq<Seq<char>>,
    second_columns: VertexColumns,
    second_label_name: Seq<char>,
    second_row: Seq<Seq<char>>,
)
    requires
        state.with_vertex_row(first_columns, first_label_name, first_row).is_ok(),
        family_of(row_label(first_columns, first_label_name, first_row).unwrap()) == Some(family),
        row_id(first_row, 0) == Ok::<u64, ImportError>(id),
        state.with_vertex_row(first_columns, first_label_name, first_row).unwrap().registry.kept_by(
            later.registry,
        ),
        row_label(second_columns, second_label_name, second_row).is_ok(),
        family_of(row_label(second_columns, second_label_name, second_row).unwrap()) == Some(family),
        row_id(second_row, 0) == Ok::<u64, ImportError>(id),
    ensures
        later.with_vertex_row(second_columns, second_label_name, second_row) == Err::<
            ContextView,
            ImportError,
        >(ImportError::DuplicateIdentifier { family, id }),
{
    let mid = state.with_vertex_row(first_columns, first_label_name, first_row).unwrap();
    assert(mid.registry.of(family).contains_key(id));
    assert(later.registry.of(family).contains_key(id));
}

/// An endpoint that an edge file declares as a family takes the label that
/// the vertex of its identifier was registered with, not the label that the
/// file declares: once a vertex row has registered `id` with its label, in
/// every state that keeps what the registry held then, an edge row whose
/// source (or destination) is `id` of that family is counted under that
/// label.
pub proof fn lemma_endpoint_takes_registered_label(
    state: ContextView,
    later: ContextView,
    family: Family,
    id: u64,
    vertex_columns: VertexColumns,
    label_name: Seq<char>,
    vertex_row: Seq<Seq<char>>,
    header: Seq<Seq<char>>,
    src_label: Seq<char>,
    edge_label: Seq<char>,
    dst_label: Seq<char>,
    edge_row: Seq<Seq<char>>,
)
    requires
        state.with_vertex_row(vertex_columns, label_name, vertex_row).is_ok(),
        family_of(row_label(vertex_columns, label_name, vertex_row).unwrap()) == Some(family),
        row_id(vertex_row, 0) == Ok::<u64, ImportError>(id),
        state.with_vertex_row(vertex_columns, label_name, vertex_row).unwrap().registry.kept_by(
            later.registry,
        ),
        edge_columns(header, src_label, dst_label).is_ok(),
        later.edge_triple(
            edge_columns(header, src_label, dst_label).unwrap(),
            src_label,
            edge_label,
            dst_label,
            edge_row,
        ).is_ok(),
    ensures
        ({
            let registered = row_label(vertex_columns, label_name, vertex_row).unwrap();
            let columns = edge_columns(header, src_label, dst_label).unwrap();
            let counted = later.edge_triple(columns, src_label, edge_label, dst_label, edge_row).unwrap();
            &&& endpoint_family(src_label) == Some(family) && row_id(edge_row, 0) == Ok::<
                u64,
                ImportError,
            >(id) ==> counted.0 == registered
            &&& endpoint_family(dst_label) == Some(family) && row_id(edge_row, 1) == Ok::<
                u64,
                ImportError,
            >(id) ==> counted.2 == registered
            &&& endpoint_family(src_label).is_none() ==> counted.0 == src_label
            &&& endpoint_family(dst_label).is_none() ==> counted.2 == dst_label
            &&& counted.1 == edge_label
        }),
{
    let mid = state.with_vertex_row(vertex_columns, label_name, vertex_row).unwrap();
    let registered = row_label(vertex_columns, label_name, vertex_row).unwrap();
    assert(mid.registry.of(family).contains_key(id));
    assert(mid.registry.of(family)[id] == registered);
    assert(later.registry.of(family).contains_key(id));
    assert(later.registry.of(family)[id] == registered);
}

/// Before anything is imported the state is consistent.
pub proof fn lemma_empty_is_consistent()
    ensures
        consistent(ContextView::empty()),
{
    let state = ContextView::empty();
    assert(labelled(state.statistics.vertex_cardinality) =~= Map::<Seq<char>, nat>::empty());
    assert forall|k: Triple| #[trigger]
        count_of(state.statistics.edge_cardinality, k) == total(
            covered(state.statistics.edge_cardinality, k),
        ) by {
        assert(covered(state.statistics.edge_cardinality, k) =~= Map::<Triple, nat>::empty());
    }
}

/// A vertex file of which no row that is taken has the empty label keeps
/// the state consistent, whether it is imported to its end or not.
pub proof fn lemma_vertex_file_keeps_consistent(
    state: ContextView,
    header: Seq<Seq<char>>,
    rows: Seq<Seq<Seq<char>>>,
    label_name: Seq<char>,
)
    requires
        consistent(state),
        vertex_columns(header).is_ok() ==> rows_are_labelled(
            state,
            vertex_columns(header).unwrap(),
            label_name,
            rows,
        ),
    ensures
        consistent(state.with_vertex_file(header, rows, label_name).0),
{
    if vertex_columns(header).is_ok() {
        let columns = vertex_columns(header).unwrap();
        lemma_vertex_rows_add_up(state, columns, label_name, rows);
        lemma_vertex_rows_keep_registry(state, columns, label_name, rows);
    }
}

/// An edge file whose name declares no empty label keeps the state
/// consistent, whether it is imported to its end or not.
pub proof fn lemma_edge_file_keeps_consistent(
    state: ContextView,
    header: Seq<Seq<char>>,
    rows: Seq<Seq<Seq<char>>>,
    src_label: Seq<char>,
    edge_label: Seq<char>,
    dst_label: Seq<char>,
)
    requires
        consistent(state),
        concrete((src_label, edge_label, dst_label)),
    ensures
        consistent(state.with_edge_file(header, rows, src_label, edge_label, dst_label).0),
{
    if edge_columns(header, src_label, dst_label).is_ok() {
        let columns = edge_columns(header, src_label, dst_label).unwrap();
        assert forall|i: int|
            0 <= i < rows.len() && state.with_edge_rows(
                columns,
                src_label,
                edge_label,
                dst_label,
                rows.take(i + 1),
            ).1.is_ok() implies match state.edge_triple(
            columns,
            src_label,
            edge_label,
            dst_label,
            #[trigger] rows[i],
        ) {
            Ok(triple) => concrete(triple),
            Err(_) => true,
        } by {
            let found = state.edge_triple(columns, src_label, edge_label, dst_label, rows[i]);
            if found.is_ok() {
                let src_id = row_id(rows[i], 0).unwrap();
                let dst_id = row_id(rows[i], 1).unwrap();
                if columns.src_family.is_some() {
                    let family = columns.src_family.unwrap();
                    assert(family_of(state.registry.of(family)[src_id]) == Some(family));
                    lemma_family_label_is_not_empty(found.unwrap().0);
                }
                if columns.dst_family.is_some() {
                    let family = columns.dst_family.unwrap();
                    assert(family_of(state.registry.of(family)[dst_id]) == Some(family));
                    lemma_family_label_is_not_empty(found.unwrap().2);
                }
            }
        }
        lemma_edge_rows_add_up(state, columns, src_label, edge_label, dst_label, rows);
        lemma_edge_rows_hold_all_roll_ups(state, columns, src_label, edge_label, dst_label, rows);
    }
}

} // verus!
