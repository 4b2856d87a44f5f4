//! The header of a file: column names of the shape `name:TYPE`, of which
//! the types that begin with `ID`, `START_ID` and `END_ID` mark identifier
//! columns and the type `LABEL` marks the column that holds each row's label.

use crate::error::{Family, ImportError};
use crate::label::{endpoint_family, family_of_endpoint};
use crate::text::{split, starts_with, str_eq, tokens};
use vstd::prelude::*;

verus! {

/// What the header of a vertex file says of its rows. The identifier is the
/// first field of a row.
#[derive(Clone, Copy, Debug, PartialEq, Eq, Structural)]
pub struct VertexColumns {
    /// The field that holds the row's label, where the file has one.
    pub label: Option<usize>,
}

/// What the header of an edge file and its declared labels say of its rows.
/// The identifiers of source and destination are the first two fields of a
/// row.
#[derive(Clone, Copy, Debug, PartialEq, Eq, Structural)]
pub struct EdgeColumns {
    /// The family whose registry gives the label of the source, where the
    /// file declares its source as a family.
    pub src_family: Option<Family>,
    /// The same for the destination.
    pub dst_family: Option<Family>,
}

/// The type of a header column: what stands between its first colon and
/// its second, or its end. A column without a colon has none.
pub open spec fn column_type(column: Seq<char>) -> Option<Seq<char>> {
    let parts = tokens(column, ':');
    if parts.len() >= 2 {
        Some(parts[1])
    } else {
        None
    }
}

/// Whether the column holds each row's label.
pub open spec fn is_label_column(column: Seq<char>) -> bool {
    column_type(column) == Some("LABEL"@)
}

/// Whether the column is one whose type begins with `marker`.
pub open spec fn is_marked(column: Seq<char>, marker: Seq<char>) -> bool {
    match column_type(column) {
        Some(found) => marker.is_prefix_of(found),
        None => false,
    }
}

/// Whether the column holds the identifier of a vertex.
pub open spec fn is_id_column(column: Seq<char>) -> bool {
    is_marked(column, "ID"@)
}

/// Whether the column holds the identifier of the source of an edge.
pub open spec fn is_start_column(column: Seq<char>) -> bool {
    is_marked(column, "START_ID"@)
}

/// Whether the column holds the identifier of the destination of an edge.
pub open spec fn is_end_column(column: Seq<char>) -> bool {
    is_marked(column, "END_ID"@)
}

/// What is wrong with column `at` of the header of a vertex file: it has no
/// type, it is a label column after another, or it is an identifier column
/// that is not the first column.
pub open spec fn vertex_column_fault(header: Seq<Seq<char>>, at: int) -> Option<ImportError> {
    if column_type(header[at]).is_none() {
        Some(ImportError::MalformedColumn { index: at as usize })
    } else if is_label_column(header[at]) && exists|j: int|
        0 <= j < at && is_label_column(#[trigger] header[j]) {
        Some(ImportError::DuplicateLabelColumn { index: at as usize })
    } else if is_id_column(header[at]) && at != 0 {
        Some(ImportError::MisplacedIdColumn { index: at as usize })
    } else {
        None
    }
}

/// What is wrong with column `at` of the header of an edge file: it has no
/// type, it is a source column that is not the first column, or it is a
/// destination column that is not the second.
pub open spec fn edge_column_fault(header: Seq<Seq<char>>, at: int) -> Option<ImportError> {
    if column_type(header[at]).is_none() {
        Some(ImportError::MalformedColumn { index: at as usize })
    } else if is_start_column(header[at]) && at != 0 {
        Some(ImportError::MisplacedIdColumn { index: at as usize })
    } else if is_end_column(header[at]) && at != 1 {
        Some(ImportError::MisplacedIdColumn { index: at as usize })
    } else {
        None
    }
}

/// The fault of the first faulty column among the first `n` of the header
/// of a vertex file.
pub open spec fn first_vertex_fault(header: Seq<Seq<char>>, n: int) -> Option<ImportError>
    decreases n,
{
    if n <= 0 {
        None
    } else {
        match first_vertex_fault(header, n - 1) {
            Some(fault) => Some(fault),
            None => vertex_column_fault(header, n - 1),
        }
    }
}

/// The fault of the first faulty column among the first `n` of the header
/// of an edge file.
pub open spec fn first_edge_fault(header: Seq<Seq<char>>, n: int) -> Option<ImportError>
    decreases n,
{
    if n <= 0 {
        None
    } else {
        match first_edge_fault(header, n - 1) {
            Some(fault) => Some(fault),
            None => edge_column_fault(header, n - 1),
        }
    }
}

/// The label column of a header, where it has one.
pub open spec fn label_column(header: Seq<Seq<char>>) -> Option<usize> {
    if exists|j: int| 0 <= j < header.len() && is_label_column(#[trigger] header[j]) {
        Some((choose|j: int| 0 <= j < header.len() && is_label_column(#[trigger] header[j])) as usize)
    } else {
        None
    }
}

/// What the header of a vertex file says: the fault of its first faulty
/// column; else, that it lacks the identifier column which must come first;
/// else where its label column is.
pub open spec fn vertex_columns(header: Seq<Seq<char>>) -> Result<VertexColumns, ImportError> {
    match first_vertex_fault(header, header.len() as int) {
        Some(fault) => Err(fault),
        None => if header.len() == 0 || !is_id_column(header[0]) {
            Err(ImportError::MissingIdColumn { index: 0 })
        } else {
            Ok(VertexColumns { label: label_column(header) })
        },
    }
}

/// What the header of an edge file says: the fault of its first faulty
/// column; else, that it lacks the source column which must come first or
/// the destination column which must come second; else which endpoints are
/// declared as a family and so are looked up in the registry.
pub open spec fn edge_columns(header: Seq<Seq<char>>, src_label: Seq<char>, dst_label: Seq<char>) -> Result<
    EdgeColumns,
    ImportError,
> {
    match first_edge_fault(header, header.len() as int) {
        Some(fault) => Err(fault),
        None => if header.len() == 0 || !is_start_column(header[0]) {
            Err(ImportError::MissingIdColumn { index: 0 })
        } else if header.len() == 1 || !is_end_column(header[1]) {
            Err(ImportError::MissingIdColumn { index: 1 })
        } else {
            Ok(
                EdgeColumns {
                    src_family: endpoint_family(src_label),
                    dst_family: endpoint_family(dst_label),
                },
            )
        },
    }
}

/// The type of a header column.
pub fn column_type_of(column: &str) -> (out: Option<String>)
    ensures
        match out {
            Some(found) => column_type(column@) == Some(found@),
            None => column_type(column@).is_none(),
        },
{
    let parts = split(column, ':');
    if parts.len() >= 2 {
        Some(parts[1].clone())
    } else {
        None
    }
}

/// Reads the header of a vertex file: every column must have a type, the
/// identifier column must be the first column and the only one of its type,
/// and at most one column may hold the label of each row.
pub fn read_vertex_header(header: &Vec<String>) -> (out: Result<VertexColumns, ImportError>)
    ensures
        out == vertex_columns(header.deep_view()),
{
    let ghost columns = header.deep_view();
    let mut label: Option<usize> = None;
    let mut has_id = false;
    let mut i: usize = 0;
    while i < header.len()
        invariant
            i <= header@.len(),
            columns == header.deep_view(),
            first_vertex_fault(columns, i as int).is_none(),
            has_id == (i > 0 && is_id_column(columns[0])),
            match label {
                Some(at) => at < i && is_label_column(columns[at as int]),
                None => forall|j: int| 0 <= j < i ==> !is_label_column(#[trigger] columns[j]),
            },
        decreases header@.len() - i,
    {
        assert(columns[i as int] == header@[i as int]@);
        let found = match column_type_of(header[i].as_str()) {
            Some(found) => found,
            None => {
                proof {
                    lemma_first_vertex_fault_stays(columns, i + 1, columns.len() as int);
                }
                return Err(ImportError::MalformedColumn { index: i });
            },
        };
        proof {
            reveal_strlit("LABEL");
            reveal_strlit("ID");
            assert(!"ID"@.is_prefix_of("LABEL"@)) by {
                assert("LABEL"@.subrange(0, 2)[0] == 'L');
            }
        }
        if str_eq(found.as_str(), "LABEL") {
            if label.is_some() {
                proof {
                    lemma_first_vertex_fault_stays(columns, i + 1, columns.len() as int);
                }
                return Err(ImportError::DuplicateLabelColumn { index: i });
            }
            label = Some(i);
        } else if starts_with(found.as_str(), "ID") {
            if i != 0 {
                proof {
                    lemma_first_vertex_fault_stays(columns, i + 1, columns.len() as int);
                }
                return Err(ImportError::MisplacedIdColumn { index: i });
            }
            has_id = true;
        }
        i += 1;
    }
    if !has_id {
        return Err(ImportError::MissingIdColumn { index: 0 });
    }
    proof {
        match label {
            Some(at) => {
                let chosen = choose|j: int|
                    0 <= j < columns.len() && is_label_column(#[trigger] columns[j]);
                if chosen != at {
                    let later = if chosen < at {
                        at as int
                    } else {
                        chosen
                    };
                    lemma_first_vertex_fault_stays(columns, later + 1, columns.len() as int);
                    assert(vertex_column_fault(columns, later).is_some());
                }
            },
            None => {},
        }
    }
    Ok(VertexColumns { label })
}

/// Reads the header of an edge file whose name declares the labels of
/// source and destination: every column must have a type, the source column
/// must be the first column and the destination column the second, each the
/// only one of its type. An endpoint that is declared as a family is noted
/// as one whose label the registry gives.
pub fn read_edge_header(header: &Vec<String>, src_label: &str, dst_label: &str) -> (out: Result<
    EdgeColumns,
    ImportError,
>)
    ensures
        out == edge_columns(header.deep_view(), src_label@, dst_label@),
{
    let ghost columns = header.deep_view();
    let mut has_start = false;
    let mut has_end = false;
    let mut i: usize = 0;
    while i < header.len()
        invariant
            i <= header@.len(),
            columns == header.deep_view(),
            first_edge_fault(columns, i as int).is_none(),
            has_start == (i > 0 && is_start_column(columns[0])),
            has_end == (i > 1 && is_end_column(columns[1])),
        decreases header@.len() - i,
    {
        assert(columns[i as int] == header@[i as int]@);
        let found = match column_type_of(header[i].as_str()) {
            Some(found) => found,
            None => {
                proof {
                    lemma_first_edge_fault_stays(columns, i + 1, columns.len() as int);
                }
                return Err(ImportError::MalformedColumn { index: i });
            },
        };
        proof {
            reveal_strlit("START_ID");
            reveal_strlit("END_ID");
            assert forall|t: Seq<char>| !("START_ID"@.is_prefix_of(t) && "END_ID"@.is_prefix_of(t)) by {
                if "START_ID"@.is_prefix_of(t) && "END_ID"@.is_prefix_of(t) {
                    assert(t.subrange(0, 8)[0] == 'S');
                    assert(t.subrange(0, 6)[0] == 'E');
                }
            }
        }
        if starts_with(found.as_str(), "START_ID") {
            if i != 0 {
                proof {
                    lemma_first_edge_fault_stays(columns, i + 1, columns.len() as int);
                }
                return Err(ImportError::MisplacedIdColumn { index: i });
            }
            has_start = true;
        } else if starts_with(found.as_str(), "END_ID") {
            if i != 1 {
                proof {
                    lemma_first_edge_fault_stays(columns, i + 1, columns.len() as int);
                }
                return Err(ImportError::MisplacedIdColumn { index: i });
            }
            has_end = true;
        }
        i += 1;
    }
    if !has_start {
        return Err(ImportError::MissingIdColumn { index: 0 });
    }
    if !has_end {
        return Err(ImportError::MissingIdColumn { index: 1 });
    }
    Ok(
        EdgeColumns {
            src_family: family_of_endpoint(src_label),
            dst_family: family_of_endpoint(dst_label),
        },
    )
}

/// Once a column is found faulty, the fault stays the first as more columns
/// are looked at.
pub proof fn lemma_first_vertex_fault_stays(header: Seq<Seq<char>>, n: int, m: int)
    requires
        0 <= n <= m,
        first_vertex_fault(header, n).is_some(),
    ensures
        first_vertex_fault(header, m) == first_vertex_fault(header, n),
    decreases m - n,
{
    if n < m {
        lemma_first_vertex_fault_stays(header, n, m - 1);
    }
}

/// Once a column is found faulty, the fault stays the first as more columns
/// are looked at.
pub proof fn lemma_first_edge_fault_stays(header: Seq<Seq<char>>, n: int, m: int)
    requires
        0 <= n <= m,
        first_edge_fault(header, n).is_some(),
    ensures
        first_edge_fault(header, m) == first_edge_fault(header, n),
    decreases m - n,
{
    if n < m {
        lemma_first_edge_fault_stays(header, n, m - 1);
    }
}

} // verus!
