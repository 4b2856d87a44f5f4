//! The import itself: rows of vertex files and of edge files are taken one
//! by one, in the order of the file, and each either changes the statistics
//! and the registry or stops the run with an error. A row that fails changes
//! nothing.

use crate::error::{Family, ImportError};
use crate::header::{
    edge_columns, read_edge_header, read_vertex_header, vertex_columns, EdgeColumns, VertexColumns,
};
use crate::label::{family_of, family_of_label};
use crate::registry::{IdentityRegistry, RegistryView};
use crate::rollup::Triple;
use crate::stats::{Statistics, StatisticsView};
use crate::text::{number, parse_u64};
use vstd::prelude::*;

verus! {

/// The label of a row of a vertex file: what its label column holds, or
/// the label of the file where it has no such column.
pub open spec fn row_label(columns: VertexColumns, label_name: Seq<char>, row: Seq<Seq<char>>) -> Result<
    Seq<char>,
    ImportError,
> {
    match columns.label {
        Some(at) => if at < row.len() {
            Ok(row[at as int])
        } else {
            Err(ImportError::MissingField { index: at })
        },
        None => Ok(label_name),
    }
}

/// The identifier that the field `at` of a row holds.
pub open spec fn row_id(row: Seq<Seq<char>>, at: usize) -> Result<u64, ImportError> {
    if at < row.len() {
        match number(row[at as int]) {
            Some(id) => Ok(id),
            None => Err(ImportError::BadIdentifier { index: at }),
        }
    } else {
        Err(ImportError::MissingField { index: at })
    }
}

/// What a `Context` stands for.
pub struct ContextView {
    pub statistics: StatisticsView,
    pub registry: RegistryView,
}

impl ContextView {
    /// The state before anything is imported.
    pub open spec fn empty() -> ContextView {
        ContextView { statistics: StatisticsView::empty(), registry: RegistryView::empty() }
    }

    /// The state after one row of a vertex file, or why the row is refused.
    /// The row is counted under its label and under the wildcard. Where the
    /// label belongs to a family, the row's identifier is first registered
    /// with the label in that family.
    pub open spec fn with_vertex_row(
        self,
        columns: VertexColumns,
        label_name: Seq<char>,
        row: Seq<Seq<char>>,
    ) -> Result<ContextView, ImportError> {
        match row_label(columns, label_name, row) {
            Err(e) => Err(e),
            Ok(label) => match family_of(label) {
                Some(family) => match row_id(row, 0) {
                    Err(e) => Err(e),
                    Ok(id) => if self.registry.of(family).contains_key(id) {
                        Err(ImportError::DuplicateIdentifier { family, id })
                    } else if !self.statistics.has_room_for_vertex(label) {
                        Err(ImportError::CountOverflow)
                    } else {
                        Ok(
                            ContextView {
                                statistics: self.statistics.with_vertex(label),
                                registry: self.registry.with(family, id, label),
                            },
                        )
                    },
                },
                None => if !self.statistics.has_room_for_vertex(label) {
                    Err(ImportError::CountOverflow)
                } else {
                    Ok(
                        ContextView {
                            statistics: self.statistics.with_vertex(label),
                            registry: self.registry,
                        },
                    )
                },
            },
        }
    }

    /// The label of an endpoint of an edge: the label registered for its
    /// identifier where the file declares the endpoint as a family, else the
    /// label that the file declares.
    pub open spec fn endpoint_label(self, family: Option<Family>, declared: Seq<char>, id: u64) -> Result<
        Seq<char>,
        ImportError,
    > {
        match family {
            Some(family) => if self.registry.of(family).contains_key(id) {
                Ok(self.registry.of(family)[id])
            } else {
                Err(ImportError::UnknownIdentifier { family, id })
            },
            None => Ok(declared),
        }
    }

    /// The triple of labels under which a row of an edge file is counted, or
    /// why the row is refused: both identifiers are read, then the label of
    /// the source is found, then the label of the destination.
    pub open spec fn edge_triple(
        self,
        columns: EdgeColumns,
        src_label: Seq<char>,
        edge_label: Seq<char>,
        dst_label: Seq<char>,
        row: Seq<Seq<char>>,
    ) -> Result<Triple, ImportError> {
        match row_id(row, 0) {
            Err(e) => Err(e),
            Ok(src_id) => match row_id(row, 1) {
                Err(e) => Err(e),
                Ok(dst_id) => match self.endpoint_label(columns.src_family, src_label, src_id) {
                    Err(e) => Err(e),
                    Ok(src) => match self.endpoint_label(columns.dst_family, dst_label, dst_id) {
                        Err(e) => Err(e),
                        Ok(dst) => Ok((src, edge_label, dst)),
                    },
                },
            },
        }
    }

    /// The state after one row of an edge file, or why the row is refused.
    /// The edge is counted under the eight roll-ups of its triple.
    pub open spec fn with_edge_row(
        self,
        columns: EdgeColumns,
        src_label: Seq<char>,
        edge_label: Seq<char>,
        dst_label: Seq<char>,
        row: Seq<Seq<char>>,
    ) -> Result<ContextView, ImportError> {
        match self.edge_triple(columns, src_label, edge_label, dst_label, row) {
            Err(e) => Err(e),
            Ok((src, edge, dst)) => if !self.statistics.has_room_for_edge(src, edge, dst) {
                Err(ImportError::CountOverflow)
            } else {
                Ok(
                    ContextView {
                        statistics: self.statistics.with_edge(src, edge, dst),
                        registry: self.registry,
                    },
                )
            },
        }
    }

    /// The state after the rows of a vertex file, taken in order up to the
    /// first that is refused, and whether and why one was refused.
    pub open spec fn with_vertex_rows(
        self,
        columns: VertexColumns,
        label_name: Seq<char>,
        rows: Seq<Seq<Seq<char>>>,
    ) -> (ContextView, Result<(), ImportError>)
        decreases rows.len(),
    {
        if rows.len() == 0 {
            (self, Ok(()))
        } else {
            let (state, outcome) = self.with_vertex_rows(columns, label_name, rows.drop_last());
            if outcome.is_err() {
                (state, outcome)
            } else {
                match state.with_vertex_row(columns, label_name, rows.last()) {
                    Ok(next) => (next, Ok(())),
                    Err(e) => (state, Err(e)),
                }
            }
        }
    }

    /// The state after the rows of an edge file, taken in order up to the
    /// first that is refused, and whether and why one was refused.
    pub open spec fn with_edge_rows(
        self,
        columns: EdgeColumns,
        src_label: Seq<char>,
        edge_label: Seq<char>,
        dst_label: Seq<char>,
        rows: Seq<Seq<Seq<char>>>,
    ) -> (ContextView, Result<(), ImportError>)
        decreases rows.len(),
    {
        if rows.len() == 0 {
            (self, Ok(()))
        } else {
            let (state, outcome) = self.with_edge_rows(
                columns,
                src_label,
                edge_label,
                dst_label,
                rows.drop_last(),
            );
            if outcome.is_err() {
                (state, outcome)
            } else {
                match state.with_edge_row(columns, src_label, edge_label, dst_label, rows.last()) {
                    Ok(next) => (next, Ok(())),
                    Err(e) => (state, Err(e)),
                }
            }
        }
    }

    /// The state after a vertex file: its header is read, then its rows.
    pub open spec fn with_vertex_file(
        self,
        header: Seq<Seq<char>>,
        rows: Seq<Seq<Seq<char>>>,
        label_name: Seq<char>,
    ) -> (ContextView, Result<(), ImportError>) {
        match vertex_columns(header) {
            Err(e) => (self, Err(e)),
            Ok(columns) => self.with_vertex_rows(columns, label_name, rows),
        }
    }

    /// The state after an edge file: its header is read, then its rows.
    pub open spec fn with_edge_file(
        self,
        header: Seq<Seq<char>>,
        rows: Seq<Seq<Seq<char>>>,
        src_label: Seq<char>,
        edge_label: Seq<char>,
        dst_label: Seq<char>,
    ) -> (ContextView, Result<(), ImportError>) {
        match edge_columns(header, src_label, dst_label) {
            Err(e) => (self, Err(e)),
            Ok(columns) => self.with_edge_rows(columns, src_label, edge_label, dst_label, rows),
        }
    }
}

/// The state of a run: the statistics gathered so far and the registry of
/// the vertices that edges name by identifier.
pub struct Context {
    pub statistics: Statistics,
    pub registry: IdentityRegistry,
}

impl View for Context {
    type V = ContextView;

    open spec fn view(&self) -> ContextView {
        ContextView { statistics: self.statistics@, registry: self.registry@ }
    }
}

/// The identifier in field `at` of a row.
fn read_id(row: &Vec<String>, at: usize) -> (out: Result<u64, ImportError>)
    ensures
        out == row_id(row.deep_view(), at),
{
    if at < row.len() {
        assert(row.deep_view()[at as int] == row@[at as int]@);
        match parse_u64(row[at].as_str()) {
            Some(id) => Ok(id),
            None => Err(ImportError::BadIdentifier { index: at }),
        }
    } else {
        Err(ImportError::MissingField { index: at })
    }
}

impl Context {
    /// The state before anything is imported.
    pub fn new() -> (out: Self)
        ensures
            out@ == ContextView::empty(),
    {
        Context { statistics: Statistics::new(), registry: IdentityRegistry::new() }
    }

    /// Takes one row of a vertex file whose header said `columns` and whose
    /// name said `label_name`.
    ///
    /// The row is counted under its label and under the wildcard; its label
    /// is the field of the label column or, where the file has none,
    /// `label_name`. Where the label belongs to a family, the identifier of
    /// the row, its first field, is registered with the label.
    ///
    /// The row is refused, and nothing changes, where it lacks the label
    /// field; where its label belongs to a family and the identifier is
    /// missing, is no number or is held by the family already; or where a
    /// count would pass 64 bits.
    pub fn accept_vertex_row(&mut self, columns: &VertexColumns, label_name: &str, row: &Vec<String>) -> (out:
        Result<(), ImportError>)
        ensures
            match old(self)@.with_vertex_row(*columns, label_name@, row.deep_view()) {
                Ok(next) => out.is_ok() && final(self)@ == next,
                Err(e) => out == Err::<(), ImportError>(e) && final(self)@ == old(self)@,
            },
    {
        let label: &str = match columns.label {
            Some(at) => {
                if at < row.len() {
                    assert(row.deep_view()[at as int] == row@[at as int]@);
                    row[at].as_str()
                } else {
                    return Err(ImportError::MissingField { index: at });
                }
            },
            None => label_name,
        };
        match family_of_label(label) {
            Some(family) => {
                let id = match read_id(row, 0) {
                    Ok(id) => id,
                    Err(e) => {
                        return Err(e);
                    },
                };
                if self.registry.contains(family, id) {
                    return Err(ImportError::DuplicateIdentifier { family, id });
                }
                if !self.statistics.has_room_for_vertex(label) {
                    return Err(ImportError::CountOverflow);
                }
                match self.registry.register(family, id, label) {
                    Ok(_) => self.statistics.count_vertex(label),
                    Err(e) => Err(e),
                }
            },
            None => self.statistics.count_vertex(label),
        }
    }

    /// The label of an endpoint of an edge.
    fn label_of_endpoint(&self, family: Option<Family>, declared: &str, id: u64) -> (out: Result<
        String,
        ImportError,
    >)
        ensures
            match out {
                Ok(label) => self@.endpoint_label(family, declared@, id) == Ok::<Seq<char>, ImportError>(
                    label@,
                ),
                Err(e) => self@.endpoint_label(family, declared@, id) == Err::<Seq<char>, ImportError>(e),
            },
    {
        match family {
            Some(family) => self.registry.resolve(family, id),
            None => Ok(declared.to_owned()),
        }
    }

    /// Takes one row of an edge file whose header said `columns` and whose
    /// name said the three labels.
    ///
    /// The first two fields of the row are the identifiers of source and
    /// destination. An endpoint that the file declares as a family takes the
    /// label registered for its identifier, any other the declared label. The
    /// edge is counted under the eight roll-ups of its triple of labels.
    ///
    /// The row is refused, and nothing changes, where an identifier is
    /// missing or is no number, where the family of an endpoint does not hold
    /// its identifier, or where a count would pass 64 bits.
    pub fn accept_edge_row(
        &mut self,
        columns: &EdgeColumns,
        src_label: &str,
        edge_label: &str,
        dst_label: &str,
        row: &Vec<String>,
    ) -> (out: Result<(), ImportError>)
        ensures
            match old(self)@.with_edge_row(
                *columns,
                src_label@,
                edge_label@,
                dst_label@,
                row.deep_view(),
            ) {
                Ok(next) => out.is_ok() && final(self)@ == next,
                Err(e) => out == Err::<(), ImportError>(e) && final(self)@ == old(self)@,
            },
    {
        let src_id = match read_id(row, 0) {
            Ok(id) => id,
            Err(e) => {
                return Err(e);
            },
        };
        let dst_id = match read_id(row, 1) {
            Ok(id) => id,
            Err(e) => {
                return Err(e);
            },
        };
        let src = match self.label_of_endpoint(columns.src_family, src_label, src_id) {
            Ok(label) => label,
            Err(e) => {
                return Err(e);
            },
        };
        let dst = match self.label_of_endpoint(columns.dst_family, dst_label, dst_id) {
            Ok(label) => label,
            Err(e) => {
                return Err(e);
            },
        };
        self.statistics.count_edge(src.as_str(), edge_label, dst.as_str())
    }

    /// Imports a vertex file given as its header and its rows: the header is
    /// read, then the rows are taken in order. The first failure stops the
    /// import; the rows before it stay counted.
    pub fn import_vertex(&mut self, header: &Vec<String>, rows: &Vec<Vec<String>>, label_name: &str) -> (out:
        Result<(), ImportError>)
        ensures
            (final(self)@, out) == old(self)@.with_vertex_file(
                header.deep_view(),
                rows.deep_view(),
                label_name@,
            ),
    {
        let columns = match read_vertex_header(header) {
            Ok(columns) => columns,
            Err(e) => {
                return Err(e);
            },
        };
        let ghost start = self@;
        let ghost all = rows.deep_view();
        let mut i: usize = 0;
        assert(all.take(0) =~= Seq::<Seq<Seq<char>>>::empty());
        while i < rows.len()
            invariant
                i <= rows@.len(),
                all == rows.deep_view(),
                start == old(self)@,
                vertex_columns(header.deep_view()) == Ok::<VertexColumns, ImportError>(columns),
                start.with_vertex_rows(columns, label_name@, all.take(i as int)) == (
                    self@,
                    Ok::<(), ImportError>(()),
                ),
            decreases rows@.len() - i,
        {
            assert(all.take(i + 1).drop_last() =~= all.take(i as int));
            assert(all.take(i + 1).last() == rows@[i as int].deep_view());
            match self.accept_vertex_row(&columns, label_name, &rows[i]) {
                Ok(_) => {},
                Err(e) => {
                    proof {
                        lemma_vertex_rows_stop(start, columns, label_name@, all, i + 1);
                    }
                    return Err(e);
                },
            }
            i += 1;
        }
        assert(all.take(i as int) =~= all);
        Ok(())
    }

    /// Imports an edge file given as its header and its rows: the header is
    /// read, then the rows are taken in order. The first failure stops the
    /// import; the rows before it stay counted.
    pub fn import_edge(
        &mut self,
        header: &Vec<String>,
        rows: &Vec<Vec<String>>,
        src_label: &str,
        edge_label: &str,
        dst_label: &str,
    ) -> (out: Result<(), ImportError>)
        ensures
            (final(self)@, out) == old(self)@.with_edge_file(
                header.deep_view(),
                rows.deep_view(),
                src_label@,
                edge_label@,
                dst_label@,
            ),
    {
        let columns = match read_edge_header(header, src_label, dst_label) {
            Ok(columns) => columns,
            Err(e) => {
                return Err(e);
            },
        };
        let ghost start = self@;
        let ghost all = rows.deep_view();
        let mut i: usize = 0;
        assert(all.take(0) =~= Seq::<Seq<Seq<char>>>::empty());
        while i < rows.len()
            invariant
                i <= rows@.len(),
                all == rows.deep_view(),
                start == old(self)@,
                edge_columns(header.deep_view(), src_label@, dst_label@) == Ok::<
                    EdgeColumns,
                    ImportError,
                >(columns),
                start.with_edge_rows(columns, src_label@, edge_label@, dst_label@, all.take(i as int))
                    == (self@, Ok::<(), ImportError>(())),
            decreases rows@.len() - i,
        {
            assert(all.take(i + 1).drop_last() =~= all.take(i as int));
            assert(all.take(i + 1).last() == rows@[i as int].deep_view());
            match self.accept_edge_row(&columns, src_label, edge_label, dst_label, &rows[i]) {
                Ok(_) => {},
                Err(e) => {
                    proof {
                        lemma_edge_rows_stop(
                            start,
                            columns,
                            src_label@,
                            edge_label@,
                            dst_label@,
                            all,
                            i + 1,
                        );
                    }
                    return Err(e);
                },
            }
            i += 1;
        }
        assert(all.take(i as int) =~= all);
        Ok(())
    }
}

impl Default for Context {
    fn default() -> (out: Self)
        ensures
            out@ == ContextView::empty(),
    {
        Context::new()
    }
}

/// Once a row of a vertex file is refused, the rows after it change
/// nothing.
pub proof fn lemma_vertex_rows_stop(
    start: ContextView,
    columns: VertexColumns,
    label_name: Seq<char>,
    rows: Seq<Seq<Seq<char>>>,
    n: int,
)
    requires
        0 <= n <= rows.len(),
        start.with_vertex_rows(columns, label_name, rows.take(n)).1.is_err(),
    ensures
        start.with_vertex_rows(columns, label_name, rows) == start.with_vertex_rows(
            columns,
            label_name,
            rows.take(n),
        ),
    decreases rows.len() - n,
{
    if n < rows.len() {
        assert(rows.drop_last().take(n) =~= rows.take(n));
        lemma_vertex_rows_stop(start, columns, label_name, rows.drop_last(), n);
    } else {
        assert(rows.take(n) =~= rows);
    }
}

/// Once a row of an edge file is refused, the rows after it change nothing.
pub proof fn lemma_edge_rows_stop(
    start: ContextView,
    columns: EdgeColumns,
    src_label: Seq<char>,
    edge_label: Seq<char>,
    dst_label: Seq<char>,
    rows: Seq<Seq<Seq<char>>>,
    n: int,
)
    requires
        0 <= n <= rows.len(),
        start.with_edge_rows(columns, src_label, edge_label, dst_label, rows.take(n)).1.is_err(),
    ensures
        start.with_edge_rows(columns, src_label, edge_label, dst_label, rows)
            == start.with_edge_rows(columns, src_label, edge_label, dst_label, rows.take(n)),
    decreases rows.len() - n,
{
    if n < rows.len() {
        assert(rows.drop_last().take(n) =~= rows.take(n));
        lemma_edge_rows_stop(start, columns, src_label, edge_label, dst_label, rows.drop_last(), n);
    } else {
        assert(rows.take(n) =~= rows);
    }
}

} // verus!
