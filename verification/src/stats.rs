//! The statistics of a run: how many vertices each label has, and how many
//! edges each triple of source label, edge label and destination label has.
//! In both tables the empty string is the wildcard: it stands for any label,
//! and its entries hold the totals.

use crate::error::ImportError;
use crate::rollup::{
    any_edge, covered, edge_copies, edges_add_up, holds_all_roll_ups, labelled, lemma_edge_room,
    lemma_edges_add_up, lemma_holds_all_roll_ups, lemma_roll_ups_rise_together, lemma_vertex_room,
    lemma_vertices_add_up, roll_ups, vertex_keys, vertices_add_up, wildcard, Triple,
};
use crate::tally::{
    count_of, distinct_keys, dominated, fits, has_key, lemma_table_of_entry,
    lemma_table_of_finite, lemma_table_of_push, lemma_table_of_update, lemma_tallied_concat,
    lemma_tallied_finite, lemma_tallied_nothing, lemma_tallied_one, lemma_times_concat,
    lemma_times_last, lemma_times_positive, lemma_times_prefix, table_of, tallied, times, total,
};
use crate::text::str_eq;
use vstd::prelude::*;

verus! {

/// One line of the vertex table: a label and the number of its vertices.
#[derive(Clone, Debug, PartialEq, Eq)]
pub struct VertexCount {
    pub label: String,
    pub count: u64,
}

/// One line of the edge table: a triple of labels and the number of its
/// edges.
#[derive(Clone, Debug, PartialEq, Eq)]
pub struct EdgeCount {
    pub src: String,
    pub edge: String,
    pub dst: String,
    pub count: u64,
}

/// The lines of a vertex table as pairs of a key and its count.
pub open spec fn vertex_pairs(lines: Seq<VertexCount>) -> Seq<(Seq<char>, nat)> {
    Seq::new(lines.len(), |i: int| (lines[i].label@, lines[i].count as nat))
}

/// The lines of an edge table as pairs of a key and its count.
pub open spec fn edge_pairs(lines: Seq<EdgeCount>) -> Seq<(Triple, nat)> {
    Seq::new(
        lines.len(),
        |i: int| ((lines[i].src@, lines[i].edge@, lines[i].dst@), lines[i].count as nat),
    )
}

/// Where `label` stands among the lines.
fn vertex_position(lines: &Vec<VertexCount>, label: &str) -> (at: Option<usize>)
    ensures
        match at {
            Some(i) => i < lines@.len() && lines@[i as int].label@ == label@,
            None => !has_key(vertex_pairs(lines@), label@),
        },
{
    let mut i: usize = 0;
    while i < lines.len()
        invariant
            i <= lines@.len(),
            forall|j: int| 0 <= j < i ==> (#[trigger] vertex_pairs(lines@)[j]).0 != label@,
        decreases lines@.len() - i,
    {
        if str_eq(lines[i].label.as_str(), label) {
            return Some(i);
        }
        i += 1;
    }
    None
}

/// The count that the lines hold for `label`.
fn vertex_lookup(lines: &Vec<VertexCount>, label: &str) -> (count: u64)
    requires
        distinct_keys(vertex_pairs(lines@)),
    ensures
        count == count_of(table_of(vertex_pairs(lines@)), label@),
{
    match vertex_position(lines, label) {
        Some(i) => {
            proof {
                lemma_table_of_entry(vertex_pairs(lines@), i as int);
            }
            lines[i].count
        },
        None => 0,
    }
}

/// Counts one more vertex under `label`.
fn vertex_bump(lines: &mut Vec<VertexCount>, label: &str)
    requires
        distinct_keys(vertex_pairs(old(lines)@)),
        count_of(table_of(vertex_pairs(old(lines)@)), label@) < u64::MAX,
    ensures
        distinct_keys(vertex_pairs(final(lines)@)),
        table_of(vertex_pairs(final(lines)@)) == tallied(
            table_of(vertex_pairs(old(lines)@)),
            seq![label@],
        ),
{
    let ghost before = vertex_pairs(lines@);
    proof {
        lemma_tallied_one(table_of(before), label@);
    }
    match vertex_position(lines, label) {
        Some(i) => {
            proof {
                lemma_table_of_entry(before, i as int);
                lemma_table_of_update(before, i as int, before[i as int].1 + 1);
            }
            let count = lines[i].count;
            lines[i].count = count + 1;
            assert(vertex_pairs(lines@) =~= before.update(
                i as int,
                (before[i as int].0, before[i as int].1 + 1),
            ));
        },
        None => {
            proof {
                lemma_table_of_push(before, label@, 1);
            }
            lines.push(VertexCount { label: label.to_owned(), count: 1 });
            assert(vertex_pairs(lines@) =~= before.push((label@, 1nat)));
        },
    }
}

/// Where the triple stands among the lines.
fn edge_position(lines: &Vec<EdgeCount>, src: &str, edge: &str, dst: &str) -> (at: Option<usize>)
    ensures
        match at {
            Some(i) => {
                &&& i < lines@.len()
                &&& lines@[i as int].src@ == src@
                &&& lines@[i as int].edge@ == edge@
                &&& lines@[i as int].dst@ == dst@
            },
            None => !has_key(edge_pairs(lines@), (src@, edge@, dst@)),
        },
{
    let mut i: usize = 0;
    while i < lines.len()
        invariant
            i <= lines@.len(),
            forall|j: int| 0 <= j < i ==> (#[trigger] edge_pairs(lines@)[j]).0 != (src@, edge@, dst@),
        decreases lines@.len() - i,
    {
        let line = &lines[i];
        if str_eq(line.src.as_str(), src) && str_eq(line.edge.as_str(), edge) && str_eq(
            line.dst.as_str(),
            dst,
        ) {
            return Some(i);
        }
        i += 1;
    }
    None
}

/// The count that the lines hold for the triple.
fn edge_lookup(lines: &Vec<EdgeCount>, src: &str, edge: &str, dst: &str) -> (count: u64)
    requires
        distinct_keys(edge_pairs(lines@)),
    ensures
        count == count_of(table_of(edge_pairs(lines@)), (src@, edge@, dst@)),
{
    match edge_position(lines, src, edge, dst) {
        Some(i) => {
            proof {
                lemma_table_of_entry(edge_pairs(lines@), i as int);
            }
            lines[i].count
        },
        None => 0,
    }
}

/// Counts one more edge under the triple.
fn edge_bump(lines: &mut Vec<EdgeCount>, src: &str, edge: &str, dst: &str)
    requires
        distinct_keys(edge_pairs(old(lines)@)),
        count_of(table_of(edge_pairs(old(lines)@)), (src@, edge@, dst@)) < u64::MAX,
    ensures
        distinct_keys(edge_pairs(final(lines)@)),
        table_of(edge_pairs(final(lines)@)) == tallied(
            table_of(edge_pairs(old(lines)@)),
            seq![(src@, edge@, dst@)],
        ),
{
    let ghost before = edge_pairs(lines@);
    let ghost key = (src@, edge@, dst@);
    proof {
        lemma_tallied_one(table_of(before), key);
    }
    match edge_position(lines, src, edge, dst) {
        Some(i) => {
            proof {
                lemma_table_of_entry(before, i as int);
                lemma_table_of_update(before, i as int, before[i as int].1 + 1);
            }
            let count = lines[i].count;
            lines[i].count = count + 1;
            assert(edge_pairs(lines@) =~= before.update(
                i as int,
                (before[i as int].0, before[i as int].1 + 1),
            ));
        },
        None => {
            proof {
                lemma_table_of_push(before, key, 1);
            }
            lines.push(
                EdgeCount { src: src.to_owned(), edge: edge.to_owned(), dst: dst.to_owned(), count: 1 },
            );
            assert(edge_pairs(lines@) =~= before.push((key, 1nat)));
        },
    }
}

/// Whether lines make a table: no key stands twice, and no count is above
/// the count of `top`, the key that stands for every other.
pub open spec fn well_formed<K>(pairs: Seq<(K, nat)>, top: K) -> bool {
    distinct_keys(pairs) && dominated(table_of(pairs), top)
}

/// Whether the lines of a vertex table make a table.
fn vertex_lines_are_sound(lines: &Vec<VertexCount>) -> (sound: bool)
    ensures
        sound == well_formed(vertex_pairs(lines@), wildcard()),
{
    let ghost pairs = vertex_pairs(lines@);
    let mut i: usize = 0;
    while i < lines.len()
        invariant
            i <= lines@.len(),
            pairs == vertex_pairs(lines@),
            distinct_keys(pairs.take(i as int)),
        decreases lines@.len() - i,
    {
        let mut j: usize = 0;
        while j < i
            invariant
                j <= i < lines@.len(),
                pairs == vertex_pairs(lines@),
                forall|k: int| 0 <= k < j ==> (#[trigger] pairs[k]).0 != pairs[i as int].0,
            decreases i - j,
        {
            if str_eq(lines[j].label.as_str(), lines[i].label.as_str()) {
                assert(pairs[j as int].0 == pairs[i as int].0);
                return false;
            }
            j += 1;
        }
        proof {
            let longer = pairs.take(i + 1);
            let shorter = pairs.take(i as int);
            assert forall|a: int, b: int| 0 <= a < b < longer.len() implies (#[trigger] longer[a]).0 != (
            #[trigger] longer[b]).0 by {
                if b < i {
                    assert(shorter[a] == longer[a] && shorter[b] == longer[b]);
                } else {
                    assert(longer[a] == pairs[a]);
                }
            }
        }
        i += 1;
    }
    assert(pairs.take(i as int) =~= pairs);
    proof {
        reveal_strlit("");
        assert(""@ =~= wildcard());
    }
    let top = vertex_lookup(lines, "");
    let mut i: usize = 0;
    while i < lines.len()
        invariant
            i <= lines@.len(),
            pairs == vertex_pairs(lines@),
            distinct_keys(pairs),
            top == count_of(table_of(pairs), wildcard()),
            forall|k: int| 0 <= k < i ==> (#[trigger] pairs[k]).1 <= top,
        decreases lines@.len() - i,
    {
        if lines[i].count > top {
            proof {
                lemma_table_of_entry(pairs, i as int);
                assert(count_of(table_of(pairs), pairs[i as int].0) > count_of(table_of(pairs), wildcard()));
            }
            return false;
        }
        i += 1;
    }
    proof {
        assert forall|k: Seq<char>| #[trigger]
            count_of(table_of(pairs), k) <= count_of(table_of(pairs), wildcard()) by {
            if table_of(pairs).contains_key(k) {
                let at = choose|at: int| 0 <= at < pairs.len() && (#[trigger] pairs[at]).0 == k;
                lemma_table_of_entry(pairs, at);
            }
        }
    }
    true
}

/// Whether the lines of an edge table make a table.
fn edge_lines_are_sound(lines: &Vec<EdgeCount>) -> (sound: bool)
    ensures
        sound == well_formed(edge_pairs(lines@), any_edge()),
{
    let ghost pairs = edge_pairs(lines@);
    let mut i: usize = 0;
    while i < lines.len()
        invariant
            i <= lines@.len(),
            pairs == edge_pairs(lines@),
            distinct_keys(pairs.take(i as int)),
        decreases lines@.len() - i,
    {
        let mut j: usize = 0;
        while j < i
            invariant
                j <= i < lines@.len(),
                pairs == edge_pairs(lines@),
                forall|k: int| 0 <= k < j ==> (#[trigger] pairs[k]).0 != pairs[i as int].0,
            decreases i - j,
        {
            if str_eq(lines[j].src.as_str(), lines[i].src.as_str()) && str_eq(
                lines[j].edge.as_str(),
                lines[i].edge.as_str(),
            ) && str_eq(lines[j].dst.as_str(), lines[i].dst.as_str()) {
                assert(pairs[j as int].0 == pairs[i as int].0);
                return false;
            }
            j += 1;
        }
        proof {
            let longer = pairs.take(i + 1);
            let shorter = pairs.take(i as int);
            assert forall|a: int, b: int| 0 <= a < b < longer.len() implies (#[trigger] longer[a]).0 != (
            #[trigger] longer[b]).0 by {
                if b < i {
                    assert(shorter[a] == longer[a] && shorter[b] == longer[b]);
                } else {
                    assert(longer[a] == pairs[a]);
                }
            }
        }
        i += 1;
    }
    assert(pairs.take(i as int) =~= pairs);
    proof {
        reveal_strlit("");
        assert(""@ =~= wildcard());
    }
    let top = edge_lookup(lines, "", "", "");
    let mut i: usize = 0;
    while i < lines.len()
        invariant
            i <= lines@.len(),
            pairs == edge_pairs(lines@),
            distinct_keys(pairs),
            top == count_of(table_of(pairs), any_edge()),
            forall|k: int| 0 <= k < i ==> (#[trigger] pairs[k]).1 <= top,
        decreases lines@.len() - i,
    {
        if lines[i].count > top {
            proof {
                lemma_table_of_entry(pairs, i as int);
                assert(count_of(table_of(pairs), pairs[i as int].0) > count_of(table_of(pairs), any_edge()));
            }
            return false;
        }
        i += 1;
    }
    proof {
        assert forall|k: Triple| #[trigger]
            count_of(table_of(pairs), k) <= count_of(table_of(pairs), any_edge()) by {
            if table_of(pairs).contains_key(k) {
                let at = choose|at: int| 0 <= at < pairs.len() && (#[trigger] pairs[at]).0 == k;
                lemma_table_of_entry(pairs, at);
            }
        }
    }
    true
}

/// What a `Statistics` stands for: its two tables as finite maps from key to
/// count.
pub struct StatisticsView {
    pub vertex_cardinality: Map<Seq<char>, nat>,
    pub edge_cardinality: Map<Triple, nat>,
}

impl StatisticsView {
    /// The statistics of a run that has seen nothing yet.
    pub open spec fn empty() -> StatisticsView {
        StatisticsView {
            vertex_cardinality: Map::<Seq<char>, nat>::empty(),
            edge_cardinality: Map::<Triple, nat>::empty(),
        }
    }

    /// Both tables are finite.
    pub open spec fn finite(self) -> bool {
        self.vertex_cardinality.dom().finite() && self.edge_cardinality.dom().finite()
    }

    /// The statistics after one more vertex of `label`.
    pub open spec fn with_vertex(self, label: Seq<char>) -> StatisticsView {
        StatisticsView {
            vertex_cardinality: tallied(self.vertex_cardinality, vertex_keys(label)),
            edge_cardinality: self.edge_cardinality,
        }
    }

    /// The statistics after one more edge from `src` to `dst` labelled
    /// `edge`.
    pub open spec fn with_edge(self, src: Seq<char>, edge: Seq<char>, dst: Seq<char>) -> StatisticsView {
        StatisticsView {
            vertex_cardinality: self.vertex_cardinality,
            edge_cardinality: tallied(self.edge_cardinality, roll_ups(src, edge, dst)),
        }
    }

    /// Whether one more vertex of `label` can be counted within 64 bits.
    pub open spec fn has_room_for_vertex(self, label: Seq<char>) -> bool {
        fits(self.vertex_cardinality, vertex_keys(label))
    }

    /// Whether one more edge of these labels can be counted within 64 bits.
    pub open spec fn has_room_for_edge(self, src: Seq<char>, edge: Seq<char>, dst: Seq<char>) -> bool {
        fits(self.edge_cardinality, roll_ups(src, edge, dst))
    }
}

/// The two cardinality tables of a run. No key is held twice, and no count
/// is above the count of the table's all-wildcard key.
pub struct Statistics {
    vertex_cardinality: Vec<VertexCount>,
    edge_cardinality: Vec<EdgeCount>,
}

impl View for Statistics {
    type V = StatisticsView;

    closed spec fn view(&self) -> StatisticsView {
        StatisticsView {
            vertex_cardinality: table_of(vertex_pairs(self.vertex_cardinality@)),
            edge_cardinality: table_of(edge_pairs(self.edge_cardinality@)),
        }
    }
}

impl Statistics {
    /// What every `Statistics` keeps: no key is held twice, and no count is
    /// above the count of the all-wildcard key of its table.
    #[verifier::type_invariant]
    closed spec fn sound(&self) -> bool {
        &&& distinct_keys(vertex_pairs(self.vertex_cardinality@))
        &&& distinct_keys(edge_pairs(self.edge_cardinality@))
        &&& dominated(table_of(vertex_pairs(self.vertex_cardinality@)), wildcard())
        &&& dominated(table_of(edge_pairs(self.edge_cardinality@)), any_edge())
    }

    /// The statistics of a run that has seen nothing yet.
    pub fn new() -> (out: Self)
        ensures
            out@ == StatisticsView::empty(),
            out@.finite(),
            vertices_add_up(out@.vertex_cardinality),
            edges_add_up(out@.edge_cardinality),
            holds_all_roll_ups(out@.edge_cardinality),
    {
        let out = Statistics { vertex_cardinality: Vec::new(), edge_cardinality: Vec::new() };
        assert(out@.vertex_cardinality =~= Map::<Seq<char>, nat>::empty());
        assert(out@.edge_cardinality =~= Map::<Triple, nat>::empty());
        assert(labelled(out@.vertex_cardinality) =~= Map::<Seq<char>, nat>::empty());
        assert forall|k: Triple| #[trigger]
            count_of(out@.edge_cardinality, k) == total(
                covered(out@.edge_cardinality, k),
            ) by {
            assert(covered(out@.edge_cardinality, k) =~= Map::<Triple, nat>::empty());
        }
        out
    }

    /// The statistics that these lines stand for, as they were handed out by
    /// `vertices` and `edges`. Lines are refused where a key stands twice in
    /// a table or a count is above the count of the table's all-wildcard key.
    pub fn from_lines(vertices: Vec<VertexCount>, edges: Vec<EdgeCount>) -> (out: Option<Self>)
        ensures
            match out {
                Some(made) => {
                    &&& well_formed(vertex_pairs(vertices@), wildcard())
                    &&& well_formed(edge_pairs(edges@), any_edge())
                    &&& made@.vertex_cardinality == table_of(vertex_pairs(vertices@))
                    &&& made@.edge_cardinality == table_of(edge_pairs(edges@))
                    &&& made@.finite()
                },
                None => !well_formed(vertex_pairs(vertices@), wildcard()) || !well_formed(
                    edge_pairs(edges@),
                    any_edge(),
                ),
            },
    {
        if !vertex_lines_are_sound(&vertices) || !edge_lines_are_sound(&edges) {
            return None;
        }
        proof {
            lemma_table_of_finite(vertex_pairs(vertices@));
            lemma_table_of_finite(edge_pairs(edges@));
        }
        Some(Statistics { vertex_cardinality: vertices, edge_cardinality: edges })
    }

    /// The number of vertices counted under `label`: zero where there is
    /// none. The empty label is the wildcard, under which every vertex is
    /// counted.
    pub fn vertex_count(&self, label: &str) -> (count: u64)
        ensures
            count == count_of(self@.vertex_cardinality, label@),
    {
        proof {
            use_type_invariant(self);
        }
        vertex_lookup(&self.vertex_cardinality, label)
    }

    /// The number of edges counted under the triple: zero where there is
    /// none. An empty label is the wildcard: it stands for any label in its
    /// place.
    pub fn edge_count(&self, src: &str, edge: &str, dst: &str) -> (count: u64)
        ensures
            count == count_of(self@.edge_cardinality, (src@, edge@, dst@)),
    {
        proof {
            use_type_invariant(self);
        }
        edge_lookup(&self.edge_cardinality, src, edge, dst)
    }

    /// The vertex table line by line: each label once, with its count.
    pub fn vertices(&self) -> (out: Vec<VertexCount>)
        ensures
            well_formed(vertex_pairs(out@), wildcard()),
            table_of(vertex_pairs(out@)) == self@.vertex_cardinality,
            out@.len() == self@.vertex_cardinality.dom().len(),
            self@.finite(),
    {
        proof {
            use_type_invariant(self);
            lemma_table_of_finite(vertex_pairs(self.vertex_cardinality@));
            lemma_table_of_finite(edge_pairs(self.edge_cardinality@));
        }
        let mut out: Vec<VertexCount> = Vec::new();
        let mut i: usize = 0;
        while i < self.vertex_cardinality.len()
            invariant
                i <= self.vertex_cardinality@.len(),
                out@.len() == i,
                forall|j: int|
                    0 <= j < i ==> (#[trigger] out@[j]).label@ == self.vertex_cardinality@[j].label@
                        && out@[j].count == self.vertex_cardinality@[j].count,
            decreases self.vertex_cardinality@.len() - i,
        {
            let line = &self.vertex_cardinality[i];
            out.push(VertexCount { label: line.label.clone(), count: line.count });
            i += 1;
        }
        assert(vertex_pairs(out@) =~= vertex_pairs(self.vertex_cardinality@));
        out
    }

    /// The edge table line by line: each triple once, with its count.
    pub fn edges(&self) -> (out: Vec<EdgeCount>)
        ensures
            well_formed(edge_pairs(out@), any_edge()),
            table_of(edge_pairs(out@)) == self@.edge_cardinality,
            out@.len() == self@.edge_cardinality.dom().len(),
            self@.finite(),
    {
        proof {
            use_type_invariant(self);
            lemma_table_of_finite(vertex_pairs(self.vertex_cardinality@));
            lemma_table_of_finite(edge_pairs(self.edge_cardinality@));
        }
        let mut out: Vec<EdgeCount> = Vec::new();
        let mut i: usize = 0;
        while i < self.edge_cardinality.len()
            invariant
                i <= self.edge_cardinality@.len(),
                out@.len() == i,
                forall|j: int|
                    0 <= j < i ==> {
                        &&& (#[trigger] out@[j]).src@ == self.edge_cardinality@[j].src@
                        &&& out@[j].edge@ == self.edge_cardinality@[j].edge@
                        &&& out@[j].dst@ == self.edge_cardinality@[j].dst@
                        &&& out@[j].count == self.edge_cardinality@[j].count
                    },
            decreases self.edge_cardinality@.len() - i,
        {
            let line = &self.edge_cardinality[i];
            out.push(
                EdgeCount {
                    src: line.src.clone(),
                    edge: line.edge.clone(),
                    dst: line.dst.clone(),
                    count: line.count,
                },
            );
            i += 1;
        }
        assert(edge_pairs(out@) =~= edge_pairs(self.edge_cardinality@));
        out
    }

    /// Whether one more vertex of `label` can be counted within 64 bits.
    pub fn has_room_for_vertex(&self, label: &str) -> (room: bool)
        ensures
            room == self@.has_room_for_vertex(label@),
    {
        proof {
            use_type_invariant(self);
            reveal_strlit("");
            lemma_vertex_room(self@.vertex_cardinality, label@);
            assert(""@ =~= wildcard());
        }
        let copies: u64 = if str_eq(label, "") {
            2
        } else {
            1
        };
        vertex_lookup(&self.vertex_cardinality, "") <= u64::MAX - copies
    }

    /// Whether one more edge of these labels can be counted within 64 bits.
    pub fn has_room_for_edge(&self, src: &str, edge: &str, dst: &str) -> (room: bool)
        ensures
            room == self@.has_room_for_edge(src@, edge@, dst@),
    {
        proof {
            use_type_invariant(self);
            reveal_strlit("");
            lemma_edge_room(self@.edge_cardinality, src@, edge@, dst@);
            assert(""@ =~= wildcard());
        }
        let by_src: u64 = if str_eq(src, "") {
            2
        } else {
            1
        };
        let by_edge: u64 = if str_eq(edge, "") {
            2
        } else {
            1
        };
        let by_dst: u64 = if str_eq(dst, "") {
            2
        } else {
            1
        };
        let copies: u64 = by_src * by_edge * by_dst;
        edge_lookup(&self.edge_cardinality, "", "", "") <= u64::MAX - copies
    }

    /// Counts one vertex: once under its label and once under the wildcard.
    /// Where a count would pass 64 bits, nothing is counted.
    ///
    /// As long as no vertex is counted under the empty label, the wildcard
    /// entry is the sum of all other entries.
    pub fn count_vertex(&mut self, label: &str) -> (out: Result<(), ImportError>)
        ensures
            match out {
                Ok(_) => old(self)@.has_room_for_vertex(label@) && final(self)@ == old(self)@.with_vertex(
                    label@,
                ),
                Err(e) => !old(self)@.has_room_for_vertex(label@) && e == ImportError::CountOverflow
                    && final(self)@ == old(self)@,
            },
            final(self)@.finite(),
            out.is_ok() ==> final(self)@.vertex_cardinality.contains_key(label@)
                && final(self)@.vertex_cardinality.contains_key(wildcard()),
            vertices_add_up(old(self)@.vertex_cardinality) && label@ != wildcard() ==> vertices_add_up(
                final(self)@.vertex_cardinality,
            ),
    {
        proof {
            use_type_invariant(&*self);
            lemma_table_of_finite(vertex_pairs(self.vertex_cardinality@));
            lemma_table_of_finite(edge_pairs(self.edge_cardinality@));
        }
        if !self.has_room_for_vertex(label) {
            return Err(ImportError::CountOverflow);
        }
        let ghost before = self@.vertex_cardinality;
        let ghost keys = vertex_keys(label@);
        // The lines are taken out while the two counts are raised: in
        // between, the count of the label may be above the wildcard count.
        let mut lines: Vec<VertexCount> = Vec::new();
        core::mem::swap(&mut self.vertex_cardinality, &mut lines);
        proof {
            reveal_strlit("");
            assert(""@ =~= wildcard());
            lemma_times_last(keys, label@);
            lemma_times_last(keys, wildcard());
            lemma_times_last(keys.drop_last(), label@);
            assert(count_of(before, label@) + times(keys, label@) <= u64::MAX);
            assert(count_of(before, wildcard()) + times(keys, wildcard()) <= u64::MAX);
        }
        vertex_bump(&mut lines, label);
        proof {
            assert(keys.drop_last() =~= seq![label@]);
            assert(count_of(tallied(before, seq![label@]), wildcard()) < u64::MAX);
        }
        vertex_bump(&mut lines, "");
        proof {
            lemma_tallied_concat(before, seq![label@], seq![wildcard()]);
            assert(seq![label@] + seq![wildcard()] =~= keys);
            lemma_vertex_room(before, label@);
            lemma_tallied_finite(before, keys);
            if vertices_add_up(before) && label@ != wildcard() {
                lemma_vertices_add_up(before, label@);
            }
            lemma_times_positive(keys, label@);
            lemma_times_positive(keys, wildcard());
            assert(keys[0] == label@);
            assert(keys[1] == wildcard());
        }
        self.vertex_cardinality = lines;
        Ok(())
    }

    /// Counts one edge: once under each of the eight triples made by keeping
    /// each of its labels or replacing it by the wildcard. Where a count would
    /// pass 64 bits, nothing is counted.
    ///
    /// The table holds all eight of them afterwards, and with every triple
    /// all of its roll-ups. As long as no edge is counted with an empty label,
    /// every entry is the sum of the wildcard-free entries that its key
    /// stands for: the all-wildcard entry is the number of edges counted.
    pub fn count_edge(&mut self, src: &str, edge: &str, dst: &str) -> (out: Result<(), ImportError>)
        ensures
            match out {
                Ok(_) => old(self)@.has_room_for_edge(src@, edge@, dst@) && final(self)@ == old(
                    self,
                )@.with_edge(src@, edge@, dst@),
                Err(e) => !old(self)@.has_room_for_edge(src@, edge@, dst@) && e
                    == ImportError::CountOverflow && final(self)@ == old(self)@,
            },
            final(self)@.finite(),
            out.is_ok() ==> forall|i: int|
                0 <= i < 8 ==> {
                    let key = #[trigger] roll_ups(src@, edge@, dst@)[i];
                    &&& final(self)@.edge_cardinality.contains_key(key)
                    &&& final(self)@.edge_cardinality[key] == count_of(old(self)@.edge_cardinality, key)
                        + edge_copies(src@, edge@, dst@)
                },
            holds_all_roll_ups(old(self)@.edge_cardinality) ==> holds_all_roll_ups(
                final(self)@.edge_cardinality,
            ),
            edges_add_up(old(self)@.edge_cardinality) && src@ != wildcard() && edge@ != wildcard()
                && dst@ != wildcard() ==> edges_add_up(final(self)@.edge_cardinality),
    {
        proof {
            use_type_invariant(&*self);
            lemma_table_of_finite(vertex_pairs(self.vertex_cardinality@));
            lemma_table_of_finite(edge_pairs(self.edge_cardinality@));
        }
        if !self.has_room_for_edge(src, edge, dst) {
            return Err(ImportError::CountOverflow);
        }
        let ghost before = self@.edge_cardinality;
        let ghost keys = roll_ups(src@, edge@, dst@);
        // The lines are taken out while the counts are raised one by one: in
        // between, a count may be above the all-wildcard count.
        let mut lines: Vec<EdgeCount> = Vec::new();
        core::mem::swap(&mut self.edge_cardinality, &mut lines);
        proof {
            reveal_strlit("");
            assert(""@ =~= wildcard());
            assert(keys.take(0) =~= Seq::<Triple>::empty());
            lemma_tallied_nothing(before);
        }
        let mut i: usize = 0;
        while i < 8
            invariant
                i <= 8,
                ""@ == wildcard(),
                keys == roll_ups(src@, edge@, dst@),
                fits(before, keys),
                distinct_keys(edge_pairs(lines@)),
                table_of(edge_pairs(lines@)) == tallied(before, keys.take(i as int)),
            decreases 8 - i,
        {
            // The eight roll-ups in turn: the source label gives way to the
            // wildcard in the second half, the edge label in the second pair
            // of each half, the destination label in every second key.
            let src_key = if i < 4 {
                src
            } else {
                ""
            };
            let edge_key = if i % 4 < 2 {
                edge
            } else {
                ""
            };
            let dst_key = if i % 2 == 0 {
                dst
            } else {
                ""
            };
            proof {
                let key = keys[i as int];
                let done = keys.take(i as int);
                let next = keys.take(i + 1);
                assert(key == (src_key@, edge_key@, dst_key@));
                assert(done + seq![key] =~= next);
                lemma_times_concat(done, seq![key], key);
                lemma_times_last(seq![key], key);
                lemma_times_prefix(keys, i + 1, key);
                assert(count_of(before, key) + times(keys, key) <= u64::MAX);
                lemma_tallied_concat(before, done, seq![key]);
            }
            edge_bump(&mut lines, src_key, edge_key, dst_key);
            i += 1;
        }
        proof {
            assert(keys.take(8) =~= keys);
            lemma_edge_room(before, src@, edge@, dst@);
            lemma_tallied_finite(before, keys);
            if holds_all_roll_ups(before) {
                lemma_holds_all_roll_ups(before, src@, edge@, dst@);
            }
            if edges_add_up(before) && src@ != wildcard() && edge@ != wildcard() && dst@ != wildcard() {
                lemma_edges_add_up(before, src@, edge@, dst@);
            }
            assert forall|j: int| 0 <= j < 8 implies tallied(before, keys).contains_key(
                #[trigger] keys[j],
            ) && tallied(before, keys)[keys[j]] == count_of(before, keys[j]) + edge_copies(
                src@,
                edge@,
                dst@,
            ) by {
                lemma_roll_ups_rise_together(src@, edge@, dst@, j);
            }
        }
        self.edge_cardinality = lines;
        Ok(())
    }
}

impl Default for Statistics {
    fn default() -> (out: Self)
        ensures
            out@ == StatisticsView::empty(),
    {
        Statistics::new()
    }
}

} // verus!
