//! What one vertex and one edge add to the tables, and what then holds of
//! the tables: the wildcard entries are the sums of the entries they stand
//! for.

use crate::tally::{
    count_of, dominated, fits, lemma_times_eight, lemma_times_two, lemma_total_insert, tallied,
    times, total,
};
use vstd::prelude::*;

verus! {

/// The key of the edge table: source label, edge label, destination label.
pub type Triple = (Seq<char>, Seq<char>, Seq<char>);

/// The key that stands for any label: the empty string.
pub open spec fn wildcard() -> Seq<char> {
    Seq::<char>::empty()
}

/// The key of the edge table that stands for every edge.
pub open spec fn any_edge() -> Triple {
    (wildcard(), wildcard(), wildcard())
}

/// The keys under which one vertex is counted: its label and the wildcard.
pub open spec fn vertex_keys(label: Seq<char>) -> Seq<Seq<char>> {
    seq![label, wildcard()]
}

/// The keys under which one edge is counted: every way of keeping each of
/// source, edge and destination label or replacing it by the wildcard.
pub open spec fn roll_ups(src: Seq<char>, edge: Seq<char>, dst: Seq<char>) -> Seq<Triple> {
    seq![
        (src, edge, dst),
        (src, edge, wildcard()),
        (src, wildcard(), dst),
        (src, wildcard(), wildcard()),
        (wildcard(), edge, dst),
        (wildcard(), edge, wildcard()),
        (wildcard(), wildcard(), dst),
        (wildcard(), wildcard(), wildcard()),
    ]
}

/// How often one vertex raises the wildcard count: twice where its own
/// label is the wildcard, else once.
pub open spec fn vertex_copies(label: Seq<char>) -> nat {
    if label == wildcard() {
        2
    } else {
        1
    }
}

/// How often one edge raises the count of `any_edge()`: once, doubled for
/// each of its labels that is itself the wildcard.
pub open spec fn edge_copies(src: Seq<char>, edge: Seq<char>, dst: Seq<char>) -> nat {
    (if src == wildcard() { 2nat } else { 1nat }) * (if edge == wildcard() { 2nat } else { 1nat }) * (if dst
        == wildcard() { 2nat } else { 1nat })
}

/// Whether a triple holds no wildcard.
pub open spec fn concrete(t: Triple) -> bool {
    t.0 != wildcard() && t.1 != wildcard() && t.2 != wildcard()
}

/// Whether the key `k` stands for the triple `t`: each label of `k` is the
/// wildcard or the label of `t` in that place.
pub open spec fn covers(k: Triple, t: Triple) -> bool {
    &&& k.0 == wildcard() || k.0 == t.0
    &&& k.1 == wildcard() || k.1 == t.1
    &&& k.2 == wildcard() || k.2 == t.2
}

/// The part of the vertex table that holds the labels themselves.
pub open spec fn labelled(vertices: Map<Seq<char>, nat>) -> Map<Seq<char>, nat> {
    vertices.remove(wildcard())
}

/// The part of the edge table that holds the wildcard-free triples which
/// the key `k` stands for.
pub open spec fn covered(edges: Map<Triple, nat>, k: Triple) -> Map<Triple, nat> {
    edges.restrict(Set::new(|t: Triple| concrete(t) && covers(k, t)))
}

/// Whether the wildcard entry of the vertex table is the sum of all the
/// other entries.
pub open spec fn vertices_add_up(vertices: Map<Seq<char>, nat>) -> bool {
    count_of(vertices, wildcard()) == total(labelled(vertices))
}

/// Whether every entry of the edge table is the sum of the wildcard-free
/// entries that its key stands for, and a key that stands for none is absent
/// or zero. In particular the entry of `any_edge()` is the sum of all
/// wildcard-free entries.
pub open spec fn edges_add_up(edges: Map<Triple, nat>) -> bool {
    forall|k: Triple| #[trigger] count_of(edges, k) == total(covered(edges, k))
}

/// Whether the table holds, with each key, every roll-up of that key.
pub open spec fn holds_all_roll_ups(edges: Map<Triple, nat>) -> bool {
    forall|t: Triple, i: int|
        edges.contains_key(t) && 0 <= i < 8 ==> edges.contains_key(
            #[trigger] roll_ups(t.0, t.1, t.2)[i],
        )
}

/// One vertex is counted once under its label and once under the wildcard.
pub proof fn lemma_vertex_keys(label: Seq<char>, k: Seq<char>)
    ensures
        times(vertex_keys(label), k) == (if k == label { 1nat } else { 0nat }) + (if k == wildcard() {
            1nat
        } else {
            0nat
        }),
        times(vertex_keys(label), wildcard()) == vertex_copies(label),
        times(vertex_keys(label), k) <= vertex_copies(label),
{
    lemma_times_two(vertex_keys(label), k);
    lemma_times_two(vertex_keys(label), wildcard());
}

/// No key is counted more often for one edge than `any_edge()` is.
pub proof fn lemma_roll_ups_copies(src: Seq<char>, edge: Seq<char>, dst: Seq<char>, k: Triple)
    ensures
        times(roll_ups(src, edge, dst), any_edge()) == edge_copies(src, edge, dst),
        times(roll_ups(src, edge, dst), k) <= edge_copies(src, edge, dst),
{
    lemma_times_eight(roll_ups(src, edge, dst), k);
    lemma_times_eight(roll_ups(src, edge, dst), any_edge());
}

/// One edge is counted equally often under each of its eight roll-ups: as
/// often as under `any_edge()`.
pub proof fn lemma_roll_ups_rise_together(src: Seq<char>, edge: Seq<char>, dst: Seq<char>, i: int)
    requires
        0 <= i < 8,
    ensures
        times(roll_ups(src, edge, dst), roll_ups(src, edge, dst)[i]) == edge_copies(src, edge, dst),
{
    lemma_times_eight(roll_ups(src, edge, dst), roll_ups(src, edge, dst)[i]);
}

/// An edge without wildcards is counted once under each key that stands for
/// it, and under no other.
pub proof fn lemma_roll_ups_of_concrete(src: Seq<char>, edge: Seq<char>, dst: Seq<char>, k: Triple)
    requires
        concrete((src, edge, dst)),
    ensures
        times(roll_ups(src, edge, dst), k) == if covers(k, (src, edge, dst)) {
            1nat
        } else {
            0nat
        },
{
    lemma_times_eight(roll_ups(src, edge, dst), k);
}

/// Counting a vertex under a label that is not the wildcard keeps the
/// wildcard entry equal to the sum of the other entries.
pub proof fn lemma_vertices_add_up(vertices: Map<Seq<char>, nat>, label: Seq<char>)
    requires
        vertices.dom().finite(),
        vertices_add_up(vertices),
        label != wildcard(),
    ensures
        vertices_add_up(tallied(vertices, vertex_keys(label))),
{
    let after = tallied(vertices, vertex_keys(label));
    let raised = count_of(vertices, label) + 1;
    assert forall|k: Seq<char>| true implies times(vertex_keys(label), k) == (if k == label {
        1nat
    } else {
        0nat
    }) + (if k == wildcard() { 1nat } else { 0nat }) by {
        lemma_vertex_keys(label, k);
    }
    assert(labelled(after) =~= labelled(vertices).insert(label, raised));
    lemma_total_insert(labelled(vertices), label, raised);
}

/// A part of a finite table is finite.
pub proof fn lemma_covered_finite(edges: Map<Triple, nat>, k: Triple)
    requires
        edges.dom().finite(),
    ensures
        covered(edges, k).dom().finite(),
{
    let wanted = Set::new(|t: Triple| concrete(t) && covers(k, t));
    assert(covered(edges, k).dom() =~= edges.dom().intersect(wanted));
}

/// Counting an edge whose labels are not wildcards keeps every entry equal
/// to the sum of the wildcard-free entries that its key stands for.
pub proof fn lemma_edges_add_up(
    edges: Map<Triple, nat>,
    src: Seq<char>,
    edge: Seq<char>,
    dst: Seq<char>,
)
    requires
        edges.dom().finite(),
        edges_add_up(edges),
        concrete((src, edge, dst)),
    ensures
        edges_add_up(tallied(edges, roll_ups(src, edge, dst))),
{
    let seen = (src, edge, dst);
    let after = tallied(edges, roll_ups(src, edge, dst));
    let raised = count_of(edges, seen) + 1;
    assert forall|k: Triple| true implies times(roll_ups(src, edge, dst), k) == if covers(k, seen) {
        1nat
    } else {
        0nat
    } by {
        lemma_roll_ups_of_concrete(src, edge, dst, k);
    }
    assert forall|k: Triple| #[trigger] count_of(after, k) == total(covered(after, k)) by {
        assert(count_of(edges, k) == total(covered(edges, k)));
        lemma_covered_finite(edges, k);
        if covers(k, seen) {
            assert(covered(after, k) =~= covered(edges, k).insert(seen, raised));
            lemma_total_insert(covered(edges, k), seen, raised);
            assert(count_of(covered(edges, k), seen) == count_of(edges, seen));
        } else {
            assert(covered(after, k) =~= covered(edges, k));
        }
    }
}

/// Counting an edge keeps the table closed under roll-up, and puts all eight
/// roll-ups of the edge in the table.
pub proof fn lemma_holds_all_roll_ups(
    edges: Map<Triple, nat>,
    src: Seq<char>,
    edge: Seq<char>,
    dst: Seq<char>,
)
    requires
        holds_all_roll_ups(edges),
    ensures
        holds_all_roll_ups(tallied(edges, roll_ups(src, edge, dst))),
        forall|i: int|
            0 <= i < 8 ==> tallied(edges, roll_ups(src, edge, dst)).contains_key(
                #[trigger] roll_ups(src, edge, dst)[i],
            ),
{
    let keys = roll_ups(src, edge, dst);
    let after = tallied(edges, keys);
    assert forall|i: int| 0 <= i < 8 implies after.contains_key(#[trigger] keys[i]) by {
        lemma_times_eight(keys, keys[i]);
    }
    assert forall|t: Triple, i: int| after.contains_key(t) && 0 <= i < 8 implies after.contains_key(
        #[trigger] roll_ups(t.0, t.1, t.2)[i],
    ) by {
        let up = roll_ups(t.0, t.1, t.2)[i];
        if edges.contains_key(t) {
            assert(edges.contains_key(up));
        } else {
            lemma_times_eight(keys, t);
            lemma_times_eight(keys, up);
        }
    }
}

/// Where `any_edge()` has room for one more edge, every key has, and only
/// then; and the table stays dominated by `any_edge()`.
pub proof fn lemma_edge_room(edges: Map<Triple, nat>, src: Seq<char>, edge: Seq<char>, dst: Seq<char>)
    requires
        dominated(edges, any_edge()),
    ensures
        fits(edges, roll_ups(src, edge, dst)) <==> count_of(edges, any_edge()) + edge_copies(
            src,
            edge,
            dst,
        ) <= u64::MAX,
        dominated(tallied(edges, roll_ups(src, edge, dst)), any_edge()),
{
    let keys = roll_ups(src, edge, dst);
    lemma_roll_ups_copies(src, edge, dst, any_edge());
    assert forall|k: Triple| #[trigger] times(keys, k) <= edge_copies(src, edge, dst) by {
        lemma_roll_ups_copies(src, edge, dst, k);
    }
    if fits(edges, keys) {
        assert(count_of(edges, any_edge()) + times(keys, any_edge()) <= u64::MAX);
    }
    if count_of(edges, any_edge()) + edge_copies(src, edge, dst) <= u64::MAX {
        assert forall|k: Triple| #[trigger] count_of(edges, k) + times(keys, k) <= u64::MAX by {
            assert(count_of(edges, k) <= count_of(edges, any_edge()));
            assert(times(keys, k) <= edge_copies(src, edge, dst));
        }
    }
    let after = tallied(edges, keys);
    assert forall|k: Triple| #[trigger] count_of(after, k) <= count_of(after, any_edge()) by {
        assert(count_of(edges, k) <= count_of(edges, any_edge()));
        assert(times(keys, k) <= edge_copies(src, edge, dst));
    }
}

/// Where the wildcard has room for one more vertex, every label has, and
/// only then; and the table stays dominated by the wildcard.
pub proof fn lemma_vertex_room(vertices: Map<Seq<char>, nat>, label: Seq<char>)
    requires
        dominated(vertices, wildcard()),
    ensures
        fits(vertices, vertex_keys(label)) <==> count_of(vertices, wildcard()) + vertex_copies(label)
            <= u64::MAX,
        dominated(tallied(vertices, vertex_keys(label)), wildcard()),
{
    let keys = vertex_keys(label);
    lemma_vertex_keys(label, wildcard());
    assert forall|k: Seq<char>| #[trigger] times(keys, k) <= vertex_copies(label) by {
        lemma_vertex_keys(label, k);
    }
    if fits(vertices, keys) {
        assert(count_of(vertices, wildcard()) + times(keys, wildcard()) <= u64::MAX);
    }
    if count_of(vertices, wildcard()) + vertex_copies(label) <= u64::MAX {
        assert forall|k: Seq<char>| #[trigger] count_of(vertices, k) + times(keys, k) <= u64::MAX by {
            assert(count_of(vertices, k) <= count_of(vertices, wildcard()));
            assert(times(keys, k) <= vertex_copies(label));
        }
    }
    let after = tallied(vertices, keys);
    assert forall|k: Seq<char>| #[trigger] count_of(after, k) <= count_of(after, wildcard()) by {
        assert(count_of(vertices, k) <= count_of(vertices, wildcard()));
        assert(times(keys, k) <= vertex_copies(label));
    }
}

} // verus!
