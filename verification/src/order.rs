//! The order in which the files of a data set are imported: by the number
//! of tokens in their names, fewest first, so that the files of vertices
//! come before the files of edges, which need the registry filled.

use crate::label::{label_name, name_token, vertex_label, LabelNameView};
use crate::text::{split, stem, strip_extension, tokens};
use vstd::prelude::*;

verus! {

/// Number of tokens of a file name: the name is read without its extension
/// and split at underscores.
pub open spec fn token_count(name: Seq<char>) -> nat {
    tokens(stem(name), '_').len()
}

/// Whether `order` is the import order of `names`: it lists every position
/// of `names` once, names of fewer tokens before names of more, and names of
/// equally many tokens in the order in which `names` has them.
pub open spec fn is_import_order(names: Seq<Seq<char>>, order: Seq<usize>) -> bool {
    &&& order.len() == names.len()
    &&& forall|i: int| 0 <= i < order.len() ==> (#[trigger] order[i]) < names.len()
    &&& forall|at: int| 0 <= at < names.len() ==> #[trigger] lists(order, at)
    &&& forall|i: int, j: int|
        0 <= i < j < order.len() ==> comes_before(names, #[trigger] order[i], #[trigger] order[j])
}

/// Whether `order` holds the position `at`.
pub open spec fn lists(order: Seq<usize>, at: int) -> bool {
    exists|i: int| 0 <= i < order.len() && #[trigger] order[i] == at
}

/// Whether the name at position `a` is imported before the name at position
/// `b`: it has fewer tokens, or as many and stands earlier.
pub open spec fn comes_before(names: Seq<Seq<char>>, a: usize, b: usize) -> bool {
    let x = token_count(names[a as int]);
    let y = token_count(names[b as int]);
    x < y || (x == y && a < b)
}

/// Counts the tokens of a file name.
pub fn count_tokens(name: &str) -> (count: usize)
    ensures
        count == token_count(name@),
{
    split(strip_extension(name), '_').len()
}

/// The order in which to import the files of these names, as positions in
/// `names`.
pub fn import_order(names: &Vec<String>) -> (order: Vec<usize>)
    ensures
        is_import_order(names.deep_view(), order@),
{
    let ghost all = names.deep_view();
    let mut keys: Vec<usize> = Vec::new();
    let mut k: usize = 0;
    while k < names.len()
        invariant
            k <= names@.len(),
            all == names.deep_view(),
            keys@.len() == k,
            forall|i: int| 0 <= i < k ==> (#[trigger] keys@[i]) == token_count(all[i]),
        decreases names@.len() - k,
    {
        assert(all[k as int] == names@[k as int]@);
        keys.push(count_tokens(names[k].as_str()));
        k += 1;
    }
    let mut order: Vec<usize> = Vec::new();
    let mut next: usize = 0;
    while next < names.len()
        invariant
            next <= names@.len(),
            all.len() == names@.len(),
            keys@.len() == names@.len(),
            forall|i: int| 0 <= i < keys@.len() ==> (#[trigger] keys@[i]) == token_count(all[i]),
            order@.len() == next,
            forall|i: int| 0 <= i < order@.len() ==> (#[trigger] order@[i]) < next,
            forall|at: int| 0 <= at < next ==> #[trigger] lists(order@, at),
            forall|i: int, j: int|
                0 <= i < j < order@.len() ==> comes_before(
                    all,
                    #[trigger] order@[i],
                    #[trigger] order@[j],
                ),
        decreases names@.len() - next,
    {
        let key = keys[next];
        let mut at: usize = order.len();
        while at > 0 && keys[order[at - 1]] > key
            invariant
                at <= order@.len(),
                next < keys@.len(),
                key == keys@[next as int],
                forall|i: int| 0 <= i < order@.len() ==> (#[trigger] order@[i]) < next,
                forall|i: int| at <= i < order@.len() ==> keys@[(#[trigger] order@[i]) as int] > key,
            decreases at,
        {
            at -= 1;
        }
        let ghost before = order@;
        order.insert(at, next);
        proof {
            let after = order@;
            assert forall|i: int, j: int| 0 <= i < j < after.len() implies comes_before(
                all,
                #[trigger] after[i],
                #[trigger] after[j],
            ) by {
                if j < at {
                    assert(after[i] == before[i] && after[j] == before[j]);
                } else if j == at {
                    assert(after[i] == before[i]);
                    if at > 0 {
                        assert(i == at - 1 || comes_before(all, before[i], before[at - 1]));
                    }
                } else if i < at {
                    assert(after[i] == before[i] && after[j] == before[j - 1]);
                } else if i == at {
                    assert(after[j] == before[j - 1]);
                } else {
                    assert(after[i] == before[i - 1] && after[j] == before[j - 1]);
                }
            }
            assert forall|p: int| 0 <= p < next + 1 implies #[trigger] lists(after, p) by {
                if p == next {
                    assert(after[at as int] == p);
                } else {
                    assert(lists(before, p));
                    let i = choose|i: int| 0 <= i < before.len() && #[trigger] before[i] == p;
                    if i < at {
                        assert(after[i] == p);
                    } else {
                        assert(after[i + 1] == p);
                    }
                }
            }
            assert forall|i: int| 0 <= i < after.len() implies (#[trigger] after[i]) < next + 1 by {
                if i < at {
                    assert(after[i] == before[i]);
                } else if i > at {
                    assert(after[i] == before[i - 1]);
                }
            }
        }
        next += 1;
    }
    order
}

/// A name of fewer tokens is imported before a name of more, wherever the
/// two stand in the list.
pub proof fn lemma_fewer_tokens_first(names: Seq<Seq<char>>, order: Seq<usize>, i: int, j: int)
    requires
        is_import_order(names, order),
        0 <= i < order.len(),
        0 <= j < order.len(),
        token_count(names[order[i] as int]) < token_count(names[order[j] as int]),
    ensures
        i < j,
{
    if j < i {
        assert(comes_before(names, order[j], order[i]));
    }
}

/// The name of an edge file has three tokens at least.
pub proof fn lemma_edge_file_has_three_tokens(name: Seq<char>)
    requires
        label_name(name) matches Some(LabelNameView::Edge(_, _, _)),
    ensures
        token_count(name) >= 3,
{
    reveal_strlit("place");
    reveal_strlit("organisation");
    reveal_strlit("tagclass");
    reveal_strlit("tag");
    reveal_strlit("comment");
    reveal_strlit("forum");
    reveal_strlit("person");
    reveal_strlit("post");
    if token_count(name) < 3 {
        assert(name_token(name, 2).len() == 0);
        assert(vertex_label(name_token(name, 2)).is_none());
    }
}

/// A vertex file is imported before an edge file wherever its name has
/// fewer tokens than the name of the edge file, or as many and is listed
/// before it.
pub proof fn lemma_vertex_file_before_edge_file(
    names: Seq<Seq<char>>,
    order: Seq<usize>,
    vertex_at: int,
    edge_at: int,
)
    requires
        is_import_order(names, order),
        0 <= vertex_at < order.len(),
        0 <= edge_at < order.len(),
        label_name(names[order[vertex_at] as int]) matches Some(LabelNameView::Vertex(_)),
        label_name(names[order[edge_at] as int]) matches Some(LabelNameView::Edge(_, _, _)),
        comes_before(names, order[vertex_at], order[edge_at]),
    ensures
        vertex_at < edge_at,
{
    if edge_at < vertex_at {
        assert(comes_before(names, order[edge_at], order[vertex_at]));
    }
}

/// Every file whose name has two tokens at most, as the name of a vertex
/// file made of an entity and a qualifier has, is imported before every edge
/// file, whatever the order in which the files were listed.
pub proof fn lemma_short_names_before_edge_files(
    names: Seq<Seq<char>>,
    order: Seq<usize>,
    vertex_at: int,
    edge_at: int,
)
    requires
        is_import_order(names, order),
        0 <= vertex_at < order.len(),
        0 <= edge_at < order.len(),
        token_count(names[order[vertex_at] as int]) <= 2,
        label_name(names[order[edge_at] as int]) matches Some(LabelNameView::Edge(_, _, _)),
    ensures
        vertex_at < edge_at,
{
    lemma_edge_file_has_three_tokens(names[order[edge_at] as int]);
    lemma_fewer_tokens_first(names, order, vertex_at, edge_at);
}

} // verus!
