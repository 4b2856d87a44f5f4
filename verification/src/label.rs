//! From the name of a file to what the file holds: the vertices of one
//! label, or the edges of one label between vertices of two labels.
//!
//! The tokens of a name are looked up in two fixed tables; a new label needs
//! a new line in them.

use crate::error::Family;
use crate::text::{lemma_tokens_len, split, stem, str_eq, strip_extension, tokens};
use vstd::prelude::*;

verus! {

/// What a file holds, by its name.
#[derive(Clone, Debug, PartialEq, Eq)]
pub enum LabelName {
    /// Vertices of this label.
    Vertex(String),
    /// Edges from vertices of the first label to vertices of the third,
    /// labelled with the second.
    Edge(String, String, String),
}

/// A `LabelName` with its labels as sequences of characters.
pub enum LabelNameView {
    Vertex(Seq<char>),
    Edge(Seq<char>, Seq<char>, Seq<char>),
}

impl View for LabelName {
    type V = LabelNameView;

    open spec fn view(&self) -> LabelNameView {
        match self {
            LabelName::Vertex(label) => LabelNameView::Vertex(label@),
            LabelName::Edge(src, edge, dst) => LabelNameView::Edge(src@, edge@, dst@),
        }
    }
}

/// A file name whose tokens name neither a vertex file nor an edge file,
/// with its first three tokens; a token that the name lacks is empty.
#[derive(Clone, Debug, PartialEq, Eq)]
pub struct IllegalLabelName {
    pub src: String,
    pub edge: String,
    pub dst: String,
}

/// The vertex label that a token of a file name stands for.
pub open spec fn vertex_label(token: Seq<char>) -> Option<Seq<char>> {
    if token == "place"@ {
        Some("Place"@)
    } else if token == "organisation"@ {
        Some("Organisation"@)
    } else if token == "tagclass"@ {
        Some("TagClass"@)
    } else if token == "tag"@ {
        Some("Tag"@)
    } else if token == "comment"@ {
        Some("Comment"@)
    } else if token == "forum"@ {
        Some("Forum"@)
    } else if token == "person"@ {
        Some("Person"@)
    } else if token == "post"@ {
        Some("Post"@)
    } else {
        None
    }
}

/// The edge label that a token of a file name stands for.
pub open spec fn edge_label(token: Seq<char>) -> Option<Seq<char>> {
    if token == "isPartOf"@ {
        Some("IS_PART_OF"@)
    } else if token == "isSubclassOf"@ {
        Some("IS_SUBCLASS_OF"@)
    } else if token == "isLocatedIn"@ {
        Some("IS_LOCATED_IN"@)
    } else if token == "hasType"@ {
        Some("HAS_TYPE"@)
    } else if token == "hasCreator"@ {
        Some("HAS_CREATOR"@)
    } else if token == "replyOf"@ {
        Some("REPLY_OF"@)
    } else if token == "containerOf"@ {
        Some("CONTAINER_OF"@)
    } else if token == "hasMember"@ {
        Some("HAS_MEMBER"@)
    } else if token == "hasModerator"@ {
        Some("HAS_MODERATOR"@)
    } else if token == "hasTag"@ {
        Some("HAS_TAG"@)
    } else if token == "hasInterest"@ {
        Some("HAS_INTEREST"@)
    } else if token == "knows"@ {
        Some("KNOWS"@)
    } else if token == "likes"@ {
        Some("LIKES"@)
    } else if token == "studyAt"@ {
        Some("STUDY_AT"@)
    } else if token == "workAt"@ {
        Some("WORK_AT"@)
    } else {
        None
    }
}

/// The family whose registry holds the vertices of a label.
pub open spec fn family_of(label: Seq<char>) -> Option<Family> {
    if label == "City"@ || label == "Country"@ || label == "Continent"@ {
        Some(Family::Place)
    } else if label == "University"@ || label == "Company"@ {
        Some(Family::Organisation)
    } else {
        None
    }
}

/// The family through which an edge file finds the label of an endpoint:
/// one where the file names the endpoint by the family itself.
pub open spec fn endpoint_family(label: Seq<char>) -> Option<Family> {
    if label == "Organisation"@ {
        Some(Family::Organisation)
    } else if label == "Place"@ {
        Some(Family::Place)
    } else {
        None
    }
}

/// The token at place `at` of a file name: the name is read without its
/// extension and split at underscores. A token that the name lacks is
/// empty.
pub open spec fn name_token(name: Seq<char>, at: int) -> Seq<char> {
    let all = tokens(stem(name), '_');
    if 0 <= at < all.len() {
        all[at]
    } else {
        Seq::<char>::empty()
    }
}

/// What a file of this name holds, where its first three tokens say so:
/// edges where all three resolve, vertices where only the first resolves.
pub open spec fn label_name(name: Seq<char>) -> Option<LabelNameView> {
    match (
        vertex_label(name_token(name, 0)),
        edge_label(name_token(name, 1)),
        vertex_label(name_token(name, 2)),
    ) {
        (Some(src), Some(edge), Some(dst)) => Some(LabelNameView::Edge(src, edge, dst)),
        (Some(label), None, None) => Some(LabelNameView::Vertex(label)),
        _ => None,
    }
}

/// Looks a token up in the table of vertex labels.
pub fn resolve_vertex_name(token: &str) -> (out: Option<&'static str>)
    ensures
        match out {
            Some(label) => vertex_label(token@) == Some(label@),
            None => vertex_label(token@).is_none(),
        },
{
    if str_eq(token, "place") {
        Some("Place")
    } else if str_eq(token, "organisation") {
        Some("Organisation")
    } else if str_eq(token, "tagclass") {
        Some("TagClass")
    } else if str_eq(token, "tag") {
        Some("Tag")
    } else if str_eq(token, "comment") {
        Some("Comment")
    } else if str_eq(token, "forum") {
        Some("Forum")
    } else if str_eq(token, "person") {
        Some("Person")
    } else if str_eq(token, "post") {
        Some("Post")
    } else {
        None
    }
}

/// Looks a token up in the table of edge labels.
pub fn resolve_edge_name(token: &str) -> (out: Option<&'static str>)
    ensures
        match out {
            Some(label) => edge_label(token@) == Some(label@),
            None => edge_label(token@).is_none(),
        },
{
    if str_eq(token, "isPartOf") {
        Some("IS_PART_OF")
    } else if str_eq(token, "isSubclassOf") {
        Some("IS_SUBCLASS_OF")
    } else if str_eq(token, "isLocatedIn") {
        Some("IS_LOCATED_IN")
    } else if str_eq(token, "hasType") {
        Some("HAS_TYPE")
    } else if str_eq(token, "hasCreator") {
        Some("HAS_CREATOR")
    } else if str_eq(token, "replyOf") {
        Some("REPLY_OF")
    } else if str_eq(token, "containerOf") {
        Some("CONTAINER_OF")
    } else if str_eq(token, "hasMember") {
        Some("HAS_MEMBER")
    } else if str_eq(token, "hasModerator") {
        Some("HAS_MODERATOR")
    } else if str_eq(token, "hasTag") {
        Some("HAS_TAG")
    } else if str_eq(token, "hasInterest") {
        Some("HAS_INTEREST")
    } else if str_eq(token, "knows") {
        Some("KNOWS")
    } else if str_eq(token, "likes") {
        Some("LIKES")
    } else if str_eq(token, "studyAt") {
        Some("STUDY_AT")
    } else if str_eq(token, "workAt") {
        Some("WORK_AT")
    } else {
        None
    }
}

/// The family whose registry holds the vertices of `label`.
pub fn family_of_label(label: &str) -> (out: Option<Family>)
    ensures
        out == family_of(label@),
{
    if str_eq(label, "City") || str_eq(label, "Country") || str_eq(label, "Continent") {
        Some(Family::Place)
    } else if str_eq(label, "University") || str_eq(label, "Company") {
        Some(Family::Organisation)
    } else {
        None
    }
}

/// The family through which an edge file finds the label of an endpoint
/// that it declares as `label`.
pub fn family_of_endpoint(label: &str) -> (out: Option<Family>)
    ensures
        out == endpoint_family(label@),
{
    if str_eq(label, "Organisation") {
        Some(Family::Organisation)
    } else if str_eq(label, "Place") {
        Some(Family::Place)
    } else {
        None
    }
}

/// Says what a file holds, by its name. The name is read without its
/// extension and split at underscores; of the tokens, the first three
/// count. The file holds edges where they resolve to a vertex label, an edge
/// label and a vertex label; it holds vertices where the first resolves to a
/// vertex label, the second to no edge label and the third to no vertex
/// label. Any other name is refused with its three tokens.
pub fn resolve_file_name(name: &str) -> (out: Result<LabelName, IllegalLabelName>)
    ensures
        match out {
            Ok(label) => label_name(name@) == Some(label@),
            Err(refused) => {
                &&& label_name(name@).is_none()
                &&& refused.src@ == name_token(name@, 0)
                &&& refused.edge@ == name_token(name@, 1)
                &&& refused.dst@ == name_token(name@, 2)
            },
        },
{
    let all = split(strip_extension(name), '_');
    proof {
        lemma_tokens_len(stem(name@), '_');
        reveal_strlit("");
        assert(""@ =~= Seq::<char>::empty());
    }
    let src: &str = all[0].as_str();
    let edge: &str = if all.len() > 1 {
        all[1].as_str()
    } else {
        ""
    };
    let dst: &str = if all.len() > 2 {
        all[2].as_str()
    } else {
        ""
    };
    assert(src@ == name_token(name@, 0));
    assert(edge@ == name_token(name@, 1));
    assert(dst@ == name_token(name@, 2));
    match (resolve_vertex_name(src), resolve_edge_name(edge), resolve_vertex_name(dst)) {
        (Some(src_label), Some(edge_label), Some(dst_label)) => Ok(
            LabelName::Edge(src_label.to_owned(), edge_label.to_owned(), dst_label.to_owned()),
        ),
        (Some(label), None, None) => Ok(LabelName::Vertex(label.to_owned())),
        _ => Err(
            IllegalLabelName { src: src.to_owned(), edge: edge.to_owned(), dst: dst.to_owned() },
        ),
    }
}

} // verus!
