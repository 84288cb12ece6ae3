//! Walking the structure tree of a message and resolving each leaf part to a
//! description: its place in the raw text, its role and its label.
//!
//! The walk is depth first and left to right.  Under a multipart node every
//! child is counted, whatever it resolves to, because a part is found in the
//! raw text by its position among its siblings.

use crate::classifier::{classified_label, classified_role, classify, placeholder_label};
use crate::encoding::{decide_encoding, encoding_tag};
use crate::helper_models::{
    at_most_one_body,
    has_body,
    lemma_has_body_of_concat,
    lemma_one_body_of_concat,
    EmailAnalysis,
    EmailPartDescription,
    PartDescriptor,
    PartRole,
};
use crate::locator::{lemma_nth_section_is_ordered, locate_section, nth_section};
use crate::structure::{boundary_key, find_parameter, parameter_value, LeafMetadata, StructureNode};
use vstd::prelude::*;
use vstd::utf8::encode_utf8;

verus! {

/// The description of a leaf whose content was not found: an empty range at
/// the head of the buffer, the placeholder label and no role.
pub open spec fn placeholder(leaf: LeafMetadata) -> PartDescriptor {
    PartDescriptor {
        label: placeholder_label(),
        size_octets: leaf.octets,
        bytes_start: 0,
        bytes_end: 0,
        is_file: false,
        is_email_text: false,
        encoding: encoding_tag(leaf.transfer_encoding),
    }
}

/// The description of a leaf whose content is the range from `start` to
/// `end`.  It carries the role and the label of its classification, except
/// that a second candidate for the body stays unclassified.
pub open spec fn resolved(leaf: LeafMetadata, start: usize, end: usize, body_taken: bool) -> PartDescriptor {
    if classified_role(leaf) is Body && body_taken {
        PartDescriptor { bytes_start: start, bytes_end: end, ..placeholder(leaf) }
    } else {
        PartDescriptor {
            label: classified_label(leaf),
            size_octets: leaf.octets,
            bytes_start: start,
            bytes_end: end,
            is_file: classified_role(leaf) is Attachment,
            is_email_text: classified_role(leaf) is Body,
            encoding: encoding_tag(leaf.transfer_encoding),
        }
    }
}

/// The description of a leaf.  Without a separator the leaf is the whole
/// message and its content the whole buffer.  Under a separator its content is
/// that of the section with its index, and where the buffer holds no such
/// section the description is the placeholder.
pub open spec fn described(
    leaf: LeafMetadata,
    raw: Seq<u8>,
    separator: Option<Seq<char>>,
    index: nat,
    body_taken: bool,
) -> PartDescriptor {
    match separator {
        None => resolved(leaf, 0, raw.len() as usize, body_taken),
        Some(token) => match nth_section(raw, encode_utf8(token), index) {
            Some(section) => resolved(
                leaf,
                section.content_start,
                section.content_end,
                body_taken,
            ),
            None => placeholder(leaf),
        },
    }
}

/// The descriptions that the walk of `node` gives, in the order of the
/// document.  A leaf gives one, an embedded message none, and a multipart node
/// those of its children, or none where it has no boundary parameter.
pub open spec fn emitted(
    node: StructureNode,
    raw: Seq<u8>,
    separator: Option<Seq<char>>,
    index: nat,
    body_taken: bool,
) -> Seq<PartDescriptor>
    decreases node,
{
    match node {
        StructureNode::Leaf(leaf) => seq![described(leaf, raw, separator, index, body_taken)],
        StructureNode::NestedMessage => Seq::empty(),
        StructureNode::Multipart { params, children } => match parameter_value(
            params@,
            boundary_key(),
        ) {
            Some(token) => emitted_children(children, raw, token, 0, body_taken),
            None => Seq::empty(),
        },
    }
}

/// The descriptions that the children from index `from` on give under the
/// boundary token of their parent.
pub open spec fn emitted_children(
    children: Vec<StructureNode>,
    raw: Seq<u8>,
    token: Seq<char>,
    from: nat,
    body_taken: bool,
) -> Seq<PartDescriptor>
    decreases children, children.len() - from,
{
    if from >= children.len() {
        Seq::empty()
    } else {
        let first = emitted(children[from as int], raw, Some(token), from, body_taken);
        first + emitted_children(
            children,
            raw,
            token,
            from + 1,
            body_taken || has_body(first),
        )
    }
}

/// The separator as a mathematical value.
pub open spec fn separator_token(separator: Option<&str>) -> Option<Seq<char>> {
    match separator {
        Some(token) => Some(token@),
        None => None,
    }
}

/// The analysis of a whole message: the walk of its structure tree from the
/// root, where there is no separator and no body yet.
pub open spec fn analysis_of(structure: StructureNode, raw: Seq<u8>) -> Seq<PartDescriptor> {
    emitted(structure, raw, None, 0, false)
}

/// Resolves one leaf.  `located` is the content range of the leaf, or `None`
/// where the raw text holds no section for it.  A located leaf gets its
/// range, its role and its label; a leaf that was not located is left as it
/// came in.  The size and the encoding of the description are never touched.
pub fn modify_part_description(
    located: Option<(usize, usize)>,
    body_taken: bool,
    attachment_description: &mut EmailPartDescription,
    common: &LeafMetadata,
)
    ensures
        final(attachment_description).size_octets == old(attachment_description).size_octets,
        final(attachment_description).encoding == old(attachment_description).encoding,
        match located {
            Some(range) => {
                let resolved = resolved(*common, range.0, range.1, body_taken);
                &&& final(attachment_description).bytes_start == resolved.bytes_start
                &&& final(attachment_description).bytes_end == resolved.bytes_end
                &&& final(attachment_description).is_file == resolved.is_file
                &&& final(attachment_description).is_email_text == resolved.is_email_text
                &&& final(attachment_description).file_name@ == resolved.label
            },
            None => *final(attachment_description) == *old(attachment_description),
        },
{
    if let Some(range) = located {
        let outcome = classify(common);
        attachment_description.bytes_start = range.0;
        attachment_description.bytes_end = range.1;
        match outcome.role {
            PartRole::Attachment => {
                attachment_description.is_file = true;
                attachment_description.is_email_text = false;
                attachment_description.file_name = outcome.label;
            },
            PartRole::Body => {
                attachment_description.is_file = false;
                if body_taken {
                    attachment_description.is_email_text = false;
                    attachment_description.file_name = "Unparsed attachment".to_owned();
                } else {
                    attachment_description.is_email_text = true;
                    attachment_description.file_name = outcome.label;
                }
            },
            PartRole::Unclassified => {
                attachment_description.is_file = false;
                attachment_description.is_email_text = false;
                attachment_description.file_name = outcome.label;
            },
        }
    }
}

/// Walks `structure` and records the descriptions of its leaves behind those
/// that `description` holds already.  `separator` is the boundary token of the
/// enclosing multipart, `None` at the root, and `match_index` the position of
/// `structure` among its siblings.
pub fn parse_body_structure(
    structure: &StructureNode,
    message: &[u8],
    description: &mut EmailAnalysis,
    separator: Option<&str>,
    match_index: usize,
)
    ensures
        final(description)@ == old(description)@ + emitted(
            *structure,
            message@,
            separator_token(separator),
            match_index as nat,
            has_body(old(description)@),
        ),
        final(description).plain_text_octets == old(description).plain_text_octets,
        old(description).well_formed() ==> final(description).well_formed(),
    decreases structure,
{
    proof {
        let added = emitted(
            *structure,
            message@,
            separator_token(separator),
            match_index as nat,
            has_body(old(description)@),
        );
        lemma_walk_gives_one_body_at_most(
            *structure,
            message@,
            separator_token(separator),
            match_index as nat,
            has_body(old(description)@),
        );
        if old(description).well_formed() {
            lemma_one_body_of_concat(old(description)@, added);
            assert forall|k: int| 0 <= k < (old(description)@ + added).len() implies (
            #[trigger] (old(description)@ + added)[k]).well_formed() by {
                if k < old(description)@.len() {
                    assert(old(description)@[k].well_formed());
                } else {
                    assert(added[k - old(description)@.len()].well_formed());
                }
            }
        }
    }
    match structure {
        StructureNode::Leaf(leaf) => {
            let located = match separator {
                None => Some((0, message.len())),
                Some(token) => match locate_section(token.as_bytes(), match_index, message) {
                    Some(section) => Some((section.content_start, section.content_end)),
                    None => None,
                },
            };
            let mut attachment_description = EmailPartDescription {
                file_name: "Unparsed attachment".to_owned(),
                size_octets: leaf.octets,
                is_file: false,
                bytes_start: 0,
                bytes_end: 0,
                is_email_text: false,
                encoding: decide_encoding(leaf),
            };
            let body_taken = description.has_body();
            modify_part_description(located, body_taken, &mut attachment_description, leaf);
            description.record(attachment_description);
            assert(description@ =~= old(description)@ + seq![attachment_description@]);
        },
        StructureNode::NestedMessage => {
            assert(description@ =~= old(description)@ + Seq::<PartDescriptor>::empty());
        },
        StructureNode::Multipart { params, children } => {
            match find_parameter(params, "BOUNDARY") {
                Some(boundary) => {
                    let ghost before = description@;
                    let ghost token = boundary@;
                    let mut part_index: usize = 0;
                    assert(before + emitted_children(
                        *children,
                        message@,
                        token,
                        0,
                        has_body(before),
                    ) =~= description@ + emitted_children(
                        *children,
                        message@,
                        token,
                        0,
                        has_body(description@),
                    ));
                    while part_index < children.len()
                        invariant
                            part_index <= children.len(),
                            token == boundary@,
                            *structure is Multipart,
                            structure->children == *children,
                            description.plain_text_octets == old(description).plain_text_octets,
                            before + emitted_children(
                                *children,
                                message@,
                                token,
                                0,
                                has_body(before),
                            ) == description@ + emitted_children(
                                *children,
                                message@,
                                token,
                                part_index as nat,
                                has_body(description@),
                            ),
                        decreases children.len() - part_index,
                    {
                        let ghost so_far = description@;
                        parse_body_structure(
                            &children[part_index],
                            message,
                            description,
                            Some(boundary.as_str()),
                            part_index,
                        );
                        proof {
                            let first = emitted(
                                children[part_index as int],
                                message@,
                                Some(token),
                                part_index as nat,
                                has_body(so_far),
                            );
                            let rest = emitted_children(
                                *children,
                                message@,
                                token,
                                (part_index + 1) as nat,
                                has_body(so_far) || has_body(first),
                            );
                            lemma_has_body_of_concat(so_far, first);
                            assert(so_far + (first + rest) =~= (so_far + first) + rest);
                        }
                        part_index += 1;
                    }
                    assert(description@ + Seq::<PartDescriptor>::empty() =~= description@);
                },
                None => {
                    assert(description@ =~= old(description)@ + Seq::<PartDescriptor>::empty());
                },
            }
        },
    }
}

/// Analyses a whole message: walks its structure tree from the root over its
/// raw text.
pub fn analyze(structure: &StructureNode, message: &[u8]) -> (analysis: EmailAnalysis)
    ensures
        analysis@ == analysis_of(*structure, message@),
        analysis.plain_text_octets == 0,
        analysis@.len() == walked_leaves(*structure).len(),
        forall|k: int|
            0 <= k < analysis@.len() ==> {
                &&& describes(#[trigger] analysis@[k], walked_leaves(*structure)[k])
                &&& analysis@[k].within(message@.len() as int)
            },
        analysis.well_formed(),
{
    let mut analysis = EmailAnalysis::new();
    let length = message.len();
    parse_body_structure(structure, message, &mut analysis, None, 0);
    assert(Seq::<PartDescriptor>::empty() + analysis_of(*structure, message@) =~= analysis_of(
        *structure,
        message@,
    ));
    assert(!has_body(Seq::<PartDescriptor>::empty()));
    proof {
        assert(message@.len() == length);
        lemma_one_description_per_walked_leaf(*structure, message@, None, 0, false);
        lemma_descriptions_lie_in_the_text(*structure, message@, None, 0, false);
        lemma_walk_gives_one_body_at_most(*structure, message@, None, 0, false);
    }
    analysis
}

/// The leaves that the walk of `node` reaches, in the order of the document:
/// all but those under a multipart node without a boundary parameter.
pub open spec fn walked_leaves(node: StructureNode) -> Seq<LeafMetadata>
    decreases node,
{
    match node {
        StructureNode::Leaf(leaf) => seq![leaf],
        StructureNode::NestedMessage => Seq::empty(),
        StructureNode::Multipart { params, children } => match parameter_value(
            params@,
            boundary_key(),
        ) {
            Some(_) => walked_leaves_of(children, 0),
            None => Seq::empty(),
        },
    }
}

/// The leaves that the walk reaches under the children from `from` on.
pub open spec fn walked_leaves_of(children: Vec<StructureNode>, from: nat) -> Seq<LeafMetadata>
    decreases children, children.len() - from,
{
    if from >= children.len() {
        Seq::empty()
    } else {
        walked_leaves(children[from as int]) + walked_leaves_of(children, from + 1)
    }
}

/// All leaves of the tree under `node`, in the order of the document.
pub open spec fn leaves(node: StructureNode) -> Seq<LeafMetadata>
    decreases node,
{
    match node {
        StructureNode::Leaf(leaf) => seq![leaf],
        StructureNode::NestedMessage => Seq::empty(),
        StructureNode::Multipart { params, children } => leaves_of(children, 0),
    }
}

/// All leaves under the children from `from` on.
pub open spec fn leaves_of(children: Vec<StructureNode>, from: nat) -> Seq<LeafMetadata>
    decreases children, children.len() - from,
{
    if from >= children.len() {
        Seq::empty()
    } else {
        leaves(children[from as int]) + leaves_of(children, from + 1)
    }
}

/// Every multipart node of the tree under `node` has a boundary parameter.
pub open spec fn boundaries_present(node: StructureNode) -> bool
    decreases node,
{
    match node {
        StructureNode::Multipart { params, children } => parameter_value(params@, boundary_key())
            is Some && boundaries_present_in(children, 0),
        _ => true,
    }
}

/// Every multipart node under the children from `from` on has a boundary
/// parameter.
pub open spec fn boundaries_present_in(children: Vec<StructureNode>, from: nat) -> bool
    decreases children, children.len() - from,
{
    if from >= children.len() {
        true
    } else {
        boundaries_present(children[from as int]) && boundaries_present_in(children, from + 1)
    }
}

/// `descriptor` is a description of `leaf`: its placeholder, or its
/// description over the range that the descriptor holds.
pub open spec fn describes(descriptor: PartDescriptor, leaf: LeafMetadata) -> bool {
    ||| descriptor == placeholder(leaf)
    ||| descriptor == resolved(leaf, descriptor.bytes_start, descriptor.bytes_end, false)
    ||| descriptor == resolved(leaf, descriptor.bytes_start, descriptor.bytes_end, true)
}

/// A multipart node without a boundary parameter gives no description, for
/// itself or for anything under it.
pub proof fn lemma_missing_boundary_gives_nothing(
    node: StructureNode,
    raw: Seq<u8>,
    separator: Option<Seq<char>>,
    index: nat,
    body_taken: bool,
)
    requires
        node is Multipart,
        node.boundary() is None,
    ensures
        emitted(node, raw, separator, index, body_taken) == Seq::<PartDescriptor>::empty(),
{
}

/// The walk gives one description for each leaf that it reaches, in the
/// order of the document: description `k` describes leaf `k`.
pub proof fn lemma_one_description_per_walked_leaf(
    node: StructureNode,
    raw: Seq<u8>,
    separator: Option<Seq<char>>,
    index: nat,
    body_taken: bool,
)
    ensures
        emitted(node, raw, separator, index, body_taken).len() == walked_leaves(node).len(),
        forall|k: int|
            0 <= k < walked_leaves(node).len() ==> describes(
                #[trigger] emitted(node, raw, separator, index, body_taken)[k],
                walked_leaves(node)[k],
            ),
    decreases node,
{
    match node {
        StructureNode::Leaf(leaf) => {},
        StructureNode::NestedMessage => {},
        StructureNode::Multipart { params, children } => {
            match parameter_value(params@, boundary_key()) {
                Some(token) => {
                    lemma_one_description_per_walked_child(children, raw, token, 0, body_taken);
                },
                None => {},
            }
        },
    }
}

/// The walk of the children from `from` on gives one description for each
/// leaf that it reaches, in the order of the document.
pub proof fn lemma_one_description_per_walked_child(
    children: Vec<StructureNode>,
    raw: Seq<u8>,
    token: Seq<char>,
    from: nat,
    body_taken: bool,
)
    ensures
        emitted_children(children, raw, token, from, body_taken).len() == walked_leaves_of(
            children,
            from,
        ).len(),
        forall|k: int|
            0 <= k < walked_leaves_of(children, from).len() ==> describes(
                #[trigger] emitted_children(children, raw, token, from, body_taken)[k],
                walked_leaves_of(children, from)[k],
            ),
    decreases children, children.len() - from,
{
    if from < children.len() {
        let first = emitted(children[from as int], raw, Some(token), from, body_taken);
        let taken = body_taken || has_body(first);
        lemma_one_description_per_walked_leaf(
            children[from as int],
            raw,
            Some(token),
            from,
            body_taken,
        );
        lemma_one_description_per_walked_child(children, raw, token, from + 1, taken);
    }
}

/// Where every multipart node has its boundary parameter, the walk reaches
/// every leaf of the tree.
pub proof fn lemma_walk_reaches_every_leaf(node: StructureNode)
    requires
        boundaries_present(node),
    ensures
        walked_leaves(node) == leaves(node),
    decreases node,
{
    match node {
        StructureNode::Multipart { params, children } => {
            lemma_walk_reaches_every_child_leaf(children, 0);
        },
        _ => {},
    }
}

/// Where every multipart node has its boundary parameter, the walk reaches
/// every leaf under the children from `from` on.
pub proof fn lemma_walk_reaches_every_child_leaf(children: Vec<StructureNode>, from: nat)
    requires
        boundaries_present_in(children, from),
    ensures
        walked_leaves_of(children, from) == leaves_of(children, from),
    decreases children, children.len() - from,
{
    if from < children.len() {
        lemma_walk_reaches_every_leaf(children[from as int]);
        lemma_walk_reaches_every_child_leaf(children, from + 1);
    }
}

/// The analysis of a message whose multipart nodes all have their boundary
/// parameter holds exactly one description for each leaf of its structure
/// tree, in the order of the document.
pub proof fn lemma_analysis_describes_every_leaf(structure: StructureNode, raw: Seq<u8>)
    requires
        boundaries_present(structure),
    ensures
        analysis_of(structure, raw).len() == leaves(structure).len(),
        forall|k: int|
            0 <= k < leaves(structure).len() ==> describes(
                #[trigger] analysis_of(structure, raw)[k],
                leaves(structure)[k],
            ),
{
    lemma_one_description_per_walked_leaf(structure, raw, None, 0, false);
    lemma_walk_reaches_every_leaf(structure);
}

/// Every description that the walk gives holds a range of the raw text.
pub proof fn lemma_descriptions_lie_in_the_text(
    node: StructureNode,
    raw: Seq<u8>,
    separator: Option<Seq<char>>,
    index: nat,
    body_taken: bool,
)
    requires
        raw.len() <= usize::MAX,
    ensures
        forall|k: int|
            0 <= k < emitted(node, raw, separator, index, body_taken).len() ==> (
            #[trigger] emitted(node, raw, separator, index, body_taken)[k]).within(raw.len() as int),
    decreases node,
{
    match node {
        StructureNode::Leaf(leaf) => {
            if let Some(token) = separator {
                lemma_nth_section_is_ordered(raw, encode_utf8(token), index);
            }
            let only = described(leaf, raw, separator, index, body_taken);
            assert(only.within(raw.len() as int));
            assert(emitted(node, raw, separator, index, body_taken) =~= seq![only]);
        },
        StructureNode::NestedMessage => {
            assert(emitted(node, raw, separator, index, body_taken).len() == 0);
        },
        StructureNode::Multipart { params, children } => {
            match parameter_value(params@, boundary_key()) {
                Some(token) => {
                    lemma_child_descriptions_lie_in_the_text(children, raw, token, 0, body_taken);
                    assert(emitted(node, raw, separator, index, body_taken) == emitted_children(
                        children,
                        raw,
                        token,
                        0,
                        body_taken,
                    ));
                },
                None => {
                    assert(emitted(node, raw, separator, index, body_taken).len() == 0);
                },
            }
        },
    }
}

/// Every description that the walk of the children from `from` on gives
/// holds a range of the raw text.
pub proof fn lemma_child_descriptions_lie_in_the_text(
    children: Vec<StructureNode>,
    raw: Seq<u8>,
    token: Seq<char>,
    from: nat,
    body_taken: bool,
)
    requires
        raw.len() <= usize::MAX,
    ensures
        forall|k: int|
            0 <= k < emitted_children(children, raw, token, from, body_taken).len() ==> (
            #[trigger] emitted_children(children, raw, token, from, body_taken)[k]).within(
                raw.len() as int,
            ),
    decreases children, children.len() - from,
{
    if from < children.len() {
        let first = emitted(children[from as int], raw, Some(token), from, body_taken);
        let taken = body_taken || has_body(first);
        let rest = emitted_children(children, raw, token, from + 1, taken);
        lemma_descriptions_lie_in_the_text(children[from as int], raw, Some(token), from, body_taken);
        lemma_child_descriptions_lie_in_the_text(children, raw, token, from + 1, taken);
        assert forall|k: int| 0 <= k < (first + rest).len() implies (#[trigger] (first + rest)[k]).within(
            raw.len() as int,
        ) by {
            if k < first.len() {
                assert(first[k].within(raw.len() as int));
            } else {
                assert(rest[k - first.len()].within(raw.len() as int));
            }
        }
    }
}

/// The walk gives at most one description with the body role, and none where
/// the body was taken before.
pub proof fn lemma_walk_gives_one_body_at_most(
    node: StructureNode,
    raw: Seq<u8>,
    separator: Option<Seq<char>>,
    index: nat,
    body_taken: bool,
)
    ensures
        at_most_one_body(emitted(node, raw, separator, index, body_taken)),
        body_taken ==> !has_body(emitted(node, raw, separator, index, body_taken)),
        forall|k: int|
            0 <= k < emitted(node, raw, separator, index, body_taken).len() ==> (
            #[trigger] emitted(node, raw, separator, index, body_taken)[k]).well_formed(),
    decreases node,
{
    match node {
        StructureNode::Leaf(leaf) => {},
        StructureNode::NestedMessage => {},
        StructureNode::Multipart { params, children } => {
            match parameter_value(params@, boundary_key()) {
                Some(token) => {
                    lemma_children_give_one_body_at_most(children, raw, token, 0, body_taken);
                },
                None => {},
            }
        },
    }
}

/// The walk of the children from `from` on gives at most one description with
/// the body role, and none where the body was taken before.
pub proof fn lemma_children_give_one_body_at_most(
    children: Vec<StructureNode>,
    raw: Seq<u8>,
    token: Seq<char>,
    from: nat,
    body_taken: bool,
)
    ensures
        at_most_one_body(emitted_children(children, raw, token, from, body_taken)),
        body_taken ==> !has_body(emitted_children(children, raw, token, from, body_taken)),
        forall|k: int|
            0 <= k < emitted_children(children, raw, token, from, body_taken).len() ==> (
            #[trigger] emitted_children(children, raw, token, from, body_taken)[k]).well_formed(),
    decreases children, children.len() - from,
{
    if from < children.len() {
        let first = emitted(children[from as int], raw, Some(token), from, body_taken);
        let taken = body_taken || has_body(first);
        let rest = emitted_children(children, raw, token, from + 1, taken);
        lemma_walk_gives_one_body_at_most(children[from as int], raw, Some(token), from, body_taken);
        lemma_children_give_one_body_at_most(children, raw, token, from + 1, taken);
        lemma_has_body_of_concat(first, rest);
        lemma_one_body_of_concat(first, rest);
    }
}

/// The analysis of a message holds at most one description with the body
/// role, and no description is body and attachment at once.
pub proof fn lemma_analysis_has_one_body_at_most(structure: StructureNode, raw: Seq<u8>)
    ensures
        at_most_one_body(analysis_of(structure, raw)),
        forall|k: int|
            0 <= k < analysis_of(structure, raw).len() ==> (#[trigger] analysis_of(
                structure,
                raw,
            )[k]).well_formed(),
{
    lemma_walk_gives_one_body_at_most(structure, raw, None, 0, false);
}

/// Analysing a message again gives the same descriptions: two analyses of one
/// structure tree over one raw text agree in every description.
pub proof fn lemma_analysis_is_repeatable(
    structure: StructureNode,
    raw: Seq<u8>,
    first: EmailAnalysis,
    second: EmailAnalysis,
)
    requires
        first@ == analysis_of(structure, raw),
        second@ == analysis_of(structure, raw),
    ensures
        first@ == second@,
        first@.len() == second@.len(),
        forall|k: int| 0 <= k < first@.len() ==> first@[k] == second@[k],
{
}

} // verus!
