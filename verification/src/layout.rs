//! The order of the descriptions of a message in its raw text.
//!
//! Parts are found by counting sections, one boundary token at a time, so the
//! order of what is found rests on how the sections of nested multiparts lie
//! in the text.  A message is well nested where every multipart that stands
//! inside another is itself found as a section of it, and the sections of its
//! own children lie between the start of that section and the start of the
//! next.  The descriptions of such a message come in the order of the
//! document and do not overlap.

use crate::helper_models::PartDescriptor;
use crate::locator::{
    lemma_nth_section_is_ordered,
    lemma_sections_follow_one_another,
    lemma_sections_stop,
    nth_section,
};
use crate::structure::{boundary_key, parameter_value, StructureNode};
use crate::walker::{analysis_of, emitted, emitted_children};
use vstd::prelude::*;
use vstd::utf8::encode_utf8;

verus! {

/// The description holds a range that was found in the text: its range does
/// not end at the head of the buffer.
pub open spec fn is_located(descriptor: PartDescriptor) -> bool {
    descriptor.bytes_end > 0
}

/// Every description ends before any located description behind it starts.
pub open spec fn in_document_order(descriptors: Seq<PartDescriptor>) -> bool {
    forall|i: int, j: int|
        0 <= i < j < descriptors.len() && is_located(#[trigger] descriptors[j]) ==> (
        #[trigger] descriptors[i]).bytes_end <= descriptors[j].bytes_start
}

/// The two ranges share no byte.
pub open spec fn disjoint(a: PartDescriptor, b: PartDescriptor) -> bool {
    a.bytes_end <= b.bytes_start || b.bytes_end <= a.bytes_start
}

/// Where the room of child `index` ends: at the start of the section of the
/// next child where there is one, else at `hi`.
pub open spec fn child_room_end(
    raw: Seq<u8>,
    token: Seq<u8>,
    count: nat,
    index: nat,
    hi: int,
) -> int {
    if index + 1 < count {
        match nth_section(raw, token, index + 1) {
            Some(next) => next.start as int,
            None => hi,
        }
    } else {
        hi
    }
}

/// The tree under `node` is well nested in the room from `lo` to `hi`.
pub open spec fn well_nested(node: StructureNode, raw: Seq<u8>, lo: int, hi: int) -> bool
    decreases node,
{
    match node {
        StructureNode::Multipart { params, children } => match parameter_value(
            params@,
            boundary_key(),
        ) {
            Some(token) => well_nested_children(children, raw, token, 0, lo, hi),
            None => true,
        },
        _ => true,
    }
}

/// The children from `from` on are well nested in the room from `lo` to `hi`:
/// the section of each child lies in the room, each child is well nested in
/// the room of its own, and a child without a section is no multipart with a
/// boundary.
pub open spec fn well_nested_children(
    children: Vec<StructureNode>,
    raw: Seq<u8>,
    token: Seq<char>,
    from: nat,
    lo: int,
    hi: int,
) -> bool
    decreases children, children.len() - from,
{
    if from >= children.len() {
        true
    } else {
        &&& match nth_section(raw, encode_utf8(token), from) {
            Some(section) => {
                &&& lo <= section.start
                &&& section.end <= hi
                &&& well_nested(
                    children[from as int],
                    raw,
                    section.start as int,
                    child_room_end(raw, encode_utf8(token), children.len() as nat, from, hi),
                )
            },
            None => children[from as int].boundary() is None,
        }
        &&& well_nested_children(children, raw, token, from + 1, lo, hi)
    }
}

/// Under a boundary token, the located descriptions of a well-nested node lie
/// in its room and come in the order of the document.
pub proof fn lemma_node_in_order(
    node: StructureNode,
    raw: Seq<u8>,
    token: Seq<char>,
    index: nat,
    body_taken: bool,
    lo: int,
    hi: int,
)
    requires
        well_nested(node, raw, lo, hi),
        node is Leaf ==> (nth_section(raw, encode_utf8(token), index) matches Some(section) ==> lo
            <= section.start && section.end <= hi),
    ensures
        in_document_order(emitted(node, raw, Some(token), index, body_taken)),
        forall|k: int|
            0 <= k < emitted(node, raw, Some(token), index, body_taken).len() && is_located(
                #[trigger] emitted(node, raw, Some(token), index, body_taken)[k],
            ) ==> lo <= emitted(node, raw, Some(token), index, body_taken)[k].bytes_start
                && emitted(node, raw, Some(token), index, body_taken)[k].bytes_end <= hi,
    decreases node,
{
    match node {
        StructureNode::Leaf(leaf) => {
            lemma_nth_section_is_ordered(raw, encode_utf8(token), index);
        },
        StructureNode::NestedMessage => {},
        StructureNode::Multipart { params, children } => {
            match parameter_value(params@, boundary_key()) {
                Some(own) => {
                    lemma_children_in_order(children, raw, own, 0, body_taken, lo, hi);
                },
                None => {},
            }
        },
    }
}

/// The located descriptions of well-nested children lie behind the start of
/// the section of the first of them and before the end of the room, and come
/// in the order of the document.
pub proof fn lemma_children_in_order(
    children: Vec<StructureNode>,
    raw: Seq<u8>,
    token: Seq<char>,
    from: nat,
    body_taken: bool,
    lo: int,
    hi: int,
)
    requires
        well_nested_children(children, raw, token, from, lo, hi),
    ensures
        in_document_order(emitted_children(children, raw, token, from, body_taken)),
        forall|k: int|
            0 <= k < emitted_children(children, raw, token, from, body_taken).len() && is_located(
                #[trigger] emitted_children(children, raw, token, from, body_taken)[k],
            ) ==> {
                &&& nth_section(raw, encode_utf8(token), from) is Some
                &&& lo <= nth_section(raw, encode_utf8(token), from)->0.start
                &&& nth_section(raw, encode_utf8(token), from)->0.start <= emitted_children(
                    children,
                    raw,
                    token,
                    from,
                    body_taken,
                )[k].bytes_start
                &&& emitted_children(children, raw, token, from, body_taken)[k].bytes_end <= hi
            },
    decreases children, children.len() - from,
{
    if from < children.len() {
        let bytes = encode_utf8(token);
        let child = children[from as int];
        let first = emitted(child, raw, Some(token), from, body_taken);
        let taken = body_taken || crate::helper_models::has_body(first);
        let rest = emitted_children(children, raw, token, from + 1, taken);
        let all = first + rest;
        let room_end = child_room_end(raw, bytes, children.len() as nat, from, hi);
        lemma_children_in_order(children, raw, token, from + 1, taken, lo, hi);
        lemma_nth_section_is_ordered(raw, bytes, from);
        lemma_nth_section_is_ordered(raw, bytes, from + 1);
        if nth_section(raw, bytes, from + 1) is Some {
            lemma_sections_follow_one_another(raw, bytes, from, from + 1);
        }
        match nth_section(raw, bytes, from) {
            Some(section) => {
                assert(section.end <= room_end && room_end <= hi) by {
                    if from + 1 < children.len() {
                        assert(well_nested_children(children, raw, token, from + 1, lo, hi));
                    }
                }
                lemma_node_in_order(child, raw, token, from, body_taken, section.start as int, room_end);
                assert forall|k: int| 0 <= k < rest.len() && is_located(#[trigger] rest[k]) implies room_end
                    <= rest[k].bytes_start by {
                    assert(from + 1 < children.len());
                }
            },
            None => {
                lemma_sections_stop(raw, bytes, from, from + 1);
                assert forall|k: int| 0 <= k < first.len() implies !is_located(#[trigger] first[k]) by {
                    match child {
                        StructureNode::Leaf(leaf) => {},
                        StructureNode::NestedMessage => {},
                        StructureNode::Multipart { params, children } => {},
                    }
                }
            },
        }
        assert forall|i: int, j: int| 0 <= i < j < all.len() && is_located(#[trigger] all[j]) implies (
        #[trigger] all[i]).bytes_end <= all[j].bytes_start by {
            if j < first.len() {
                assert(is_located(first[j]));
                assert(first[i].bytes_end <= first[j].bytes_start);
            } else if i >= first.len() {
                assert(is_located(rest[j - first.len()]));
                assert(rest[i - first.len()].bytes_end <= rest[j - first.len()].bytes_start);
            } else {
                assert(is_located(rest[j - first.len()]));
                if is_located(first[i]) {
                    assert(first[i].bytes_end <= room_end);
                }
            }
        }
        assert forall|k: int| 0 <= k < all.len() && is_located(#[trigger] all[k]) implies {
            &&& nth_section(raw, bytes, from) is Some
            &&& lo <= nth_section(raw, bytes, from)->0.start
            &&& nth_section(raw, bytes, from)->0.start <= all[k].bytes_start
            &&& all[k].bytes_end <= hi
        } by {
            if k < first.len() {
                assert(is_located(first[k]));
            } else {
                assert(is_located(rest[k - first.len()]));
            }
        }
    }
}

/// The descriptions of a well-nested message come in the order of the
/// document: each ends before any located description behind it starts.
pub proof fn lemma_analysis_in_document_order(structure: StructureNode, raw: Seq<u8>)
    requires
        well_nested(structure, raw, 0, raw.len() as int),
    ensures
        in_document_order(analysis_of(structure, raw)),
{
    match structure {
        StructureNode::Leaf(leaf) => {},
        StructureNode::NestedMessage => {},
        StructureNode::Multipart { params, children } => {
            match parameter_value(params@, boundary_key()) {
                Some(token) => {
                    lemma_children_in_order(children, raw, token, 0, false, 0, raw.len() as int);
                },
                None => {},
            }
        },
    }
}

/// No two descriptions of a well-nested message overlap.
pub proof fn lemma_descriptions_do_not_overlap(structure: StructureNode, raw: Seq<u8>, i: int, j: int)
    requires
        well_nested(structure, raw, 0, raw.len() as int),
        0 <= i < j < analysis_of(structure, raw).len(),
    ensures
        disjoint(analysis_of(structure, raw)[i], analysis_of(structure, raw)[j]),
{
    lemma_analysis_in_document_order(structure, raw);
}

/// The children from `from` on are leaves, embedded messages or multiparts
/// without a boundary.
pub open spec fn holds_no_nested_multipart(children: Vec<StructureNode>, from: nat) -> bool {
    forall|k: int| from <= k < children.len() ==> (#[trigger] children[k]).boundary() is None
}

/// A multipart whose children hold no multipart with a boundary is well
/// nested in the whole text, whatever the text holds.
pub proof fn lemma_flat_children_are_well_nested(
    children: Vec<StructureNode>,
    raw: Seq<u8>,
    token: Seq<char>,
    from: nat,
)
    requires
        holds_no_nested_multipart(children, from),
    ensures
        well_nested_children(children, raw, token, from, 0, raw.len() as int),
    decreases children.len() - from,
{
    if from < children.len() {
        lemma_nth_section_is_ordered(raw, encode_utf8(token), from);
        lemma_flat_children_are_well_nested(children, raw, token, from + 1);
        let child = children[from as int];
        assert(child.boundary() is None);
        let bytes = encode_utf8(token);
        if let Some(section) = nth_section(raw, bytes, from) {
            let room_end = child_room_end(raw, bytes, children.len() as nat, from, raw.len() as int);
            assert(well_nested(child, raw, section.start as int, room_end)) by {
                match child {
                    StructureNode::Leaf(leaf) => {},
                    StructureNode::NestedMessage => {},
                    StructureNode::Multipart { params, children } => {},
                }
            }
            assert(0 <= section.start);
            assert(section.end <= raw.len());
        }
        assert(well_nested_children(children, raw, token, from + 1, 0, raw.len() as int));
    }
}

/// A message of one multipart whose children hold no multipart with a
/// boundary is well nested, whatever its raw text holds.
pub proof fn lemma_flat_message_is_well_nested(structure: StructureNode, raw: Seq<u8>)
    requires
        structure matches StructureNode::Multipart { children, .. } ==> holds_no_nested_multipart(
            children,
            0,
        ),
    ensures
        well_nested(structure, raw, 0, raw.len() as int),
{
    match structure {
        StructureNode::Multipart { params, children } => {
            match parameter_value(params@, boundary_key()) {
                Some(token) => {
                    lemma_flat_children_are_well_nested(children, raw, token, 0);
                },
                None => {},
            }
        },
        _ => {},
    }
}

} // verus!
