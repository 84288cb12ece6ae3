//! Multipart bodies that stand inside one another.
//!
//! A message is laid out where the text of every multipart stands in the raw
//! text as a sender writes it: a preamble, part after part, the closing
//! delimiter and an epilogue, with the text of each nested multipart inside
//! the content of the part that carries it, and where no boundary line of a
//! multipart stands before the first of its own delimiters.  Every part of
//! such a message is found where it was written, and the message is well
//! nested.

use crate::assembler::part_content;
use crate::helper_models::has_body;
use crate::layout::{
    child_room_end,
    disjoint,
    in_document_order,
    lemma_analysis_in_document_order,
    lemma_descriptions_do_not_overlap,
    well_nested,
    well_nested_children,
};
use crate::locator::{
    boundary_line_at,
    first_boundary_line,
    is_section_from,
    lemma_section_from_is_unique,
    located_range,
    nth_section,
    section_from,
    Section,
};
use crate::rendering::{
    body_text_from,
    lemma_body_starts_with_delimiter,
    lemma_part_text_holds_its_part,
    lemma_part_written_behind_offset,
    lemma_text_behind_offset,
    lemma_written_part_is_a_section,
    multipart_text,
    part_offset,
    part_text,
    part_written_at,
    parts_well_formed,
    section_written_at,
    token_on_one_line,
    PartText,
};
use crate::structure::{boundary_key, parameter_value, StructureNode};
use crate::walker::{analysis_of, emitted, emitted_children};
use vstd::prelude::*;
use vstd::utf8::encode_utf8;

verus! {

/// `raw` holds `text` from `at` on.
pub open spec fn holds_text_at(raw: Seq<u8>, text: Seq<u8>, at: int) -> bool {
    &&& 0 <= at
    &&& at + text.len() <= raw.len()
    &&& forall|k: int| 0 <= k < text.len() ==> raw[at + k] == #[trigger] text[k]
}

/// No boundary line of the token starts before `at`.
pub open spec fn token_fresh_before(raw: Seq<u8>, token: Seq<u8>, at: int) -> bool {
    forall|j: int| 0 <= j < at ==> !boundary_line_at(raw, token, j)
}

/// Where part `index` of a multipart body starts whose text stands at `base`.
pub open spec fn part_start(token: Seq<u8>, parts: Seq<PartText>, base: int, index: nat) -> int {
    base + part_offset(token, parts, index)
}

/// Part `index` of a multipart body whose text stands in `raw` at `base`
/// stands in `raw` at its start.
pub proof fn lemma_embedded_part_is_written(
    raw: Seq<u8>,
    token: Seq<u8>,
    parts: Seq<PartText>,
    base: int,
    index: nat,
)
    requires
        holds_text_at(raw, multipart_text(token, parts), base),
        index < parts.len(),
    ensures
        part_written_at(raw, token, parts[index as int], part_start(token, parts, base, index)),
        part_start(token, parts, base, index) + part_text(token, parts[index as int]).len()
            == part_start(token, parts, base, index + 1),
        part_start(token, parts, base, index + 1) <= base + multipart_text(token, parts).len(),
{
    let whole = multipart_text(token, parts);
    let text = body_text_from(token, parts, index);
    let rest = body_text_from(token, parts, index + 1);
    let at = part_start(token, parts, base, index);
    lemma_body_starts_with_delimiter(token, parts, index + 1);
    lemma_part_text_holds_its_part(token, parts[index as int], rest);
    lemma_text_behind_offset(token, parts, index);
    lemma_text_behind_offset(token, parts, index + 1);
    assert forall|k: int| 0 <= k < text.len() implies raw[at + k] == #[trigger] text[k] by {
        assert(raw[base + (part_offset(token, parts, index) + k)] == whole[part_offset(
            token,
            parts,
            index,
        ) + k]);
    }
    lemma_part_written_behind_offset(raw, text, token, parts[index as int], at);
}

/// Every part of a multipart body whose text stands in `raw` is found as the
/// section with its index, at the place where it was written, where no
/// boundary line of the token stands before the text.
pub proof fn lemma_embedded_part_is_the_section_with_its_index(
    raw: Seq<u8>,
    token: Seq<u8>,
    parts: Seq<PartText>,
    base: int,
    index: nat,
)
    requires
        raw.len() <= usize::MAX,
        holds_text_at(raw, multipart_text(token, parts), base),
        token_fresh_before(raw, token, base),
        token_on_one_line(token),
        parts_well_formed(token, parts),
        index < parts.len(),
    ensures
        nth_section(raw, token, index) == Some(
            section_written_at(
                token,
                parts[index as int],
                part_start(token, parts, base, index),
            ),
        ),
    decreases index,
{
    let at = part_start(token, parts, base, index);
    let section = section_written_at(token, parts[index as int], at);
    lemma_embedded_part_is_written(raw, token, parts, base, index);
    lemma_written_part_is_a_section(raw, token, parts[index as int], at);
    if index > 0 {
        let before = (index - 1) as nat;
        lemma_embedded_part_is_the_section_with_its_index(raw, token, parts, base, before);
        lemma_embedded_part_is_written(raw, token, parts, base, before);
        let previous = section_written_at(
            token,
            parts[before as int],
            part_start(token, parts, base, before),
        );
        assert(previous.end == at);
        let chosen = choose|other: Section| is_section_from(raw, token, at, other);
        lemma_section_from_is_unique(raw, token, at, section, chosen);
        assert(section_from(raw, token, at) == Some(section));
    } else {
        assert(at == base);
        assert(first_boundary_line(raw, token, 0, at));
        assert(is_section_from(raw, token, 0, section));
        let chosen = choose|other: Section| is_section_from(raw, token, 0, other);
        lemma_section_from_is_unique(raw, token, 0, section, chosen);
        assert(section_from(raw, token, 0) == Some(section));
    }
}

/// The content of every part of a multipart body whose text stands in `raw`
/// is located where it was written: the located range holds the bytes of the
/// content of the part.
pub proof fn lemma_written_content_is_located(
    raw: Seq<u8>,
    token: Seq<u8>,
    parts: Seq<PartText>,
    base: int,
    index: nat,
)
    requires
        raw.len() <= usize::MAX,
        holds_text_at(raw, multipart_text(token, parts), base),
        token_fresh_before(raw, token, base),
        token_on_one_line(token),
        parts_well_formed(token, parts),
        index < parts.len(),
    ensures
        located_range(raw, token, index).0 == content_start(token, parts, base, index),
        located_range(raw, token, index).1 == content_start(token, parts, base, index)
            + parts[index as int].content.len(),
        located_range(raw, token, index).1 <= raw.len(),
        raw.subrange(
            located_range(raw, token, index).0 as int,
            located_range(raw, token, index).1 as int,
        ) == parts[index as int].content,
{
    let part = parts[index as int];
    let section = section_written_at(token, part, part_start(token, parts, base, index));
    lemma_embedded_part_is_the_section_with_its_index(raw, token, parts, base, index);
    lemma_embedded_part_is_written(raw, token, parts, base, index);
    assert forall|k: int| 0 <= k < part.content.len() implies raw[section.content_start + k]
        == #[trigger] part.content[k] by {}
    assert(raw.subrange(section.content_start as int, section.content_end as int)
        =~= part.content);
}

/// How a part was written: its header block and its content.  Where the
/// content holds a multipart, it is made up of a preamble, the text of the
/// parts of that multipart with its closing delimiter, and an epilogue.
pub struct WrittenPart {
    pub headers: Seq<u8>,
    pub content: Seq<u8>,
    /// What stands in the content before the first delimiter.
    pub preamble: Seq<u8>,
    /// The parts of the multipart that the content holds.
    pub inner: Seq<WrittenPart>,
    /// What stands in the content behind the closing delimiter.
    pub epilogue: Seq<u8>,
}

/// The content of a part that holds a multipart: the preamble, the text of
/// the multipart and the epilogue.
pub open spec fn multipart_content(token: Seq<u8>, part: WrittenPart) -> Seq<u8> {
    part.preamble + multipart_text(token, texts(part.inner)) + part.epilogue
}

/// Where `raw` holds the content of a part that holds a multipart, it holds
/// the text of the multipart behind the preamble.
pub proof fn lemma_holds_multipart_behind_preamble(
    raw: Seq<u8>,
    token: Seq<u8>,
    part: WrittenPart,
    at: int,
)
    requires
        holds_text_at(raw, part.content, at),
        part.content == multipart_content(token, part),
    ensures
        holds_text_at(raw, multipart_text(token, texts(part.inner)), at + part.preamble.len()),
        at + part.preamble.len() + multipart_text(token, texts(part.inner)).len() <= at
            + part.content.len(),
{
    let text = multipart_text(token, texts(part.inner));
    let base = at + part.preamble.len();
    assert forall|k: int| 0 <= k < text.len() implies raw[base + k] == #[trigger] text[k] by {
        assert(part.content[part.preamble.len() + k] == text[k]);
        assert(raw[at + (part.preamble.len() + k)] == part.content[part.preamble.len() + k]);
    }
}

/// The header blocks and the contents of written parts.
pub open spec fn texts(parts: Seq<WrittenPart>) -> Seq<PartText> {
    Seq::new(parts.len(), |k: int| PartText { headers: parts[k].headers, content: parts[k].content })
}

/// Where the content of part `index` starts in a multipart body whose text
/// stands at `base`.
pub open spec fn content_start(token: Seq<u8>, parts: Seq<PartText>, base: int, index: nat) -> int {
    part_start(token, parts, base, index) + 2 + token.len() + 2 + parts[index as int].headers.len()
        + 4
}

/// The tree under `node` is laid out in `raw` as `part` was written, with the
/// content of `part` at `at`: the content of every multipart with a boundary
/// is a preamble, the text of its parts, one for each child, and an epilogue,
/// its token stays on one line and has no boundary line before the first of
/// its delimiters, its parts are well formed, and every child is laid out in
/// turn.
pub open spec fn laid_out(node: StructureNode, raw: Seq<u8>, part: WrittenPart, at: int) -> bool
    decreases node,
{
    match node {
        StructureNode::Multipart { params, children } => match parameter_value(
            params@,
            boundary_key(),
        ) {
            Some(token) => {
                &&& part.content == multipart_content(encode_utf8(token), part)
                &&& part.inner.len() == children.len()
                &&& token_on_one_line(encode_utf8(token))
                &&& parts_well_formed(encode_utf8(token), texts(part.inner))
                &&& token_fresh_before(raw, encode_utf8(token), at + part.preamble.len())
                &&& laid_out_children(
                    children,
                    raw,
                    encode_utf8(token),
                    part.inner,
                    at + part.preamble.len(),
                    0,
                )
            },
            None => true,
        },
        _ => true,
    }
}

/// The children from `from` on are laid out as the parts of a multipart body
/// whose text stands at `base`.
pub open spec fn laid_out_children(
    children: Vec<StructureNode>,
    raw: Seq<u8>,
    token: Seq<u8>,
    inner: Seq<WrittenPart>,
    base: int,
    from: nat,
) -> bool
    decreases children, children.len() - from,
{
    if from >= children.len() || from >= inner.len() {
        true
    } else {
        &&& laid_out(
            children[from as int],
            raw,
            inner[from as int],
            content_start(token, texts(inner), base, from),
        )
        &&& laid_out_children(children, raw, token, inner, base, from + 1)
    }
}

/// The message is laid out as `part` was written: its raw text is the content
/// of `part`, and its structure tree is laid out in it.
pub open spec fn message_laid_out(structure: StructureNode, raw: Seq<u8>, part: WrittenPart) -> bool {
    part.content == raw && laid_out(structure, raw, part, 0)
}

/// A tree that is laid out in a room is well nested in that room.
pub proof fn lemma_laid_out_is_well_nested(
    node: StructureNode,
    raw: Seq<u8>,
    part: WrittenPart,
    at: int,
    lo: int,
    hi: int,
)
    requires
        raw.len() <= usize::MAX,
        laid_out(node, raw, part, at),
        holds_text_at(raw, part.content, at),
        lo <= at,
        at + part.content.len() <= hi,
    ensures
        well_nested(node, raw, lo, hi),
    decreases node,
{
    match node {
        StructureNode::Multipart { params, children } => {
            match parameter_value(params@, boundary_key()) {
                Some(token) => {
                    lemma_holds_multipart_behind_preamble(raw, encode_utf8(token), part, at);
                    lemma_laid_out_children_are_well_nested(
                        children,
                        raw,
                        token,
                        part.inner,
                        at + part.preamble.len(),
                        0,
                        lo,
                        hi,
                    );
                },
                None => {},
            }
        },
        _ => {},
    }
}

/// Children that are laid out as the parts of a multipart body in a room are
/// well nested in that room.
pub proof fn lemma_laid_out_children_are_well_nested(
    children: Vec<StructureNode>,
    raw: Seq<u8>,
    token: Seq<char>,
    inner: Seq<WrittenPart>,
    base: int,
    from: nat,
    lo: int,
    hi: int,
)
    requires
        raw.len() <= usize::MAX,
        inner.len() == children.len(),
        holds_text_at(raw, multipart_text(encode_utf8(token), texts(inner)), base),
        token_fresh_before(raw, encode_utf8(token), base),
        token_on_one_line(encode_utf8(token)),
        parts_well_formed(encode_utf8(token), texts(inner)),
        laid_out_children(children, raw, encode_utf8(token), inner, base, from),
        lo <= base,
        base + multipart_text(encode_utf8(token), texts(inner)).len() <= hi,
    ensures
        well_nested_children(children, raw, token, from, lo, hi),
    decreases children, children.len() - from,
{
    if from < children.len() {
        let bytes = encode_utf8(token);
        let parts = texts(inner);
        let start = part_start(bytes, parts, base, from);
        let section = section_written_at(bytes, parts[from as int], start);
        lemma_embedded_part_is_the_section_with_its_index(raw, bytes, parts, base, from);
        lemma_embedded_part_is_written(raw, bytes, parts, base, from);
        if from + 1 < children.len() {
            lemma_embedded_part_is_the_section_with_its_index(raw, bytes, parts, base, from + 1);
        }
        let room_end = child_room_end(raw, bytes, children.len() as nat, from, hi);
        assert(section.end <= room_end);
        assert(parts[from as int].content == inner[from as int].content);
        assert(holds_text_at(raw, inner[from as int].content, section.content_start as int));
        lemma_laid_out_is_well_nested(
            children[from as int],
            raw,
            inner[from as int],
            section.content_start as int,
            section.start as int,
            room_end,
        );
        lemma_laid_out_children_are_well_nested(children, raw, token, inner, base, from + 1, lo, hi);
    }
}

/// A message that is laid out is well nested: its descriptions come in the
/// order of the document and do not overlap.
pub proof fn lemma_laid_out_message_is_in_document_order(
    structure: StructureNode,
    raw: Seq<u8>,
    part: WrittenPart,
)
    requires
        raw.len() <= usize::MAX,
        message_laid_out(structure, raw, part),
    ensures
        well_nested(structure, raw, 0, raw.len() as int),
        in_document_order(analysis_of(structure, raw)),
        forall|i: int, j: int|
            0 <= i < j < analysis_of(structure, raw).len() ==> disjoint(
                #[trigger] analysis_of(structure, raw)[i],
                #[trigger] analysis_of(structure, raw)[j],
            ),
{
    lemma_laid_out_is_well_nested(structure, raw, part, 0, 0, raw.len() as int);
    lemma_analysis_in_document_order(structure, raw);
    assert forall|i: int, j: int| 0 <= i < j < analysis_of(structure, raw).len() implies disjoint(
        #[trigger] analysis_of(structure, raw)[i],
        #[trigger] analysis_of(structure, raw)[j],
    ) by {
        lemma_descriptions_do_not_overlap(structure, raw, i, j);
    }
}

/// The contents of the leaves that the walk of `node` reaches, as they were
/// written, in the order of the document.
pub open spec fn written_contents(node: StructureNode, part: WrittenPart) -> Seq<Seq<u8>>
    decreases node,
{
    match node {
        StructureNode::Leaf(_) => seq![part.content],
        StructureNode::NestedMessage => Seq::empty(),
        StructureNode::Multipart { params, children } => match parameter_value(
            params@,
            boundary_key(),
        ) {
            Some(_) => written_contents_of(children, part.inner, 0),
            None => Seq::empty(),
        },
    }
}

/// The contents of the leaves that the walk reaches under the children from
/// `from` on, as they were written.
pub open spec fn written_contents_of(
    children: Vec<StructureNode>,
    inner: Seq<WrittenPart>,
    from: nat,
) -> Seq<Seq<u8>>
    decreases children, children.len() - from,
{
    if from >= children.len() || from >= inner.len() {
        Seq::empty()
    } else {
        written_contents(children[from as int], inner[from as int]) + written_contents_of(
            children,
            inner,
            from + 1,
        )
    }
}

/// Under a boundary token, the walk of a laid-out node gives one description
/// for each leaf that it reaches, and the range of each holds the bytes that
/// were written as the content of its leaf.
pub proof fn lemma_laid_out_node_is_resolved(
    node: StructureNode,
    raw: Seq<u8>,
    token: Seq<char>,
    index: nat,
    body_taken: bool,
    part: WrittenPart,
    at: int,
)
    requires
        raw.len() <= usize::MAX,
        laid_out(node, raw, part, at),
        holds_text_at(raw, part.content, at),
        node is Leaf ==> (nth_section(raw, encode_utf8(token), index) matches Some(section)
            && section.content_start == at && section.content_end == at + part.content.len()),
    ensures
        emitted(node, raw, Some(token), index, body_taken).len() == written_contents(
            node,
            part,
        ).len(),
        forall|k: int|
            0 <= k < written_contents(node, part).len() ==> part_content(
                raw,
                #[trigger] emitted(node, raw, Some(token), index, body_taken)[k],
            ) == written_contents(node, part)[k],
    decreases node,
{
    match node {
        StructureNode::Leaf(leaf) => {
            let only = emitted(node, raw, Some(token), index, body_taken)[0];
            assert(only.bytes_start == at && only.bytes_end == at + part.content.len());
            assert(raw.subrange(at, at + part.content.len()) =~= part.content);
        },
        StructureNode::NestedMessage => {},
        StructureNode::Multipart { params, children } => {
            match parameter_value(params@, boundary_key()) {
                Some(own) => {
                    lemma_holds_multipart_behind_preamble(raw, encode_utf8(own), part, at);
                    lemma_laid_out_children_are_resolved(
                        children,
                        raw,
                        own,
                        part.inner,
                        at + part.preamble.len(),
                        0,
                        body_taken,
                    );
                },
                None => {},
            }
        },
    }
}

/// The walk of laid-out children gives one description for each leaf that it
/// reaches, and the range of each holds the bytes that were written as the
/// content of its leaf.
pub proof fn lemma_laid_out_children_are_resolved(
    children: Vec<StructureNode>,
    raw: Seq<u8>,
    token: Seq<char>,
    inner: Seq<WrittenPart>,
    base: int,
    from: nat,
    body_taken: bool,
)
    requires
        raw.len() <= usize::MAX,
        inner.len() == children.len(),
        holds_text_at(raw, multipart_text(encode_utf8(token), texts(inner)), base),
        token_fresh_before(raw, encode_utf8(token), base),
        token_on_one_line(encode_utf8(token)),
        parts_well_formed(encode_utf8(token), texts(inner)),
        laid_out_children(children, raw, encode_utf8(token), inner, base, from),
    ensures
        emitted_children(children, raw, token, from, body_taken).len() == written_contents_of(
            children,
            inner,
            from,
        ).len(),
        forall|k: int|
            0 <= k < written_contents_of(children, inner, from).len() ==> part_content(
                raw,
                #[trigger] emitted_children(children, raw, token, from, body_taken)[k],
            ) == written_contents_of(children, inner, from)[k],
    decreases children, children.len() - from,
{
    if from < children.len() {
        let bytes = encode_utf8(token);
        let parts = texts(inner);
        let child = children[from as int];
        let start = part_start(bytes, parts, base, from);
        let section = section_written_at(bytes, parts[from as int], start);
        let first = emitted(child, raw, Some(token), from, body_taken);
        let taken = body_taken || has_body(first);
        let rest = emitted_children(children, raw, token, from + 1, taken);
        let first_written = written_contents(child, inner[from as int]);
        let rest_written = written_contents_of(children, inner, from + 1);
        lemma_embedded_part_is_the_section_with_its_index(raw, bytes, parts, base, from);
        lemma_embedded_part_is_written(raw, bytes, parts, base, from);
        assert(parts[from as int].content == inner[from as int].content);
        assert(holds_text_at(raw, inner[from as int].content, section.content_start as int));
        lemma_laid_out_node_is_resolved(
            child,
            raw,
            token,
            from,
            body_taken,
            inner[from as int],
            section.content_start as int,
        );
        lemma_laid_out_children_are_resolved(children, raw, token, inner, base, from + 1, taken);
        assert forall|k: int| 0 <= k < (first_written + rest_written).len() implies part_content(
            raw,
            #[trigger] (first + rest)[k],
        ) == (first_written + rest_written)[k] by {
            if k < first.len() {
                assert((first + rest)[k] == first[k]);
            } else {
                assert((first + rest)[k] == rest[k - first.len()]);
            }
        }
    }
}

/// Every leaf of a laid-out message is resolved to the bytes that were
/// written as its content: the analysis holds one description for each leaf
/// that the walk reaches, in the order of the document, and the range of each
/// description holds the content of its leaf.
pub proof fn lemma_laid_out_message_is_resolved(
    structure: StructureNode,
    raw: Seq<u8>,
    part: WrittenPart,
)
    requires
        raw.len() <= usize::MAX,
        message_laid_out(structure, raw, part),
    ensures
        analysis_of(structure, raw).len() == written_contents(structure, part).len(),
        forall|k: int|
            0 <= k < written_contents(structure, part).len() ==> part_content(
                raw,
                #[trigger] analysis_of(structure, raw)[k],
            ) == written_contents(structure, part)[k],
{
    match structure {
        StructureNode::Leaf(leaf) => {
            assert(raw.subrange(0, raw.len() as int) =~= raw);
        },
        StructureNode::NestedMessage => {},
        StructureNode::Multipart { params, children } => {
            match parameter_value(params@, boundary_key()) {
                Some(token) => {
                    lemma_holds_multipart_behind_preamble(raw, encode_utf8(token), part, 0);
                    lemma_laid_out_children_are_resolved(
                        children,
                        raw,
                        token,
                        part.inner,
                        part.preamble.len() as int,
                        0,
                        false,
                    );
                },
                None => {},
            }
        },
    }
}

} // verus!
