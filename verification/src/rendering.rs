//! The text of a multipart body as a sender writes it, and the proof that a
//! part of such a text is found as a section where it was written.

use crate::locator::{
    after_blank_line,
    after_boundary_line,
    after_closing,
    blank_line_at,
    boundary_line_at,
    closing_at,
    delimiter_at,
    first_blank_line,
    first_closing,
    is_section_from,
    line_break_len,
    Section,
    CR,
    DASH,
    LF,
};
use vstd::prelude::*;

verus! {

/// The header block and the content of one part.
pub struct PartText {
    pub headers: Seq<u8>,
    pub content: Seq<u8>,
}

/// A line break as a sender writes it.
pub open spec fn crlf() -> Seq<u8> {
    seq![CR, LF]
}

/// Two dashes and the boundary token.
pub open spec fn delimiter(token: Seq<u8>) -> Seq<u8> {
    seq![DASH, DASH] + token
}

/// The text of one part: its boundary line, its header block, a blank line,
/// its content and a line break.
pub open spec fn part_text(token: Seq<u8>, part: PartText) -> Seq<u8> {
    delimiter(token) + crlf() + part.headers + crlf() + crlf() + part.content + crlf()
}

/// The delimiter that closes a multipart body: a delimiter with two more
/// dashes behind it.  What stands behind it is left open.
pub open spec fn closing_text(token: Seq<u8>) -> Seq<u8> {
    delimiter(token) + seq![DASH, DASH]
}

/// The text of the parts from `from` on and of the closing delimiter.
pub open spec fn body_text_from(token: Seq<u8>, parts: Seq<PartText>, from: nat) -> Seq<u8>
    decreases parts.len() - from,
{
    if from >= parts.len() {
        closing_text(token)
    } else {
        part_text(token, parts[from as int]) + body_text_from(token, parts, from + 1)
    }
}

/// The text of a multipart body with the given parts.
pub open spec fn multipart_text(token: Seq<u8>, parts: Seq<PartText>) -> Seq<u8> {
    body_text_from(token, parts, 0)
}

/// Where the text of part `index` starts in the text of the body.
pub open spec fn part_offset(token: Seq<u8>, parts: Seq<PartText>, index: nat) -> nat
    decreases index,
{
    if index == 0 {
        0
    } else {
        part_offset(token, parts, (index - 1) as nat) + part_text(
            token,
            parts[index - 1],
        ).len()
    }
}

/// The token holds no line break.
pub open spec fn token_on_one_line(token: Seq<u8>) -> bool {
    forall|k: int| 0 <= k < token.len() ==> #[trigger] token[k] != CR && token[k] != LF
}

/// The header block holds no blank line and does not end in a line break, and
/// the content holds no line break with a delimiter behind it.
pub open spec fn part_well_formed(token: Seq<u8>, part: PartText) -> bool {
    &&& forall|j: int| 0 <= j < part.headers.len() ==> !blank_line_at(part.headers, j)
    &&& part.headers.len() > 0 ==> part.headers.last() != LF
    &&& forall|j: int| 0 <= j < part.content.len() ==> !closing_at(part.content, token, j)
}

/// Every part is well formed.
pub open spec fn parts_well_formed(token: Seq<u8>, parts: Seq<PartText>) -> bool {
    forall|k: int| 0 <= k < parts.len() ==> part_well_formed(token, #[trigger] parts[k])
}

/// The text of the body behind the offset of part `index` is the text of the
/// parts from `index` on.
pub proof fn lemma_text_behind_offset(token: Seq<u8>, parts: Seq<PartText>, index: nat)
    requires
        index <= parts.len(),
    ensures
        part_offset(token, parts, index) + body_text_from(token, parts, index).len()
            == multipart_text(token, parts).len(),
        forall|k: int|
            0 <= k < body_text_from(token, parts, index).len() ==> multipart_text(
                token,
                parts,
            )[part_offset(token, parts, index) + k] == #[trigger] body_text_from(
                token,
                parts,
                index,
            )[k],
    decreases index,
{
    if index > 0 {
        let before = (index - 1) as nat;
        lemma_text_behind_offset(token, parts, before);
        let whole = multipart_text(token, parts);
        let first = part_text(token, parts[before as int]);
        let rest = body_text_from(token, parts, index);
        assert(body_text_from(token, parts, before) == first + rest);
        assert forall|k: int| 0 <= k < rest.len() implies whole[part_offset(token, parts, index)
            + k] == #[trigger] rest[k] by {
            assert((first + rest)[first.len() + k] == rest[k]);
            assert(whole[part_offset(token, parts, before) + (first.len() + k)] == body_text_from(
                token,
                parts,
                before,
            )[first.len() + k]);
        }
    }
}

/// The text of the parts from `from` on starts with a delimiter and holds at
/// least two bytes behind it.
pub proof fn lemma_body_starts_with_delimiter(token: Seq<u8>, parts: Seq<PartText>, from: nat)
    ensures
        body_text_from(token, parts, from).len() >= 2 + token.len() + 2,
        delimiter_at(body_text_from(token, parts, from), token, 0),
{
    let text = body_text_from(token, parts, from);
    if from >= parts.len() {
        assert(text == delimiter(token) + seq![DASH, DASH]);
        assert forall|k: int| 0 <= k < token.len() implies text[2 + k] == #[trigger] token[k] by {
            assert(delimiter(token)[2 + k] == token[k]);
        }
    } else {
        let part = parts[from as int];
        let rest = body_text_from(token, parts, from + 1);
        assert(text == delimiter(token) + crlf() + part.headers + crlf() + crlf() + part.content
            + crlf() + rest);
        assert forall|k: int| 0 <= k < token.len() implies text[2 + k] == #[trigger] token[k] by {
            assert(delimiter(token)[2 + k] == token[k]);
        }
    }
}

/// The text of `part` stands in `raw` from `at` on, with a delimiter behind it.
pub open spec fn part_written_at(raw: Seq<u8>, token: Seq<u8>, part: PartText, at: int) -> bool {
    let line_end = at + 2 + token.len();
    let headers = line_end + 2;
    let header_end = headers + part.headers.len();
    let content = header_end + 4;
    let content_end = content + part.content.len();
    &&& delimiter_at(raw, token, at)
    &&& content_end + 2 <= raw.len()
    &&& raw[line_end] == CR
    &&& raw[line_end + 1] == LF
    &&& forall|k: int| 0 <= k < part.headers.len() ==> raw[headers + k] == #[trigger] part.headers[k]
    &&& raw[header_end] == CR
    &&& raw[header_end + 1] == LF
    &&& raw[header_end + 2] == CR
    &&& raw[header_end + 3] == LF
    &&& forall|k: int| 0 <= k < part.content.len() ==> raw[content + k] == #[trigger] part.content[k]
    &&& raw[content_end] == CR
    &&& raw[content_end + 1] == LF
    &&& delimiter_at(raw, token, content_end + 2)
}

/// The section that a part written at `at` makes up.
pub open spec fn section_written_at(token: Seq<u8>, part: PartText, at: int) -> Section {
    let header_end = at + 2 + token.len() + 2 + part.headers.len();
    let content_end = header_end + 4 + part.content.len();
    Section {
        start: at as usize,
        header_end: header_end as usize,
        content_start: (header_end + 4) as usize,
        content_end: content_end as usize,
        end: (content_end + 2) as usize,
    }
}

/// Inside a header block that was written into `raw`, a line break of `raw`
/// is a line break of the block.
proof fn lemma_line_break_in_headers(raw: Seq<u8>, token: Seq<u8>, part: PartText, at: int, j: int)
    requires
        part_written_at(raw, token, part, at),
        0 <= j < part.headers.len(),
    ensures
        line_break_len(raw, at + 2 + token.len() + 2 + j) == line_break_len(part.headers, j),
{
    let headers = at + 2 + token.len() + 2;
    assert(raw[headers + j] == part.headers[j]);
    if j + 1 < part.headers.len() {
        assert(raw[headers + (j + 1)] == part.headers[j + 1]);
    }
}

/// Inside content that was written into `raw`, a line break of `raw` is a
/// line break of the content.
proof fn lemma_line_break_in_content(raw: Seq<u8>, token: Seq<u8>, part: PartText, at: int, j: int)
    requires
        part_written_at(raw, token, part, at),
        0 <= j < part.content.len(),
    ensures
        line_break_len(raw, at + 2 + token.len() + 2 + part.headers.len() + 4 + j)
            == line_break_len(part.content, j),
{
    let content = at + 2 + token.len() + 2 + part.headers.len() + 4;
    assert(raw[content + j] == part.content[j]);
    if j + 1 < part.content.len() {
        assert(raw[content + (j + 1)] == part.content[j + 1]);
    }
}

/// A well-formed part that was written into `raw` is found as a section when
/// the search starts at its delimiter.
pub proof fn lemma_written_part_is_a_section(raw: Seq<u8>, token: Seq<u8>, part: PartText, at: int)
    requires
        0 <= at,
        raw.len() <= usize::MAX,
        token_on_one_line(token),
        part_well_formed(token, part),
        part_written_at(raw, token, part, at),
    ensures
        is_section_from(raw, token, at, section_written_at(token, part, at)),
{
    let section = section_written_at(token, part, at);
    let line_end = at + 2 + token.len();
    let headers = line_end + 2;
    let header_end = headers + part.headers.len();
    let content = header_end + 4;
    let content_end = content + part.content.len();
    assert(line_break_len(raw, line_end) == 2);
    assert(boundary_line_at(raw, token, at));
    assert(after_boundary_line(raw, token, at) == headers);
    assert(line_break_len(raw, header_end) == 2);
    assert(line_break_len(raw, header_end + 2) == 2);
    assert(blank_line_at(raw, header_end));
    assert(after_blank_line(raw, header_end) == content);
    assert forall|j: int| headers <= j < header_end implies !blank_line_at(raw, j) by {
        let inner = j - headers;
        lemma_line_break_in_headers(raw, token, part, at, inner);
        let first = line_break_len(part.headers, inner);
        if first > 0 {
            if inner + first < part.headers.len() {
                lemma_line_break_in_headers(raw, token, part, at, inner + first);
                assert(!blank_line_at(part.headers, inner));
            } else {
                assert(part.headers[inner + first - 1] == LF);
                assert(part.headers.last() == LF);
            }
        }
    }
    assert(first_blank_line(raw, headers, header_end));
    assert(line_break_len(raw, content_end) == 2);
    assert(closing_at(raw, token, content_end));
    assert(after_closing(raw, content_end) == content_end + 2);
    assert forall|j: int| content <= j < content_end implies !closing_at(raw, token, j) by {
        let inner = j - content;
        lemma_line_break_in_content(raw, token, part, at, inner);
        let first = line_break_len(part.content, inner);
        if first > 0 && delimiter_at(raw, token, j + first) {
            let behind = inner + first;
            if behind + 2 + token.len() <= part.content.len() {
                assert(raw[content + behind] == part.content[behind]);
                assert(raw[content + (behind + 1)] == part.content[behind + 1]);
                assert forall|k: int| 0 <= k < token.len() implies part.content[behind + 2 + k]
                    == #[trigger] token[k] by {
                    assert(raw[content + (behind + 2 + k)] == part.content[behind + 2 + k]);
                }
                assert(delimiter_at(part.content, token, behind));
                assert(closing_at(part.content, token, inner));
            } else {
                let reach = part.content.len() - behind;
                assert(raw[j + first + reach] == CR);
                if reach >= 2 {
                    assert(raw[j + first + 2 + (reach - 2)] == token[reach - 2]);
                }
            }
        }
    }
    assert(first_closing(raw, token, content, content_end));
}

/// The text of a part with a delimiter behind it holds the part from its
/// first byte on.
pub proof fn lemma_part_text_holds_its_part(token: Seq<u8>, part: PartText, rest: Seq<u8>)
    requires
        delimiter_at(rest, token, 0),
    ensures
        part_written_at(part_text(token, part) + rest, token, part, 0),
{
    let text = part_text(token, part) + rest;
    let line_end: int = 2 + token.len() as int;
    let headers = line_end + 2;
    let header_end = headers + part.headers.len();
    let content = header_end + 4;
    let content_end = content + part.content.len();
    let head = delimiter(token) + crlf();
    let with_headers = head + part.headers;
    let with_blank = with_headers + crlf() + crlf();
    let with_content = with_blank + part.content;
    assert(part_text(token, part) == with_content + crlf());
    assert(part_text(token, part).len() == content_end + 2);
    assert forall|k: int| 0 <= k < token.len() implies text[2 + k] == #[trigger] token[k] by {
        assert(delimiter(token)[2 + k] == token[k]);
        assert(head[2 + k] == token[k]);
    }
    assert(text[0] == DASH && text[1] == DASH) by {
        assert(delimiter(token)[0] == DASH);
        assert(delimiter(token)[1] == DASH);
        assert(head[0] == DASH && head[1] == DASH);
    }
    assert(text[line_end] == CR && text[line_end + 1] == LF) by {
        assert(head[line_end] == crlf()[0]);
        assert(head[line_end + 1] == crlf()[1]);
    }
    assert forall|k: int| 0 <= k < part.headers.len() implies text[headers + k]
        == #[trigger] part.headers[k] by {
        assert(with_headers[headers + k] == part.headers[k]);
    }
    assert(text[header_end] == CR && text[header_end + 1] == LF && text[header_end + 2] == CR
        && text[header_end + 3] == LF) by {
        assert((with_headers + crlf())[header_end] == crlf()[0]);
        assert((with_headers + crlf())[header_end + 1] == crlf()[1]);
        assert(with_blank[header_end + 2] == crlf()[0]);
        assert(with_blank[header_end + 3] == crlf()[1]);
    }
    assert forall|k: int| 0 <= k < part.content.len() implies text[content + k]
        == #[trigger] part.content[k] by {
        assert(with_content[content + k] == part.content[k]);
    }
    assert(text[content_end] == CR && text[content_end + 1] == LF) by {
        assert((with_content + crlf())[content_end] == crlf()[0]);
        assert((with_content + crlf())[content_end + 1] == crlf()[1]);
    }
    assert(delimiter_at(text, token, content_end + 2)) by {
        assert(text[content_end + 2] == rest[0]);
        assert(text[content_end + 2 + 1] == rest[1]);
        assert forall|k: int| 0 <= k < token.len() implies text[content_end + 2 + 2 + k]
            == #[trigger] token[k] by {
            assert(text[content_end + 2 + (2 + k)] == rest[2 + k]);
        }
    }
}

/// A part that stands at the head of `text` stands in `raw` at `at` where
/// `raw` holds `text` from `at` on.
pub proof fn lemma_part_written_behind_offset(
    raw: Seq<u8>,
    text: Seq<u8>,
    token: Seq<u8>,
    part: PartText,
    at: int,
)
    requires
        0 <= at,
        at + text.len() <= raw.len(),
        forall|k: int| 0 <= k < text.len() ==> raw[at + k] == #[trigger] text[k],
        part_written_at(text, token, part, 0),
    ensures
        part_written_at(raw, token, part, at),
{
    let line_end: int = 2 + token.len() as int;
    let headers = line_end + 2;
    let header_end = headers + part.headers.len();
    let content = header_end + 4;
    let content_end = content + part.content.len();
    assert(raw[at + 0] == text[0] && raw[at + 1] == text[1]);
    assert forall|k: int| 0 <= k < token.len() implies raw[at + 2 + k] == #[trigger] token[k] by {
        assert(raw[at + (2 + k)] == text[2 + k]);
    }
    assert(raw[at + line_end] == text[line_end]);
    assert(raw[at + (line_end + 1)] == text[line_end + 1]);
    assert forall|k: int| 0 <= k < part.headers.len() implies raw[at + headers + k]
        == #[trigger] part.headers[k] by {
        assert(raw[at + (headers + k)] == text[headers + k]);
    }
    assert(raw[at + header_end] == text[header_end]);
    assert(raw[at + (header_end + 1)] == text[header_end + 1]);
    assert(raw[at + (header_end + 2)] == text[header_end + 2]);
    assert(raw[at + (header_end + 3)] == text[header_end + 3]);
    assert forall|k: int| 0 <= k < part.content.len() implies raw[at + content + k]
        == #[trigger] part.content[k] by {
        assert(raw[at + (content + k)] == text[content + k]);
    }
    assert(raw[at + content_end] == text[content_end]);
    assert(raw[at + (content_end + 1)] == text[content_end + 1]);
    assert(delimiter_at(raw, token, at + content_end + 2)) by {
        assert(raw[at + (content_end + 2)] == text[content_end + 2]);
        assert(raw[at + (content_end + 3)] == text[content_end + 3]);
        assert forall|k: int| 0 <= k < token.len() implies raw[at + content_end + 2 + 2 + k]
            == #[trigger] token[k] by {
            assert(raw[at + (content_end + 4 + k)] == text[content_end + 4 + k]);
        }
    }
}

} // verus!
