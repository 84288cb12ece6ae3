//! Finding the content region of a multipart section inside the raw text of a
//! message.
//!
//! A delimiter is two dashes and the boundary token.  A section is a line that
//! holds a delimiter and nothing behind it, a header block, a blank line, the
//! content, and a line break with the next delimiter behind it.  Sections are
//! taken from the buffer one after another, each search starting at the
//! delimiter that ended the section before, and a part is located as the
//! section with its sibling index.

use vstd::prelude::*;

verus! {

pub const CR: u8 = 13;

pub const LF: u8 = 10;

pub const DASH: u8 = 45;

/// Length of the line break that starts at `at`: 2 for CR LF, 1 for a bare LF,
/// 0 where no line break starts.
pub open spec fn line_break_len(raw: Seq<u8>, at: int) -> int {
    if 0 <= at && at + 1 < raw.len() && raw[at] == CR && raw[at + 1] == LF {
        2
    } else if 0 <= at < raw.len() && raw[at] == LF {
        1
    } else {
        0
    }
}

/// The bytes of `token` stand in `raw` from `at` on.
pub open spec fn token_at(raw: Seq<u8>, token: Seq<u8>, at: int) -> bool {
    &&& 0 <= at
    &&& at + token.len() <= raw.len()
    &&& forall|k: int| 0 <= k < token.len() ==> raw[at + k] == #[trigger] token[k]
}

/// A delimiter starts at `at`: two dashes with the token behind them.
pub open spec fn delimiter_at(raw: Seq<u8>, token: Seq<u8>, at: int) -> bool {
    &&& 0 <= at
    &&& at + 2 <= raw.len()
    &&& raw[at] == DASH
    &&& raw[at + 1] == DASH
    &&& token_at(raw, token, at + 2)
}

/// A delimiter starts at `at` and the line ends right behind it.
pub open spec fn boundary_line_at(raw: Seq<u8>, token: Seq<u8>, at: int) -> bool {
    delimiter_at(raw, token, at) && line_break_len(raw, at + 2 + token.len()) > 0
}

/// First position behind the boundary line at `at`.
pub open spec fn after_boundary_line(raw: Seq<u8>, token: Seq<u8>, at: int) -> int {
    at + 2 + token.len() + line_break_len(raw, at + 2 + token.len())
}

/// Two line breaks in a row start at `at`: the end of a line, then an empty line.
pub open spec fn blank_line_at(raw: Seq<u8>, at: int) -> bool {
    line_break_len(raw, at) > 0 && line_break_len(raw, at + line_break_len(raw, at)) > 0
}

/// First position behind the two line breaks at `at`.
pub open spec fn after_blank_line(raw: Seq<u8>, at: int) -> int {
    at + line_break_len(raw, at) + line_break_len(raw, at + line_break_len(raw, at))
}

/// A line break starts at `at` and a delimiter follows it.
pub open spec fn closing_at(raw: Seq<u8>, token: Seq<u8>, at: int) -> bool {
    line_break_len(raw, at) > 0 && delimiter_at(raw, token, at + line_break_len(raw, at))
}

/// Where the delimiter behind the line break at `at` starts.
pub open spec fn after_closing(raw: Seq<u8>, at: int) -> int {
    at + line_break_len(raw, at)
}

/// `at` is the first position from `from` on where a boundary line starts.
pub open spec fn first_boundary_line(raw: Seq<u8>, token: Seq<u8>, from: int, at: int) -> bool {
    &&& from <= at
    &&& boundary_line_at(raw, token, at)
    &&& forall|j: int| from <= j < at ==> !boundary_line_at(raw, token, j)
}

/// `at` is the first position from `from` on where a blank line starts.
pub open spec fn first_blank_line(raw: Seq<u8>, from: int, at: int) -> bool {
    &&& from <= at
    &&& blank_line_at(raw, at)
    &&& forall|j: int| from <= j < at ==> !blank_line_at(raw, j)
}

/// `at` is the first position from `from` on where a closing starts.
pub open spec fn first_closing(raw: Seq<u8>, token: Seq<u8>, from: int, at: int) -> bool {
    &&& from <= at
    &&& closing_at(raw, token, at)
    &&& forall|j: int| from <= j < at ==> !closing_at(raw, token, j)
}

/// The positions that make up one section of a multipart body.
#[derive(Clone, Copy, Debug, PartialEq, Eq, Structural)]
pub struct Section {
    /// Where the delimiter of the boundary line starts.
    pub start: usize,
    /// Where the blank line that ends the header block starts.
    pub header_end: usize,
    /// First byte of the content.
    pub content_start: usize,
    /// First byte behind the content.
    pub content_end: usize,
    /// First byte behind the section: where the next delimiter starts.
    pub end: usize,
}

/// `section` is the section found when the search starts at `from`: its
/// boundary line is the first one from `from` on, its header block ends at the
/// first blank line behind that line, and its content ends at the first closing
/// behind the blank line.
pub open spec fn is_section_from(raw: Seq<u8>, token: Seq<u8>, from: int, section: Section) -> bool {
    &&& first_boundary_line(raw, token, from, section.start as int)
    &&& first_blank_line(
        raw,
        after_boundary_line(raw, token, section.start as int),
        section.header_end as int,
    )
    &&& section.content_start == after_blank_line(raw, section.header_end as int)
    &&& first_closing(raw, token, section.content_start as int, section.content_end as int)
    &&& section.end == after_closing(raw, section.content_end as int)
}

/// The section found when the search starts at `from`, if there is one.
pub open spec fn section_from(raw: Seq<u8>, token: Seq<u8>, from: int) -> Option<Section> {
    if exists|section: Section| is_section_from(raw, token, from, section) {
        Some(choose|section: Section| is_section_from(raw, token, from, section))
    } else {
        None
    }
}

/// The section with index `n`, counted from 0: the search for the first starts
/// at the head of the buffer, the search for each other where the one before
/// it ended.
pub open spec fn nth_section(raw: Seq<u8>, token: Seq<u8>, n: nat) -> Option<Section>
    decreases n,
{
    if n == 0 {
        section_from(raw, token, 0)
    } else {
        match nth_section(raw, token, (n - 1) as nat) {
            Some(previous) => section_from(raw, token, previous.end as int),
            None => None,
        }
    }
}

/// The byte range of the content of section `n`, or `(0, 0)` where the buffer
/// holds fewer than `n + 1` sections.
pub open spec fn located_range(raw: Seq<u8>, token: Seq<u8>, n: nat) -> (usize, usize) {
    match nth_section(raw, token, n) {
        Some(section) => (section.content_start, section.content_end),
        None => (0, 0),
    }
}

/// At most one section is found from a given position.
pub proof fn lemma_section_from_is_unique(
    raw: Seq<u8>,
    token: Seq<u8>,
    from: int,
    a: Section,
    b: Section,
)
    requires
        is_section_from(raw, token, from, a),
        is_section_from(raw, token, from, b),
    ensures
        a == b,
{
    assert(a.start == b.start) by {
        if a.start < b.start {
            assert(!boundary_line_at(raw, token, a.start as int));
        }
        if b.start < a.start {
            assert(!boundary_line_at(raw, token, b.start as int));
        }
    }
    assert(a.header_end == b.header_end) by {
        if a.header_end < b.header_end {
            assert(!blank_line_at(raw, a.header_end as int));
        }
        if b.header_end < a.header_end {
            assert(!blank_line_at(raw, b.header_end as int));
        }
    }
    assert(a.content_end == b.content_end) by {
        if a.content_end < b.content_end {
            assert(!closing_at(raw, token, a.content_end as int));
        }
        if b.content_end < a.content_end {
            assert(!closing_at(raw, token, b.content_end as int));
        }
    }
}

/// A section lies inside the buffer, behind the position the search started
/// at, and its parts follow one another.
pub proof fn lemma_section_is_ordered(raw: Seq<u8>, token: Seq<u8>, from: int, section: Section)
    requires
        is_section_from(raw, token, from, section),
    ensures
        from <= section.start,
        section.start < section.header_end,
        section.header_end < section.content_start,
        section.content_start <= section.content_end,
        section.content_end < section.end,
        section.end <= raw.len(),
{
}

/// At most one position is the first boundary line from `from` on.
pub proof fn lemma_first_boundary_line_is_unique(
    raw: Seq<u8>,
    token: Seq<u8>,
    from: int,
    a: int,
    b: int,
)
    requires
        first_boundary_line(raw, token, from, a),
        first_boundary_line(raw, token, from, b),
    ensures
        a == b,
{
    if a < b {
        assert(!boundary_line_at(raw, token, a));
    }
    if b < a {
        assert(!boundary_line_at(raw, token, b));
    }
}

/// At most one position is the first blank line from `from` on.
pub proof fn lemma_first_blank_line_is_unique(raw: Seq<u8>, from: int, a: int, b: int)
    requires
        first_blank_line(raw, from, a),
        first_blank_line(raw, from, b),
    ensures
        a == b,
{
    if a < b {
        assert(!blank_line_at(raw, a));
    }
    if b < a {
        assert(!blank_line_at(raw, b));
    }
}

/// Where `section_from` finds a section, it is the section from that position.
pub proof fn lemma_section_from_is_section(raw: Seq<u8>, token: Seq<u8>, from: int)
    ensures
        match section_from(raw, token, from) {
            Some(section) => is_section_from(raw, token, from, section),
            None => forall|section: Section| !is_section_from(raw, token, from, section),
        },
{
}

/// Once the buffer holds no section with index `n`, it holds none with a
/// greater index.
pub proof fn lemma_sections_stop(raw: Seq<u8>, token: Seq<u8>, n: nat, m: nat)
    requires
        nth_section(raw, token, n) is None,
        n <= m,
    ensures
        nth_section(raw, token, m) is None,
    decreases m,
{
    if n < m {
        lemma_sections_stop(raw, token, n, (m - 1) as nat);
    }
}

/// The search for section `n` starts at 0 for the first section and at the end
/// of section `n - 1` for every other.
pub open spec fn nth_search_start(raw: Seq<u8>, token: Seq<u8>, n: nat) -> int {
    if n == 0 {
        0
    } else {
        match nth_section(raw, token, (n - 1) as nat) {
            Some(previous) => previous.end as int,
            None => 0,
        }
    }
}

/// Section `n`, where it exists, is the section from its search start, lies
/// inside the buffer, and its parts follow one another.
pub proof fn lemma_nth_section_is_ordered(raw: Seq<u8>, token: Seq<u8>, n: nat)
    ensures
        match nth_section(raw, token, n) {
            Some(section) => {
                &&& is_section_from(raw, token, nth_search_start(raw, token, n), section)
                &&& nth_search_start(raw, token, n) <= section.start
                &&& section.start < section.header_end
                &&& section.header_end < section.content_start
                &&& section.content_start <= section.content_end
                &&& section.content_end < section.end
                &&& section.end <= raw.len()
            },
            None => true,
        },
{
    let from = nth_search_start(raw, token, n);
    if let Some(section) = nth_section(raw, token, n) {
        assert(nth_section(raw, token, n) == section_from(raw, token, from));
        lemma_section_from_is_section(raw, token, from);
        lemma_section_is_ordered(raw, token, from, section);
    }
}

/// Sections do not overlap and come in the order of their indices: a section
/// with a smaller index ends before one with a greater index starts.
pub proof fn lemma_sections_follow_one_another(raw: Seq<u8>, token: Seq<u8>, i: nat, j: nat)
    requires
        i < j,
        nth_section(raw, token, j) is Some,
    ensures
        nth_section(raw, token, i) is Some,
        nth_section(raw, token, i)->0.end <= nth_section(raw, token, j)->0.start,
    decreases j,
{
    lemma_nth_section_is_ordered(raw, token, j);
    if i + 1 < j {
        lemma_sections_follow_one_another(raw, token, i, (j - 1) as nat);
        lemma_nth_section_is_ordered(raw, token, (j - 1) as nat);
    }
}

fn line_break_at(raw: &[u8], at: usize) -> (len: usize)
    ensures
        len == line_break_len(raw@, at as int),
        len > 0 ==> at + len <= raw.len(),
{
    if at < raw.len() {
        if raw[at] == LF {
            1
        } else if raw[at] == CR && at + 1 < raw.len() && raw[at + 1] == LF {
            2
        } else {
            0
        }
    } else {
        0
    }
}

fn has_token_at(raw: &[u8], token: &[u8], at: usize) -> (found: bool)
    ensures
        found == token_at(raw@, token@, at as int),
        found ==> at + token.len() <= raw.len(),
{
    if at > raw.len() || token.len() > raw.len() - at {
        return false;
    }
    let mut k: usize = 0;
    while k < token.len()
        invariant
            at + token.len() <= raw.len(),
            k <= token.len(),
            forall|i: int| 0 <= i < k ==> raw@[at + i] == #[trigger] token@[i],
        decreases token.len() - k,
    {
        if raw[at + k] != token[k] {
            return false;
        }
        k += 1;
    }
    true
}

fn has_delimiter_at(raw: &[u8], token: &[u8], at: usize) -> (found: bool)
    ensures
        found == delimiter_at(raw@, token@, at as int),
        found ==> at + 2 + token.len() <= raw.len(),
{
    at < raw.len() && raw.len() - at >= 2 && raw[at] == DASH && raw[at + 1] == DASH
        && has_token_at(raw, token, at + 2)
}

fn has_boundary_line_at(raw: &[u8], token: &[u8], at: usize) -> (found: bool)
    ensures
        found == boundary_line_at(raw@, token@, at as int),
{
    has_delimiter_at(raw, token, at) && line_break_at(raw, at + 2 + token.len()) > 0
}

fn has_blank_line_at(raw: &[u8], at: usize) -> (found: bool)
    ensures
        found == blank_line_at(raw@, at as int),
{
    let first = line_break_at(raw, at);
    first > 0 && line_break_at(raw, at + first) > 0
}

fn has_closing_at(raw: &[u8], token: &[u8], at: usize) -> (found: bool)
    ensures
        found == closing_at(raw@, token@, at as int),
{
    let len = line_break_at(raw, at);
    len > 0 && has_delimiter_at(raw, token, at + len)
}

fn find_boundary_line(raw: &[u8], token: &[u8], from: usize) -> (found: Option<usize>)
    ensures
        match found {
            Some(at) => first_boundary_line(raw@, token@, from as int, at as int) && at + 2
                + token.len() < usize::MAX,
            None => forall|j: int| from <= j ==> !boundary_line_at(raw@, token@, j),
        },
{
    let mut at = from;
    while at < raw.len()
        invariant
            from <= at,
            forall|j: int| from <= j < at ==> !boundary_line_at(raw@, token@, j),
        decreases raw.len() - at,
    {
        if has_boundary_line_at(raw, token, at) {
            return Some(at);
        }
        at += 1;
    }
    None
}

fn find_blank_line(raw: &[u8], from: usize) -> (found: Option<usize>)
    ensures
        match found {
            Some(at) => first_blank_line(raw@, from as int, at as int),
            None => forall|j: int| from <= j ==> !blank_line_at(raw@, j),
        },
{
    let mut at = from;
    while at < raw.len()
        invariant
            from <= at,
            forall|j: int| from <= j < at ==> !blank_line_at(raw@, j),
        decreases raw.len() - at,
    {
        if has_blank_line_at(raw, at) {
            return Some(at);
        }
        at += 1;
    }
    None
}

fn find_closing(raw: &[u8], token: &[u8], from: usize) -> (found: Option<usize>)
    ensures
        match found {
            Some(at) => first_closing(raw@, token@, from as int, at as int),
            None => forall|j: int| from <= j ==> !closing_at(raw@, token@, j),
        },
{
    let mut at = from;
    while at < raw.len()
        invariant
            from <= at,
            forall|j: int| from <= j < at ==> !closing_at(raw@, token@, j),
        decreases raw.len() - at,
    {
        if has_closing_at(raw, token, at) {
            return Some(at);
        }
        at += 1;
    }
    None
}

/// Finds the section that the search from `from` meets first.
pub fn next_section(raw: &[u8], token: &[u8], from: usize) -> (found: Option<Section>)
    ensures
        found == section_from(raw@, token@, from as int),
{
    let start = match find_boundary_line(raw, token, from) {
        Some(at) => at,
        None => {
            assert forall|section: Section| !is_section_from(raw@, token@, from as int, section) by {
                if is_section_from(raw@, token@, from as int, section) {
                    assert(boundary_line_at(raw@, token@, section.start as int));
                }
            }
            return None;
        },
    };
    let line_end = start + 2 + token.len();
    let headers = line_end + line_break_at(raw, line_end);
    let header_end = match find_blank_line(raw, headers) {
        Some(at) => at,
        None => {
            assert forall|section: Section| !is_section_from(raw@, token@, from as int, section) by {
                if is_section_from(raw@, token@, from as int, section) {
                    lemma_first_boundary_line_is_unique(
                        raw@,
                        token@,
                        from as int,
                        start as int,
                        section.start as int,
                    );
                    assert(blank_line_at(raw@, section.header_end as int));
                }
            }
            return None;
        },
    };
    let first = line_break_at(raw, header_end);
    let content_start = header_end + first + line_break_at(raw, header_end + first);
    let content_end = match find_closing(raw, token, content_start) {
        Some(at) => at,
        None => {
            assert forall|section: Section| !is_section_from(raw@, token@, from as int, section) by {
                if is_section_from(raw@, token@, from as int, section) {
                    lemma_first_boundary_line_is_unique(
                        raw@,
                        token@,
                        from as int,
                        start as int,
                        section.start as int,
                    );
                    lemma_first_blank_line_is_unique(
                        raw@,
                        headers as int,
                        header_end as int,
                        section.header_end as int,
                    );
                    assert(closing_at(raw@, token@, section.content_end as int));
                }
            }
            return None;
        },
    };
    let end = content_end + line_break_at(raw, content_end);
    let section = Section { start, header_end, content_start, content_end, end };
    proof {
        assert(is_section_from(raw@, token@, from as int, section));
        let chosen = choose|other: Section| is_section_from(raw@, token@, from as int, other);
        lemma_section_from_is_unique(raw@, token@, from as int, section, chosen);
    }
    Some(section)
}

/// Finds the section with index `index` under the boundary token `token`.
pub fn locate_section(token: &[u8], index: usize, raw: &[u8]) -> (found: Option<Section>)
    ensures
        found == nth_section(raw@, token@, index as nat),
{
    let mut found = next_section(raw, token, 0);
    let mut passed: usize = 0;
    proof {
        if found is None {
            lemma_sections_stop(raw@, token@, 0, index as nat);
        }
    }
    while passed < index && found.is_some()
        invariant
            passed <= index,
            found == nth_section(raw@, token@, passed as nat),
            found is None ==> nth_section(raw@, token@, index as nat) is None,
        decreases index - passed,
    {
        let previous = found.unwrap();
        found = next_section(raw, token, previous.end);
        passed += 1;
        proof {
            if found is None {
                lemma_sections_stop(raw@, token@, passed as nat, index as nat);
            }
        }
    }
    found
}

/// Locates the content of the part with sibling index `index` under the
/// multipart whose boundary token is `token`.  Gives `(0, 0)` where the buffer
/// holds no such section.
pub fn locate(token: &[u8], index: usize, raw: &[u8]) -> (range: (usize, usize))
    ensures
        range == located_range(raw@, token@, index as nat),
        range.0 <= range.1 <= raw.len(),
{
    match locate_section(token, index, raw) {
        Some(section) => {
            proof {
                lemma_nth_section_is_ordered(raw@, token@, index as nat);
            }
            (section.content_start, section.content_end)
        },
        None => (0, 0),
    }
}

} // verus!
