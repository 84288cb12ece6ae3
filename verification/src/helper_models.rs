//! What the analysis of a message records: one description for each part that
//! was resolved, in the order of the document.

use crate::encoding::EncodingType;
use vstd::prelude::*;

verus! {

/// The role a part plays in its message.
#[derive(Clone, Copy, Debug, PartialEq, Eq, Structural)]
pub enum PartRole {
    /// The text of the message.
    Body,
    /// A file that travels with the message.
    Attachment,
    /// A part that is kept for its place among its siblings and never shown.
    Unclassified,
}

/// One resolved part of a message.
#[derive(Debug, PartialEq, Eq)]
pub struct EmailPartDescription {
    /// Label of the part: the file name of an attachment, else a fixed text.
    pub file_name: String,
    pub size_octets: u32,
    /// First byte of the content in the raw text.
    pub bytes_start: usize,
    /// First byte behind the content in the raw text.
    pub bytes_end: usize,
    pub is_file: bool,
    pub is_email_text: bool,
    pub encoding: EncodingType,
}

/// A part description as a mathematical value.
pub struct PartDescriptor {
    pub label: Seq<char>,
    pub size_octets: u32,
    pub bytes_start: usize,
    pub bytes_end: usize,
    pub is_file: bool,
    pub is_email_text: bool,
    pub encoding: EncodingType,
}

impl PartDescriptor {
    /// The role that the two flags stand for.
    pub open spec fn role(self) -> PartRole {
        if self.is_email_text {
            PartRole::Body
        } else if self.is_file {
            PartRole::Attachment
        } else {
            PartRole::Unclassified
        }
    }

    /// The byte range is a range of a buffer of `len` bytes.
    pub open spec fn within(self, len: int) -> bool {
        self.bytes_start <= self.bytes_end <= len
    }

    /// The part is not body and attachment at once.
    pub open spec fn well_formed(self) -> bool {
        !(self.is_file && self.is_email_text)
    }
}

impl View for EmailPartDescription {
    type V = PartDescriptor;

    open spec fn view(&self) -> PartDescriptor {
        PartDescriptor {
            label: self.file_name@,
            size_octets: self.size_octets,
            bytes_start: self.bytes_start,
            bytes_end: self.bytes_end,
            is_file: self.is_file,
            is_email_text: self.is_email_text,
            encoding: self.encoding,
        }
    }
}

impl EmailPartDescription {
    /// The role of the part.
    pub fn role(&self) -> (role: PartRole)
        ensures
            role == self@.role(),
    {
        if self.is_email_text {
            PartRole::Body
        } else if self.is_file {
            PartRole::Attachment
        } else {
            PartRole::Unclassified
        }
    }
}

/// Some descriptor carries the body role.
pub open spec fn has_body(descriptors: Seq<PartDescriptor>) -> bool {
    exists|i: int| 0 <= i < descriptors.len() && (#[trigger] descriptors[i]).is_email_text
}

/// At most one descriptor carries the body role.
pub open spec fn at_most_one_body(descriptors: Seq<PartDescriptor>) -> bool {
    forall|i: int, j: int|
        0 <= i < descriptors.len() && 0 <= j < descriptors.len() && (
        #[trigger] descriptors[i]).is_email_text && (#[trigger] descriptors[j]).is_email_text
            ==> i == j
}

/// The body role of two runs of descriptors put together is that of either run.
pub proof fn lemma_has_body_of_concat(a: Seq<PartDescriptor>, b: Seq<PartDescriptor>)
    ensures
        has_body(a + b) == (has_body(a) || has_body(b)),
{
    if has_body(a) {
        let i = choose|i: int| 0 <= i < a.len() && (#[trigger] a[i]).is_email_text;
        assert((a + b)[i].is_email_text);
    }
    if has_body(b) {
        let i = choose|i: int| 0 <= i < b.len() && (#[trigger] b[i]).is_email_text;
        assert((a + b)[a.len() + i].is_email_text);
    }
    if has_body(a + b) {
        let i = choose|i: int| 0 <= i < (a + b).len() && (#[trigger] (a + b)[i]).is_email_text;
        if i < a.len() {
            assert(a[i].is_email_text);
        } else {
            assert(b[i - a.len()].is_email_text);
        }
    }
}

/// Two runs of descriptors put together hold at most one body where each
/// holds at most one and the second holds none once the first holds one.
pub proof fn lemma_one_body_of_concat(a: Seq<PartDescriptor>, b: Seq<PartDescriptor>)
    requires
        at_most_one_body(a),
        at_most_one_body(b),
        has_body(a) ==> !has_body(b),
    ensures
        at_most_one_body(a + b),
{
    let all = a + b;
    assert forall|i: int, j: int|
        0 <= i < all.len() && 0 <= j < all.len() && (#[trigger] all[i]).is_email_text && (
        #[trigger] all[j]).is_email_text implies i == j by {
        if i < a.len() {
            assert(a[i].is_email_text);
            if j >= a.len() {
                assert(b[j - a.len()].is_email_text);
            } else {
                assert(a[j].is_email_text);
            }
        } else {
            assert(b[i - a.len()].is_email_text);
            if j < a.len() {
                assert(a[j].is_email_text);
            } else {
                assert(b[j - a.len()].is_email_text);
            }
        }
    }
}

/// Every descriptor is well formed, and at most one carries the body role.
pub open spec fn descriptors_well_formed(descriptors: Seq<PartDescriptor>) -> bool {
    &&& at_most_one_body(descriptors)
    &&& forall|k: int| 0 <= k < descriptors.len() ==> (#[trigger] descriptors[k]).well_formed()
}

/// The analysis of one message.
#[derive(Debug, PartialEq, Eq)]
pub struct EmailAnalysis {
    /// Octet count of the plain text, where the caller has recorded one.
    pub plain_text_octets: u32,
    /// The resolved parts, in the order of the document.
    pub attachments: Vec<EmailPartDescription>,
}

impl View for EmailAnalysis {
    type V = Seq<PartDescriptor>;

    open spec fn view(&self) -> Seq<PartDescriptor> {
        Seq::new(self.attachments@.len(), |i: int| self.attachments@[i]@)
    }
}

impl EmailAnalysis {
    /// No part of the analysis is body and attachment at once, and at most
    /// one is the body.
    pub open spec fn well_formed(&self) -> bool {
        descriptors_well_formed(self@)
    }

    /// An analysis without parts.
    pub fn new() -> (analysis: EmailAnalysis)
        ensures
            analysis@ == Seq::<PartDescriptor>::empty(),
            analysis.plain_text_octets == 0,
            analysis.well_formed(),
    {
        let analysis = EmailAnalysis { plain_text_octets: 0, attachments: Vec::new() };
        assert(analysis@ =~= Seq::<PartDescriptor>::empty());
        analysis
    }

    /// Whether a part with the body role has been recorded.
    pub fn has_body(&self) -> (found: bool)
        ensures
            found == has_body(self@),
    {
        let mut at: usize = 0;
        while at < self.attachments.len()
            invariant
                at <= self.attachments.len(),
                forall|i: int| 0 <= i < at ==> !(#[trigger] self@[i]).is_email_text,
            decreases self.attachments.len() - at,
        {
            if self.attachments[at].is_email_text {
                assert(self@[at as int].is_email_text);
                return true;
            }
            at += 1;
        }
        false
    }

    /// Records one more part behind those recorded so far.
    pub fn record(&mut self, part: EmailPartDescription)
        ensures
            final(self)@ == old(self)@.push(part@),
            final(self).plain_text_octets == old(self).plain_text_octets,
    {
        self.attachments.push(part);
        assert(self@ =~= old(self)@.push(part@));
    }
}

} // verus!
