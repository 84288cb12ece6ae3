//! Composing the views of a message from its raw text, its envelope and its
//! analysis: a row of a listing, the message in full, and one attachment for
//! download.  Content is decoded only for the part that a view shows.

use crate::encoding::{decode, decoded, DecodedBytes, DecodedContent};
use crate::helper_models::{EmailAnalysis, EmailPartDescription, PartDescriptor};
use crate::models::{
    EmailDetailAttachmentOutDTO,
    EmailDetailOutDTO,
    EmailInspectOutDTO,
    EmailListInDTO,
    EmailListOutDTO,
};
use crate::structure::StructureNode;
use crate::text::{decimal_digits, decimal_string, text_of, text_or_empty, utf8_text};
use crate::walker::{analysis_of, analyze};
use vstd::prelude::*;
use vstd::slice::{slice_subrange, slice_to_vec};
use vstd::string::StringExecFns;

verus! {

/// A flag of a message in its mailbox.
#[derive(Debug, PartialEq, Eq)]
pub enum MessageFlag {
    Seen,
    Answered,
    Flagged,
    Deleted,
    Draft,
    Recent,
    MayCreate,
    Custom(String),
}

/// What the envelope of a message says of its sender and its subject.
#[derive(Debug, PartialEq, Eq)]
pub struct Envelope {
    pub sender_mailbox: Option<Vec<u8>>,
    pub sender_host: Option<Vec<u8>>,
    pub subject: Option<Vec<u8>>,
}

/// One fetched message: its raw text and what the protocol layer reports
/// beside it.
#[derive(Debug, PartialEq, Eq)]
pub struct RawMessage {
    pub sequence_number: u32,
    pub text: Vec<u8>,
    pub envelope: Envelope,
    pub internal_date: chrono::NaiveDateTime,
    pub flags: Vec<MessageFlag>,
    pub structure: StructureNode,
}

/// The bytes of an optional field, empty where the field is absent.
pub open spec fn bytes_or_empty(field: Option<Vec<u8>>) -> Seq<u8> {
    match field {
        Some(bytes) => bytes@,
        None => Seq::empty(),
    }
}

/// The text of `bytes`, empty where they are not valid UTF-8.
pub open spec fn lossy_text(bytes: Seq<u8>) -> Seq<char> {
    match utf8_text(bytes) {
        Some(text) => text,
        None => Seq::empty(),
    }
}

/// The address of the sender: mailbox and host with an `@` between them.
pub open spec fn sender_of(envelope: Envelope) -> Seq<char> {
    lossy_text(bytes_or_empty(envelope.sender_mailbox)) + "@"@ + lossy_text(
        bytes_or_empty(envelope.sender_host),
    )
}

fn owned_bytes(field: &Option<Vec<u8>>) -> (bytes: Vec<u8>)
    ensures
        bytes@ == bytes_or_empty(*field),
{
    match field {
        Some(bytes) => slice_to_vec(bytes.as_slice()),
        None => Vec::new(),
    }
}

/// Composes the address of the sender of a message.
pub fn sender_address(envelope: &Envelope) -> (address: String)
    ensures
        address@ == sender_of(*envelope),
{
    let mailbox = text_or_empty(owned_bytes(&envelope.sender_mailbox));
    let host = text_or_empty(owned_bytes(&envelope.sender_host));
    mailbox.concat("@").concat(host.as_str())
}

/// The text of the header word that `input` starts with, or `None` where
/// `input` does not start with an encoded word.
pub uninterp spec fn encoded_word_text(input: Seq<u8>) -> Option<Seq<char>>;

/// Calls `rustyknife::rfc2047::encoded_word` and keeps the decoded text.  The
/// contract only names what the call returns: the text on success, and no
/// text where the call reports an error.
#[verifier::external_body]
fn decode_encoded_word(input: &[u8]) -> (text: Option<String>)
    ensures
        match text {
            Some(text) => encoded_word_text(input@) == Some(text@),
            None => encoded_word_text(input@) is None,
        },
{
    rustyknife::rfc2047::encoded_word(input).ok().map(|(_, text)| text)
}

/// The subject of a message once the decoding of its header word is known:
/// the decoded word, else the bytes read as UTF-8, else a fixed text.
pub open spec fn subject_with(word: Option<Seq<char>>, subject: Seq<u8>) -> Seq<char> {
    match word {
        Some(text) => text,
        None => match utf8_text(subject) {
            Some(text) => text,
            None => "Cant parse subject"@,
        },
    }
}

/// The subject of a message.
pub open spec fn subject_of(envelope: Envelope) -> Seq<char> {
    subject_with(
        encoded_word_text(bytes_or_empty(envelope.subject)),
        bytes_or_empty(envelope.subject),
    )
}

/// A text as a mathematical value.
pub open spec fn text_view(text: Option<String>) -> Option<Seq<char>> {
    match text {
        Some(text) => Some(text@),
        None => None,
    }
}

/// Picks the subject: the decoded header word where there is one, else the
/// subject bytes read as UTF-8, else a fixed text.
pub fn subject_from(word: Option<String>, subject: Vec<u8>) -> (text: String)
    ensures
        text@ == subject_with(text_view(word), subject@),
{
    match word {
        Some(text) => text,
        None => match text_of(subject) {
            Some(text) => text,
            None => "Cant parse subject".to_owned(),
        },
    }
}

/// Composes the subject of a message.
pub fn subject_text(envelope: &Envelope) -> (text: String)
    ensures
        text@ == subject_of(*envelope),
{
    let subject = owned_bytes(&envelope.subject);
    let word = decode_encoded_word(subject.as_slice());
    subject_from(word, subject)
}

/// Some flag of `flags` is the seen flag.
pub open spec fn seen_among(flags: Seq<MessageFlag>) -> bool {
    exists|i: int| 0 <= i < flags.len() && #[trigger] flags[i] is Seen
}

/// Tells whether a message was read: whether it carries the seen flag.
pub fn was_read(flags: &Vec<MessageFlag>) -> (read: bool)
    ensures
        read == seen_among(flags@),
{
    let mut at: usize = 0;
    while at < flags.len()
        invariant
            at <= flags.len(),
            forall|i: int| 0 <= i < at ==> !(#[trigger] flags@[i] is Seen),
        decreases flags.len() - at,
    {
        if let MessageFlag::Seen = flags[at] {
            return true;
        }
        at += 1;
    }
    false
}

/// `row` is the row that a listing shows of `message`.
pub open spec fn is_inspect_view(row: EmailInspectOutDTO, message: RawMessage) -> bool {
    &&& row.from_address@ == sender_of(message.envelope)
    &&& row.subject@ == subject_of(message.envelope)
    &&& row.was_read == seen_among(message.flags@)
    &&& row.send_date == message.internal_date
    &&& row.sequence_number == message.sequence_number
}

/// Composes the row of a listing for one message.  No part is decoded.
pub fn inspect_view(message: &RawMessage) -> (row: EmailInspectOutDTO)
    ensures
        is_inspect_view(row, *message),
{
    EmailInspectOutDTO {
        from_address: sender_address(&message.envelope),
        subject: subject_text(&message.envelope),
        was_read: was_read(&message.flags),
        send_date: message.internal_date,
        sequence_number: message.sequence_number,
    }
}

/// Sequence number of the newest message of a page: the pages before it, of
/// `page_size` messages each, are counted down from the newest message of the
/// mailbox.
pub open spec fn page_newest(exists: int, page: int, page_size: int) -> int {
    if page * page_size >= exists {
        0
    } else {
        exists - page * page_size
    }
}

/// Sequence number of the oldest message that is fetched for a page.
pub open spec fn page_oldest(newest: int, page_size: int) -> int {
    if page_size + 1 >= newest {
        0
    } else {
        newest - (page_size + 1)
    }
}

/// Computes the sequence numbers between which the messages of a page lie:
/// the oldest first, then the newest.
pub fn page_window(exists: u32, page: u32, page_size: u32) -> (window: (u32, u32))
    ensures
        window.1 == page_newest(exists as int, page as int, page_size as int),
        window.0 == page_oldest(window.1 as int, page_size as int),
{
    let wide_page: u64 = page as u64;
    let wide_size: u64 = page_size as u64;
    assert(wide_page * wide_size <= 0xffff_ffff * 0xffff_ffff) by (nonlinear_arith)
        requires
            wide_page <= 0xffff_ffff,
            wide_size <= 0xffff_ffff,
    ;
    let skipped: u64 = wide_page * wide_size;
    let newest: u32 = if skipped >= exists as u64 {
        0
    } else {
        exists - (skipped as u32)
    };
    let oldest: u32 = if wide_size + 1 >= newest as u64 {
        0
    } else {
        newest - (page_size + 1)
    };
    (oldest, newest)
}

/// The sequence set that is fetched for a page: none for an empty mailbox,
/// else the two ends of the page window in decimal with a colon between them.
pub open spec fn listing_set_of(exists: u32, request: EmailListInDTO) -> Option<Seq<char>> {
    if exists == 0 {
        None
    } else {
        let newest = page_newest(
            exists as int,
            request.requested_page_number as int,
            request.page_size as int,
        );
        let oldest = page_oldest(newest, request.page_size as int);
        Some(decimal_digits(oldest as nat) + ":"@ + decimal_digits(newest as nat))
    }
}

/// Names the messages to fetch for a page of a mailbox of `exists` messages.
/// Nothing is fetched from an empty mailbox.
pub fn listing_sequence_set(exists: u32, request: &EmailListInDTO) -> (set: Option<String>)
    ensures
        text_view(set) == listing_set_of(exists, *request),
{
    if exists == 0 {
        return None;
    }
    let window = page_window(exists, request.requested_page_number, request.page_size);
    let newest = decimal_string(window.1);
    Some(decimal_string(window.0).concat(":").concat(newest.as_str()))
}

/// `listing` is the page that answers `request` on a mailbox of `exists`
/// messages of which `messages` were fetched.
pub open spec fn is_listing_view(
    listing: EmailListOutDTO,
    exists: u32,
    request: EmailListInDTO,
    messages: Seq<RawMessage>,
) -> bool {
    &&& listing.total_emails_count == exists
    &&& listing.requested_page_number == request.requested_page_number
    &&& listing.page_size == request.page_size
    &&& listing.emails@.len() == messages.len()
    &&& forall|i: int|
        0 <= i < messages.len() ==> is_inspect_view(#[trigger] listing.emails@[i], messages[i])
}

/// Composes a page of a listing: one row for each fetched message, in the
/// order in which they were fetched.
pub fn listing_view(exists: u32, request: &EmailListInDTO, messages: &Vec<RawMessage>) -> (listing:
    EmailListOutDTO)
    ensures
        is_listing_view(listing, exists, *request, messages@),
{
    let mut emails: Vec<EmailInspectOutDTO> = Vec::new();
    let mut at: usize = 0;
    while at < messages.len()
        invariant
            at <= messages.len(),
            emails@.len() == at,
            forall|i: int| 0 <= i < at ==> is_inspect_view(#[trigger] emails@[i], messages@[i]),
        decreases messages.len() - at,
    {
        emails.push(inspect_view(&messages[at]));
        at += 1;
    }
    EmailListOutDTO {
        total_emails_count: exists,
        requested_page_number: request.requested_page_number,
        page_size: request.page_size,
        emails,
    }
}

/// The content of a part in the raw text: the bytes of its range, or nothing
/// where its range is no range of the text.
pub open spec fn part_content(raw: Seq<u8>, part: PartDescriptor) -> Seq<u8> {
    if part.within(raw.len() as int) {
        raw.subrange(part.bytes_start as int, part.bytes_end as int)
    } else {
        Seq::empty()
    }
}

/// Takes the content of a part out of the raw text.
pub fn part_bytes<'a>(raw: &'a [u8], part: &EmailPartDescription) -> (content: &'a [u8])
    ensures
        content@ == part_content(raw@, part@),
{
    if part.bytes_start <= part.bytes_end && part.bytes_end <= raw.len() {
        slice_subrange(raw, part.bytes_start, part.bytes_end)
    } else {
        slice_subrange(raw, 0, 0)
    }
}

/// Decodes the content of a part by its recorded encoding.
pub fn decode_part(raw: &[u8], part: &EmailPartDescription) -> (content: DecodedBytes)
    ensures
        content@ == decoded(part@.encoding, part_content(raw@, part@)),
{
    decode(part.encoding, part_bytes(raw, part))
}

/// Index of the first descriptor from `from` on that carries the body role.
pub open spec fn first_body_from(descriptors: Seq<PartDescriptor>, from: int) -> Option<int>
    decreases descriptors.len() - from,
{
    if from < 0 || from >= descriptors.len() {
        None
    } else if descriptors[from].is_email_text {
        Some(from)
    } else {
        first_body_from(descriptors, from + 1)
    }
}

/// The text of the body of a message: the decoded content of its first body
/// part read as UTF-8, empty where that is no text or the message has no
/// body part.
pub open spec fn body_text_of(descriptors: Seq<PartDescriptor>, raw: Seq<u8>) -> Seq<char> {
    match first_body_from(descriptors, 0) {
        Some(at) => lossy_text(
            decoded(descriptors[at].encoding, part_content(raw, descriptors[at])).bytes,
        ),
        None => Seq::empty(),
    }
}

/// Reads the text of the body of a message.  Only the body part is decoded.
pub fn body_text(analysis: &EmailAnalysis, raw: &[u8]) -> (text: String)
    ensures
        text@ == body_text_of(analysis@, raw@),
{
    let mut at: usize = 0;
    while at < analysis.attachments.len()
        invariant
            at <= analysis.attachments.len(),
            first_body_from(analysis@, 0) == first_body_from(analysis@, at as int),
        decreases analysis.attachments.len() - at,
    {
        if analysis.attachments[at].is_email_text {
            let content = decode_part(raw, &analysis.attachments[at]);
            return text_or_empty(content.bytes);
        }
        at += 1;
    }
    String::new()
}

/// The descriptors that surface as attachments, in their order.
pub open spec fn attachments_among(descriptors: Seq<PartDescriptor>) -> Seq<PartDescriptor>
    decreases descriptors.len(),
{
    if descriptors.len() == 0 {
        Seq::empty()
    } else if descriptors.last().is_file {
        attachments_among(descriptors.drop_last()).push(descriptors.last())
    } else {
        attachments_among(descriptors.drop_last())
    }
}

/// `listed` shows the attachments among `descriptors` by label and size.
pub open spec fn lists_attachments(
    listed: Seq<EmailDetailAttachmentOutDTO>,
    descriptors: Seq<PartDescriptor>,
) -> bool {
    let files = attachments_among(descriptors);
    &&& listed.len() == files.len()
    &&& forall|i: int|
        0 <= i < files.len() ==> {
            &&& (#[trigger] listed[i]).file_name@ == files[i].label
            &&& listed[i].size_octets == files[i].size_octets
            &&& listed[i].is_file
        }
}

/// Lists the attachments of a message by label and size.  No part is decoded.
pub fn attachment_list(analysis: &EmailAnalysis) -> (listed: Vec<EmailDetailAttachmentOutDTO>)
    ensures
        lists_attachments(listed@, analysis@),
{
    let mut listed: Vec<EmailDetailAttachmentOutDTO> = Vec::new();
    let mut at: usize = 0;
    assert(analysis@.take(0) =~= Seq::<PartDescriptor>::empty());
    while at < analysis.attachments.len()
        invariant
            at <= analysis.attachments.len(),
            lists_attachments(listed@, analysis@.take(at as int)),
        decreases analysis.attachments.len() - at,
    {
        let part = &analysis.attachments[at];
        proof {
            let next = analysis@.take(at + 1);
            assert(next.drop_last() =~= analysis@.take(at as int));
            assert(next.last() == part@);
        }
        if part.is_file {
            listed.push(
                EmailDetailAttachmentOutDTO {
                    file_name: part.file_name.clone(),
                    size_octets: part.size_octets,
                    is_file: part.is_file,
                },
            );
        }
        at += 1;
    }
    assert(analysis@.take(at as int) =~= analysis@);
    listed
}

/// `detail` is the view in full of `message`.
pub open spec fn is_detail_view(detail: EmailDetailOutDTO, message: RawMessage) -> bool {
    let descriptors = analysis_of(message.structure, message.text@);
    &&& detail.from_address@ == sender_of(message.envelope)
    &&& detail.subject@ == subject_of(message.envelope)
    &&& detail.send_date == message.internal_date
    &&& detail.body_text@ == body_text_of(descriptors, message.text@)
    &&& lists_attachments(detail.attachments@, descriptors)
}

/// Composes the view in full of a message: its sender, subject and date, the
/// text of its body, and its attachments by label and size.
pub fn detail_view(message: &RawMessage) -> (detail: EmailDetailOutDTO)
    ensures
        is_detail_view(detail, *message),
{
    let analysis = analyze(&message.structure, message.text.as_slice());
    EmailDetailOutDTO {
        from_address: sender_address(&message.envelope),
        subject: subject_text(&message.envelope),
        send_date: message.internal_date,
        body_text: body_text(&analysis, message.text.as_slice()),
        attachments: attachment_list(&analysis),
    }
}

/// Index of the first attachment from `from` on whose label is `name`.
pub open spec fn first_attachment_named(
    descriptors: Seq<PartDescriptor>,
    name: Seq<char>,
    from: int,
) -> Option<int>
    decreases descriptors.len() - from,
{
    if from < 0 || from >= descriptors.len() {
        None
    } else if descriptors[from].is_file && descriptors[from].label == name {
        Some(from)
    } else {
        first_attachment_named(descriptors, name, from + 1)
    }
}

/// An attachment for download.
#[derive(Debug, PartialEq, Eq)]
pub struct AttachmentDownload {
    /// The label of the attachment, for the disposition header of the answer.
    pub file_name: String,
    /// The decoded content.
    pub content: Vec<u8>,
    /// Set where the content could not be decoded; `content` is then empty.
    pub decode_failure: bool,
    /// Set where the encoding of the attachment is one that is not undone;
    /// `content` is then what stands in the raw text.
    pub undecoded: bool,
}

/// An attachment for download as a mathematical value.
pub struct Download {
    pub file_name: Seq<char>,
    pub content: DecodedContent,
}

impl View for AttachmentDownload {
    type V = Download;

    open spec fn view(&self) -> Download {
        Download {
            file_name: self.file_name@,
            content: DecodedContent {
                bytes: self.content@,
                decode_failure: self.decode_failure,
                undecoded: self.undecoded,
            },
        }
    }
}

/// What the download of the attachment `name` gives over `descriptors`: none
/// where no attachment carries that label, else the decoded content of the
/// first that does.
pub open spec fn download_of(descriptors: Seq<PartDescriptor>, raw: Seq<u8>, name: Seq<char>) -> Option<
    Download,
> {
    match first_attachment_named(descriptors, name, 0) {
        Some(at) => Some(
            Download {
                file_name: descriptors[at].label,
                content: decoded(descriptors[at].encoding, part_content(raw, descriptors[at])),
            },
        ),
        None => None,
    }
}

/// A download as a mathematical value.
pub open spec fn download_view(download: Option<AttachmentDownload>) -> Option<Download> {
    match download {
        Some(found) => Some(found@),
        None => None,
    }
}

/// Finds the attachment labelled `attachment_name` in an analysis and decodes
/// its content.  No other part is decoded.
pub fn find_attachment(analysis: &EmailAnalysis, raw: &[u8], attachment_name: &str) -> (download:
    Option<AttachmentDownload>)
    ensures
        download_view(download) == download_of(analysis@, raw@, attachment_name@),
{
    let wanted = attachment_name.to_owned();
    let mut at: usize = 0;
    while at < analysis.attachments.len()
        invariant
            at <= analysis.attachments.len(),
            wanted@ == attachment_name@,
            first_attachment_named(analysis@, attachment_name@, 0) == first_attachment_named(
                analysis@,
                attachment_name@,
                at as int,
            ),
        decreases analysis.attachments.len() - at,
    {
        let part = &analysis.attachments[at];
        if part.is_file && part.file_name == wanted {
            let content = decode_part(raw, part);
            return Some(
                AttachmentDownload {
                    file_name: part.file_name.clone(),
                    content: content.bytes,
                    decode_failure: content.decode_failure,
                    undecoded: content.undecoded,
                },
            );
        }
        at += 1;
    }
    None
}

/// Serves the download of one attachment of a message: `None` where the
/// message has no attachment of that label.
pub fn download_attachment(message: &RawMessage, attachment_name: &str) -> (download: Option<
    AttachmentDownload,
>)
    ensures
        download_view(download) == download_of(
            analysis_of(message.structure, message.text@),
            message.text@,
            attachment_name@,
        ),
{
    let analysis = analyze(&message.structure, message.text.as_slice());
    find_attachment(&analysis, message.text.as_slice(), attachment_name)
}

} // verus!
