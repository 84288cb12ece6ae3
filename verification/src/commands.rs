//! What the gateway asks of the mail server for each request: the mailbox to
//! open, the messages to name and the items to fetch or the flags to store.

use crate::assembler::{listing_sequence_set, listing_set_of};
use crate::mailbox::{encode_utf7, utf7_imap_encoded};
use crate::models::{EmailAttachmentInDTO, EmailDeleteInDTO, EmailDetailInDTO, EmailListInDTO};
use crate::text::{decimal_digits, decimal_string};
use vstd::prelude::*;

verus! {

/// A fetch of messages from a mailbox.
#[derive(Debug, PartialEq, Eq)]
pub struct FetchCommand {
    /// The mailbox to open, by its name on the wire.
    pub mailbox: String,
    /// The messages to fetch.
    pub sequence_set: String,
    /// The items to fetch of each message.
    pub query: String,
}

/// A change of flags on messages of a mailbox.
#[derive(Debug, PartialEq, Eq)]
pub struct StoreCommand {
    /// The mailbox to open, by its name on the wire.
    pub mailbox: String,
    /// The messages to change.
    pub sequence_set: String,
    /// The change to make.
    pub query: String,
}

/// The items that are fetched of a message that is shown in full.
pub open spec fn message_query() -> Seq<char> {
    "(FLAGS BODYSTRUCTURE BODY[TEXT] ENVELOPE INTERNALDATE)"@
}

/// The items that are fetched of the messages of a page.
pub open spec fn listing_query() -> Seq<char> {
    "(FLAGS BODYSTRUCTURE BODY[TEXT] RFC822.SIZE ENVELOPE INTERNALDATE)"@
}

/// The change that marks messages as deleted.
pub open spec fn delete_query() -> Seq<char> {
    "+FLAGS (\\Deleted)"@
}

/// Names the fetch for a message that is shown in full.
pub fn detail_fetch(request: &EmailDetailInDTO) -> (command: FetchCommand)
    ensures
        command.mailbox@ == utf7_imap_encoded(request.mailbox_name@),
        command.sequence_set@ == decimal_digits(request.sequence_number as nat),
        command.query@ == message_query(),
{
    FetchCommand {
        mailbox: encode_utf7(request.mailbox_name.clone()),
        sequence_set: decimal_string(request.sequence_number),
        query: "(FLAGS BODYSTRUCTURE BODY[TEXT] ENVELOPE INTERNALDATE)".to_owned(),
    }
}

/// Names the fetch for a message of which an attachment is downloaded.
pub fn attachment_fetch(request: &EmailAttachmentInDTO) -> (command: FetchCommand)
    ensures
        command.mailbox@ == utf7_imap_encoded(request.mailbox_name@),
        command.sequence_set@ == decimal_digits(request.sequence_number as nat),
        command.query@ == message_query(),
{
    FetchCommand {
        mailbox: encode_utf7(request.mailbox_name.clone()),
        sequence_set: decimal_string(request.sequence_number),
        query: "(FLAGS BODYSTRUCTURE BODY[TEXT] ENVELOPE INTERNALDATE)".to_owned(),
    }
}

/// Gives the name on the wire of the mailbox that a page is asked of.
pub fn listing_mailbox(request: &EmailListInDTO) -> (mailbox: String)
    ensures
        mailbox@ == utf7_imap_encoded(request.mailbox_name@),
{
    encode_utf7(request.mailbox_name.clone())
}

/// Names the fetch for a page of a mailbox of `exists` messages: none for an
/// empty mailbox.
pub fn listing_fetch(exists: u32, request: &EmailListInDTO) -> (command: Option<FetchCommand>)
    ensures
        command is Some <==> exists != 0,
        command matches Some(fetch) ==> {
            &&& fetch.mailbox@ == utf7_imap_encoded(request.mailbox_name@)
            &&& Some(fetch.sequence_set@) == listing_set_of(exists, *request)
            &&& fetch.query@ == listing_query()
        },
{
    match listing_sequence_set(exists, request) {
        Some(sequence_set) => Some(
            FetchCommand {
                mailbox: encode_utf7(request.mailbox_name.clone()),
                sequence_set,
                query: "(FLAGS BODYSTRUCTURE BODY[TEXT] RFC822.SIZE ENVELOPE INTERNALDATE)".to_owned(),
            },
        ),
        None => None,
    }
}

/// Names the change that deletes the messages of a request.
pub fn delete_store(request: &EmailDeleteInDTO) -> (command: StoreCommand)
    ensures
        command.mailbox@ == utf7_imap_encoded(request.mailbox_name@),
        command.sequence_set@ == decimal_digits(request.sequence_set_top as nat) + ":"@
            + decimal_digits(request.sequence_set_bottom as nat),
        command.query@ == delete_query(),
{
    StoreCommand {
        mailbox: encode_utf7(request.mailbox_name.clone()),
        sequence_set: request.sequence_set(),
        query: "+FLAGS (\\Deleted)".to_owned(),
    }
}

} // verus!
