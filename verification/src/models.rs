//! The requests that the gateway takes and the views that it gives back.

use crate::text::{decimal_digits, decimal_string};
use vstd::prelude::*;
use vstd::string::StringExecFns;

verus! {

#[verifier::external_type_specification]
#[verifier::external_body]
pub struct ExNaiveDateTime(chrono::NaiveDateTime);

/// The fields of an outgoing message.
#[derive(Debug, PartialEq, Eq)]
pub struct EmailInDTO {
    pub to_address: String,
    pub subject: String,
    pub body: String,
}

/// The form field that `name` stands for.
#[derive(Clone, Copy, Debug, PartialEq, Eq, Structural)]
pub enum FormField {
    ToAddress,
    Subject,
    Body,
    /// A field that the message has no place for.
    Unknown,
}

/// The field that a form field's name selects.
pub open spec fn form_field_of(name: Seq<char>) -> FormField {
    if name == "to_address"@ {
        FormField::ToAddress
    } else if name == "subject"@ {
        FormField::Subject
    } else if name == "body"@ {
        FormField::Body
    } else {
        FormField::Unknown
    }
}

/// Tells which field of a message a form field's name selects.
pub fn form_field(name: &str) -> (field: FormField)
    ensures
        field == form_field_of(name@),
{
    let key = name.to_owned();
    if key == "to_address".to_owned() {
        FormField::ToAddress
    } else if key == "subject".to_owned() {
        FormField::Subject
    } else if key == "body".to_owned() {
        FormField::Body
    } else {
        FormField::Unknown
    }
}

impl EmailInDTO {
    /// A message with all fields empty.
    pub fn new() -> (email: EmailInDTO)
        ensures
            email.to_address@ == Seq::<char>::empty(),
            email.subject@ == Seq::<char>::empty(),
            email.body@ == Seq::<char>::empty(),
    {
        EmailInDTO { to_address: String::new(), subject: String::new(), body: String::new() }
    }

    /// Takes the value of the form field `name`: it becomes the address, the
    /// subject or the body, and a field of any other name is dropped.  The
    /// field that was met is returned.
    pub fn accept_field(&mut self, name: &str, value: String) -> (field: FormField)
        ensures
            field == form_field_of(name@),
            final(self).to_address == if field == FormField::ToAddress {
                value
            } else {
                old(self).to_address
            },
            final(self).subject == if field == FormField::Subject {
                value
            } else {
                old(self).subject
            },
            final(self).body == if field == FormField::Body {
                value
            } else {
                old(self).body
            },
    {
        let field = form_field(name);
        match field {
            FormField::ToAddress => {
                self.to_address = value;
            },
            FormField::Subject => {
                self.subject = value;
            },
            FormField::Body => {
                self.body = value;
            },
            FormField::Unknown => {},
        }
        field
    }
}

/// A request for one page of a mailbox.
#[derive(Debug, PartialEq, Eq)]
pub struct EmailListInDTO {
    pub requested_page_number: u32,
    pub page_size: u32,
    pub mailbox_name: String,
}

/// One page of a mailbox.
#[derive(Debug, PartialEq, Eq)]
pub struct EmailListOutDTO {
    pub total_emails_count: u32,
    pub requested_page_number: u32,
    pub page_size: u32,
    pub emails: Vec<EmailInspectOutDTO>,
}

/// One message of a page.
#[derive(Debug, PartialEq, Eq)]
pub struct EmailInspectOutDTO {
    pub from_address: String,
    pub subject: String,
    pub was_read: bool,
    pub send_date: chrono::NaiveDateTime,
    pub sequence_number: u32,
}

/// A request to delete a run of messages.
#[derive(Debug, PartialEq, Eq)]
pub struct EmailDeleteInDTO {
    pub mailbox_name: String,
    pub sequence_set_top: u32,
    pub sequence_set_bottom: u32,
}

impl EmailDeleteInDTO {
    /// The sequence set of the request: its two ends in decimal with a colon
    /// between them.
    pub fn sequence_set(&self) -> (set: String)
        ensures
            set@ == decimal_digits(self.sequence_set_top as nat) + ":"@ + decimal_digits(
                self.sequence_set_bottom as nat,
            ),
    {
        let bottom = decimal_string(self.sequence_set_bottom);
        decimal_string(self.sequence_set_top).concat(":").concat(bottom.as_str())
    }
}

/// A request for one message in full.
#[derive(Debug, PartialEq, Eq)]
pub struct EmailDetailInDTO {
    pub mailbox_name: String,
    pub sequence_number: u32,
}

/// One message in full.
#[derive(Debug, PartialEq, Eq)]
pub struct EmailDetailOutDTO {
    pub from_address: String,
    pub subject: String,
    pub send_date: chrono::NaiveDateTime,
    pub body_text: String,
    pub attachments: Vec<EmailDetailAttachmentOutDTO>,
}

/// An attachment as a message in full lists it.
#[derive(Debug, PartialEq, Eq)]
pub struct EmailDetailAttachmentOutDTO {
    pub file_name: String,
    pub size_octets: u32,
    pub is_file: bool,
}

/// The names of the mailboxes of an account.
#[derive(Debug, PartialEq, Eq)]
pub struct MailboxListOutDTO {
    pub mailbox_names: Vec<String>,
}

/// A request for one attachment of a message.
#[derive(Debug, PartialEq, Eq)]
pub struct EmailAttachmentInDTO {
    pub mailbox_name: String,
    pub sequence_number: u32,
    pub attachment_name: String,
}

} // verus!
