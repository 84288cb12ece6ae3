//! Assigning a role and a label to a leaf part from its metadata alone.

use crate::helper_models::PartRole;
use crate::structure::{filename_key, find_parameter, parameter_value, LeafMetadata};
use vstd::prelude::*;

verus! {

/// Label of the part that carries the text of the message.
pub open spec fn body_label() -> Seq<char> {
    "Email text"@
}

/// Label of a part that was not classified or not found.
pub open spec fn placeholder_label() -> Seq<char> {
    "Unparsed attachment"@
}

/// The file name that the disposition of `leaf` carries, if any.
pub open spec fn disposition_file_name(leaf: LeafMetadata) -> Option<Seq<char>> {
    match leaf.disposition {
        Some(disposition) => parameter_value(disposition.params@, filename_key()),
        None => None,
    }
}

/// The content type of `leaf` is plain text.
pub open spec fn is_plain_text(leaf: LeafMetadata) -> bool {
    leaf.media_type@ == "TEXT"@ && leaf.subtype@ == "PLAIN"@
}

/// The role of a leaf: an attachment where its disposition names a file, the
/// body where it has no disposition and is plain text, else unclassified.
pub open spec fn classified_role(leaf: LeafMetadata) -> PartRole {
    if disposition_file_name(leaf) is Some {
        PartRole::Attachment
    } else if leaf.disposition is None && is_plain_text(leaf) {
        PartRole::Body
    } else {
        PartRole::Unclassified
    }
}

/// The label of a leaf: the file name of an attachment, a fixed text for the
/// body and for an unclassified part.
pub open spec fn classified_label(leaf: LeafMetadata) -> Seq<char> {
    match classified_role(leaf) {
        PartRole::Attachment => disposition_file_name(leaf)->0,
        PartRole::Body => body_label(),
        PartRole::Unclassified => placeholder_label(),
    }
}

/// The outcome of classifying a leaf.
#[derive(Debug, PartialEq, Eq)]
pub struct Classification {
    pub role: PartRole,
    pub label: String,
    /// Whether the part surfaces in attachment listings.
    pub is_file: bool,
}

/// Classifies a leaf part by its content type and its disposition.
pub fn classify(leaf: &LeafMetadata) -> (outcome: Classification)
    ensures
        outcome.role == classified_role(*leaf),
        outcome.label@ == classified_label(*leaf),
        outcome.is_file == (classified_role(*leaf) is Attachment),
{
    match &leaf.disposition {
        Some(disposition) => {
            match find_parameter(&disposition.params, "FILENAME") {
                Some(file_name) => Classification {
                    role: PartRole::Attachment,
                    label: file_name.clone(),
                    is_file: true,
                },
                None => Classification {
                    role: PartRole::Unclassified,
                    label: "Unparsed attachment".to_owned(),
                    is_file: false,
                },
            }
        },
        None => {
            let text = "TEXT".to_owned();
            let plain = "PLAIN".to_owned();
            if leaf.media_type == text && leaf.subtype == plain {
                Classification {
                    role: PartRole::Body,
                    label: "Email text".to_owned(),
                    is_file: false,
                }
            } else {
                Classification {
                    role: PartRole::Unclassified,
                    label: "Unparsed attachment".to_owned(),
                    is_file: false,
                }
            }
        },
    }
}

} // verus!
