//! Files that travel with an outgoing message.

use vstd::prelude::*;
use vstd::string::StringExecFns;

verus! {

/// A file that was handed in with an outgoing message.
#[derive(Debug, PartialEq, Eq)]
pub struct StagedFile {
    /// Where the file is kept until the message is sent.
    pub path: String,
    /// The name of the file.
    pub name: String,
    /// The content type that the file is sent with.
    pub content_type: String,
}

/// The content type that is guessed for a file name.
pub uninterp spec fn guessed_content_type(file_name: Seq<char>) -> Seq<char>;

/// Calls `mime_guess::from_path`, takes the first guess or
/// `application/octet-stream`, and writes it as text.  The contract only
/// names the text that comes back.
#[verifier::external_body]
fn guess_content_type(file_name: &str) -> (content_type: String)
    ensures
        content_type@ == guessed_content_type(file_name@),
{
    mime_guess::from_path(file_name).first_or_octet_stream().to_string()
}

/// Where a file of the given name is kept until the message is sent.
pub open spec fn staging_path_of(file_name: Seq<char>) -> Seq<char> {
    "./tmp/"@ + file_name
}

/// Gives the place where a file of the given name is kept.
pub fn staging_path(file_name: &str) -> (path: String)
    ensures
        path@ == staging_path_of(file_name@),
{
    "./tmp/".to_owned().concat(file_name)
}

/// Stages a file of an outgoing message: picks its place and its content
/// type by its name.
pub fn stage_file(file_name: &str) -> (file: StagedFile)
    ensures
        file.path@ == staging_path_of(file_name@),
        file.name@ == file_name@,
        file.content_type@ == guessed_content_type(file_name@),
{
    StagedFile {
        path: staging_path(file_name),
        name: file_name.to_owned(),
        content_type: guess_content_type(file_name),
    }
}

} // verus!
