//! The structural description of a message as the mail-protocol layer reports
//! it: a tree of parts with content types and sizes, and no byte offsets.

use vstd::prelude::*;

verus! {

/// One `name=value` parameter of a content type or of a content disposition.
#[derive(Debug, PartialEq, Eq)]
pub struct Parameter {
    pub name: String,
    pub value: String,
}

/// The content disposition of a part.
#[derive(Debug, PartialEq, Eq)]
pub struct ContentDisposition {
    pub kind: String,
    pub params: Vec<Parameter>,
}

/// Content-transfer-encoding of a part, as the protocol layer names it.
#[derive(Debug, PartialEq, Eq)]
pub enum ContentEncoding {
    SevenBit,
    EightBit,
    Binary,
    Base64,
    QuotedPrintable,
    Other(String),
}

/// What the protocol layer reports of a part without children.
#[derive(Debug, PartialEq, Eq)]
pub struct LeafMetadata {
    pub media_type: String,
    pub subtype: String,
    pub disposition: Option<ContentDisposition>,
    pub transfer_encoding: ContentEncoding,
    pub octets: u32,
}

/// A node of the structure tree.
#[derive(Debug, PartialEq, Eq)]
pub enum StructureNode {
    /// A part without children.
    Leaf(LeafMetadata),
    /// An embedded message.  It is carried in the tree and resolves to nothing.
    NestedMessage,
    /// A multipart container with the parameters of its content type.
    Multipart { params: Vec<Parameter>, children: Vec<StructureNode> },
}

/// Name of the content-type parameter that holds a multipart's boundary token.
pub open spec fn boundary_key() -> Seq<char> {
    "BOUNDARY"@
}

/// Name of the disposition parameter that holds an attachment's file name.
pub open spec fn filename_key() -> Seq<char> {
    "FILENAME"@
}

/// Index of the first parameter from `from` on whose name is `name`.
pub open spec fn first_named_from(params: Seq<Parameter>, name: Seq<char>, from: int) -> Option<int>
    decreases params.len() - from,
{
    if from < 0 || from >= params.len() {
        None
    } else if params[from].name@ == name {
        Some(from)
    } else {
        first_named_from(params, name, from + 1)
    }
}

/// Value of the first parameter whose name is `name`.
pub open spec fn parameter_value(params: Seq<Parameter>, name: Seq<char>) -> Option<Seq<char>> {
    match first_named_from(params, name, 0) {
        Some(at) => Some(params[at].value@),
        None => None,
    }
}

/// Looks a parameter up by name and gives the value of the first that carries it.
pub fn find_parameter<'a>(params: &'a Vec<Parameter>, name: &str) -> (found: Option<&'a String>)
    ensures
        match found {
            Some(value) => parameter_value(params@, name@) == Some(value@),
            None => parameter_value(params@, name@) is None,
        },
{
    let key = name.to_owned();
    let mut at: usize = 0;
    while at < params.len()
        invariant
            at <= params.len(),
            key@ == name@,
            first_named_from(params@, name@, 0) == first_named_from(params@, name@, at as int),
        decreases params.len() - at,
    {
        if params[at].name == key {
            return Some(&params[at].value);
        }
        at += 1;
    }
    None
}

impl StructureNode {
    /// The boundary token of a multipart node: the value of its `BOUNDARY`
    /// parameter.  Other nodes have none.
    pub open spec fn boundary(&self) -> Option<Seq<char>> {
        match self {
            StructureNode::Multipart { params, children } => parameter_value(
                params@,
                boundary_key(),
            ),
            _ => None,
        }
    }
}

} // verus!
