//! The mailboxes of an account: which of them can be opened, and their names
//! in plain text.
//!
//! On the wire a mailbox name is modified UTF-7: text outside the printable
//! ASCII range travels as base64 between an ampersand and a hyphen.

use crate::models::MailboxListOutDTO;
use vstd::prelude::*;
use vstd::utf8::encode_utf8;

verus! {

pub const AMPERSAND: u8 = 38;

pub const HYPHEN: u8 = 45;

/// One mailbox as the protocol layer lists it.
#[derive(Debug, PartialEq, Eq)]
pub struct MailboxEntry {
    /// The name on the wire.
    pub name: String,
    /// Set where the mailbox cannot be opened.
    pub no_select: bool,
}

/// The six bits that a symbol of the shifted alphabet stands for.
pub open spec fn sextet(symbol: u8) -> Option<int> {
    if 65 <= symbol <= 90 {
        Some(symbol - 65)
    } else if 97 <= symbol <= 122 {
        Some(symbol - 97 + 26)
    } else if 48 <= symbol <= 57 {
        Some(symbol - 48 + 52)
    } else if symbol == 43 {
        Some(62)
    } else if symbol == 44 || symbol == 47 {
        Some(63)
    } else {
        None
    }
}

/// The shifted run holds whole bytes: every symbol is of the alphabet, the
/// run does not end on a lone symbol, and the bits of the last symbol that
/// belong to no byte are zero.
pub open spec fn run_decodable(run: Seq<u8>) -> bool {
    &&& forall|i: int| 0 <= i < run.len() ==> sextet(#[trigger] run[i]) is Some
    &&& run.len() % 4 != 1
    &&& run.len() % 4 == 2 ==> sextet(run.last())->0 % 16 == 0
    &&& run.len() % 4 == 3 ==> sextet(run.last())->0 % 4 == 0
}

/// Position of the first `byte` from `from` on, or the length of `bytes`
/// where there is none.
pub open spec fn next_byte(bytes: Seq<u8>, byte: u8, from: int) -> int
    decreases bytes.len() - from,
{
    if from < 0 || from >= bytes.len() {
        bytes.len() as int
    } else if bytes[from] == byte {
        from
    } else {
        next_byte(bytes, byte, from + 1)
    }
}

/// `next_byte` gives a position from `from` on.
pub proof fn lemma_next_byte_is_behind(bytes: Seq<u8>, byte: u8, from: int)
    requires
        0 <= from,
    ensures
        from <= next_byte(bytes, byte, from) || next_byte(bytes, byte, from) == bytes.len(),
        next_byte(bytes, byte, from) <= bytes.len(),
        next_byte(bytes, byte, from) < bytes.len() ==> bytes[next_byte(bytes, byte, from)] == byte,
    decreases bytes.len() - from,
{
    if from < bytes.len() && bytes[from] != byte {
        lemma_next_byte_is_behind(bytes, byte, from + 1);
    }
}

#[via_fn]
proof fn name_decodable_from_terminates(bytes: Seq<u8>, from: int) {
    if 0 <= from {
        lemma_next_byte_is_behind(bytes, AMPERSAND, from);
        lemma_next_byte_is_behind(bytes, HYPHEN, next_byte(bytes, AMPERSAND, from) + 1);
    }
}

/// Every shifted run from `from` on is decodable.  A run stands between an
/// ampersand and the first hyphen behind it; an ampersand with no hyphen
/// behind it starts no run.
pub open spec fn name_decodable_from(bytes: Seq<u8>, from: int) -> bool
    decreases bytes.len() - from,
    via name_decodable_from_terminates
{
    let shift = next_byte(bytes, AMPERSAND, from);
    let back = next_byte(bytes, HYPHEN, shift + 1);
    if from < 0 || shift >= bytes.len() || back >= bytes.len() {
        true
    } else {
        run_decodable(bytes.subrange(shift + 1, back)) && name_decodable_from(bytes, back + 1)
    }
}

/// Every shifted run of the name is decodable.
pub open spec fn name_decodable(name: Seq<char>) -> bool {
    name_decodable_from(encode_utf8(name), 0)
}

fn find_byte(bytes: &[u8], byte: u8, from: usize) -> (at: usize)
    ensures
        at == next_byte(bytes@, byte, from as int),
        at <= bytes.len(),
        at < bytes.len() ==> from <= at,
{
    let mut at = from;
    while at < bytes.len()
        invariant
            from <= at,
            next_byte(bytes@, byte, from as int) == next_byte(bytes@, byte, at as int),
        decreases bytes.len() - at,
    {
        if bytes[at] == byte {
            return at;
        }
        at += 1;
    }
    bytes.len()
}

fn sextet_of(symbol: u8) -> (bits: Option<u8>)
    ensures
        match bits {
            Some(bits) => sextet(symbol) == Some(bits as int),
            None => sextet(symbol) is None,
        },
{
    if 65 <= symbol && symbol <= 90 {
        Some(symbol - 65)
    } else if 97 <= symbol && symbol <= 122 {
        Some(symbol - 97 + 26)
    } else if 48 <= symbol && symbol <= 57 {
        Some(symbol - 48 + 52)
    } else if symbol == 43 {
        Some(62)
    } else if symbol == 44 || symbol == 47 {
        Some(63)
    } else {
        None
    }
}

fn is_run_decodable(bytes: &[u8], start: usize, end: usize) -> (decodable: bool)
    requires
        start <= end <= bytes.len(),
    ensures
        decodable == run_decodable(bytes@.subrange(start as int, end as int)),
{
    let ghost run = bytes@.subrange(start as int, end as int);
    let mut at = start;
    let mut last: u8 = 0;
    while at < end
        invariant
            start <= at <= end,
            end <= bytes.len(),
            run == bytes@.subrange(start as int, end as int),
            forall|i: int| 0 <= i < at - start ==> sextet(#[trigger] run[i]) is Some,
            at > start ==> sextet(run[at - start - 1]) == Some(last as int),
        decreases end - at,
    {
        match sextet_of(bytes[at]) {
            Some(bits) => {
                last = bits;
            },
            None => {
                assert(sextet(run[at - start]) is None);
                return false;
            },
        }
        at += 1;
    }
    let tail = (end - start) % 4;
    if tail == 1 {
        false
    } else if tail == 2 {
        last % 16 == 0
    } else if tail == 3 {
        last % 4 == 0
    } else {
        true
    }
}

/// Tells whether every shifted run of a name on the wire is decodable.
pub fn is_decodable_name(name: &str) -> (decodable: bool)
    ensures
        decodable == name_decodable(name@),
{
    let bytes = name.as_bytes();
    let mut from: usize = 0;
    loop
        invariant
            bytes@ == encode_utf8(name@),
            from <= bytes.len(),
            name_decodable_from(bytes@, 0) == name_decodable_from(bytes@, from as int),
        decreases bytes.len() - from,
    {
        let shift = find_byte(bytes, AMPERSAND, from);
        if shift >= bytes.len() {
            return true;
        }
        let back = find_byte(bytes, HYPHEN, shift + 1);
        if back >= bytes.len() {
            return true;
        }
        if !is_run_decodable(bytes, shift + 1, back) {
            return false;
        }
        from = back + 1;
    }
}

/// The plain text of a mailbox name on the wire.
pub uninterp spec fn utf7_imap_decoded(name: Seq<char>) -> Seq<char>;

/// Calls `utf7_imap::decode_utf7_imap`.  That function unwraps the base64
/// decoding of every shifted run, so the contract asks for a name whose runs
/// are all decodable; it only names the text that the call returns.
#[verifier::external_body]
fn decode_utf7(name: String) -> (text: String)
    requires
        name_decodable(name@),
    ensures
        text@ == utf7_imap_decoded(name@),
{
    utf7_imap::decode_utf7_imap(name)
}

/// The name of a mailbox on the wire for its name in plain text.
pub uninterp spec fn utf7_imap_encoded(name: Seq<char>) -> Seq<char>;

/// Calls `utf7_imap::encode_utf7_imap`.  The contract only names the text
/// that the call returns.
#[verifier::external_body]
pub(crate) fn encode_utf7(name: String) -> (wire: String)
    ensures
        wire@ == utf7_imap_encoded(name@),
{
    utf7_imap::encode_utf7_imap(name)
}

/// Gives the plain text of a mailbox name on the wire, or `None` where one of
/// its shifted runs is not decodable.
pub fn decode_mailbox_name(name: &String) -> (text: Option<String>)
    ensures
        match text {
            Some(text) => name_decodable(name@) && text@ == utf7_imap_decoded(name@),
            None => !name_decodable(name@),
        },
{
    if is_decodable_name(name.as_str()) {
        Some(decode_utf7(name.clone()))
    } else {
        None
    }
}

/// A mailbox whose name cannot be decoded.
#[derive(Clone, Copy, Debug, PartialEq, Eq, Structural)]
pub struct UndecodableName {
    /// Index of the mailbox in the list.
    pub index: usize,
}

/// Index of the first mailbox from `from` on that can be opened and whose
/// name is not decodable.
pub open spec fn first_undecodable(entries: Seq<MailboxEntry>, from: int) -> Option<int>
    decreases entries.len() - from,
{
    if from < 0 || from >= entries.len() {
        None
    } else if !entries[from].no_select && !name_decodable(entries[from].name@) {
        Some(from)
    } else {
        first_undecodable(entries, from + 1)
    }
}

/// The plain names of the mailboxes that can be opened, in their order.
pub open spec fn selectable_names(entries: Seq<MailboxEntry>) -> Seq<Seq<char>>
    decreases entries.len(),
{
    if entries.len() == 0 {
        Seq::empty()
    } else if entries.last().no_select {
        selectable_names(entries.drop_last())
    } else {
        selectable_names(entries.drop_last()).push(utf7_imap_decoded(entries.last().name@))
    }
}

/// The names of a list as mathematical values.
pub open spec fn names_view(names: Seq<String>) -> Seq<Seq<char>> {
    Seq::new(names.len(), |i: int| names[i]@)
}

/// Lists the mailboxes that can be opened by their plain names.  Fails on
/// the first of them whose name cannot be decoded.
pub fn selectable_mailboxes(entries: &Vec<MailboxEntry>) -> (listed: Result<
    MailboxListOutDTO,
    UndecodableName,
>)
    ensures
        match listed {
            Ok(list) => first_undecodable(entries@, 0) is None && names_view(list.mailbox_names@)
                == selectable_names(entries@),
            Err(error) => first_undecodable(entries@, 0) == Some(error.index as int),
        },
{
    let mut mailbox_names: Vec<String> = Vec::new();
    let mut at: usize = 0;
    assert(entries@.take(0) =~= Seq::<MailboxEntry>::empty());
    assert(names_view(mailbox_names@) =~= Seq::<Seq<char>>::empty());
    while at < entries.len()
        invariant
            at <= entries.len(),
            first_undecodable(entries@, 0) == first_undecodable(entries@, at as int),
            names_view(mailbox_names@) == selectable_names(entries@.take(at as int)),
        decreases entries.len() - at,
    {
        let entry = &entries[at];
        proof {
            let next = entries@.take(at + 1);
            assert(next.drop_last() =~= entries@.take(at as int));
            assert(next.last() == *entry);
        }
        if !entry.no_select {
            match decode_mailbox_name(&entry.name) {
                Some(text) => {
                    let ghost before = names_view(mailbox_names@);
                    mailbox_names.push(text);
                    assert(names_view(mailbox_names@) =~= before.push(text@));
                },
                None => {
                    return Err(UndecodableName { index: at });
                },
            }
        }
        at += 1;
    }
    assert(entries@.take(at as int) =~= entries@);
    Ok(MailboxListOutDTO { mailbox_names })
}

} // verus!
