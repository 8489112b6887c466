//! The records of an agent's hash-linked chain, as the query engine reads them.

use vstd::prelude::*;

verus! {

/// The content address of a header: the identifier under which the chain
/// store knows the record. Two records are the same record exactly when their
/// addresses are equal.
pub type HeaderHash = u64;

/// The content address of an entry.
pub type EntryHash = u64;

/// The kind of a header.
#[derive(Clone, Copy, Debug, PartialEq, Eq, Hash, Structural)]
pub enum HeaderType {
    Dna,
    AgentValidationPkg,
    InitZomesComplete,
    CreateLink,
    DeleteLink,
    OpenChain,
    CloseChain,
    Create,
    Update,
    Delete,
}

/// Whether an application entry is published or kept on its author's chain.
#[derive(Clone, Copy, Debug, PartialEq, Eq, Hash, Structural)]
pub enum EntryVisibility {
    Public,
    Private,
}

/// The type of an application-defined entry.
#[derive(Clone, Copy, Debug, PartialEq, Eq, Hash, Structural)]
pub struct AppEntryType {
    /// Position of the entry definition within its zome.
    pub id: u8,
    /// Position of the zome within the DNA.
    pub zome_id: u8,
    pub visibility: EntryVisibility,
}

/// The type of the entry that a header commits.
#[derive(Clone, Copy, Debug, PartialEq, Eq, Hash, Structural)]
pub enum EntryType {
    AgentPubKey,
    App(AppEntryType),
    CapClaim,
    CapGrant,
}

/// A header together with its own address: one immutable node of a chain.
///
/// `header_seq` is the position that the author assigned; across forks it need
/// not be unique. `prev_header` is the address of the logical predecessor and
/// is `None` for the genesis record.
#[derive(Clone, Copy, Debug, PartialEq, Eq, Hash)]
pub struct HeaderHashed {
    pub hash: HeaderHash,
    pub header_seq: u32,
    pub prev_header: Option<HeaderHash>,
    pub header_type: HeaderType,
    pub entry_type: Option<EntryType>,
    pub entry_hash: Option<EntryHash>,
}

impl HeaderHashed {
    /// The address of this header.
    pub fn as_hash(&self) -> (hash: &HeaderHash)
        ensures
            *hash == self.hash,
    {
        &self.hash
    }

    /// The position of this header in its author's chain.
    pub fn header_seq(&self) -> (seq: u32)
        ensures
            seq == self.header_seq,
    {
        self.header_seq
    }

    /// The address of the predecessor, unless this is the genesis record.
    pub fn prev_header(&self) -> (prev: Option<&HeaderHash>)
        ensures
            match prev {
                Some(p) => self.prev_header == Some(*p),
                None => self.prev_header is None,
            },
    {
        self.prev_header.as_ref()
    }

    /// The kind of this header.
    pub fn header_type(&self) -> (kind: HeaderType)
        ensures
            kind == self.header_type,
    {
        self.header_type
    }

    /// The type of the entry that this header commits, if it commits one.
    pub fn entry_type(&self) -> (entry_type: Option<&EntryType>)
        ensures
            match entry_type {
                Some(t) => self.entry_type == Some(*t),
                None => self.entry_type is None,
            },
    {
        self.entry_type.as_ref()
    }

    /// The address of the entry that this header commits, if it commits one.
    pub fn entry_hash(&self) -> (entry_hash: Option<&EntryHash>)
        ensures
            match entry_hash {
                Some(h) => self.entry_hash == Some(*h),
                None => self.entry_hash is None,
            },
    {
        self.entry_hash.as_ref()
    }
}

/// A header paired with the content of the entry that it commits, where the
/// record carries that content.
#[derive(Clone, Debug, PartialEq, Eq)]
pub struct Element {
    pub header: HeaderHashed,
    pub entry: Option<Vec<u8>>,
}

impl Element {
    /// Pairs a header with the content of its entry.
    pub fn new(header: HeaderHashed, entry: Option<Vec<u8>>) -> (element: Self)
        ensures
            element.header == header,
            element.entry == entry,
    {
        Element { header, entry }
    }

    /// The header of this element.
    pub fn header_hashed(&self) -> (header: &HeaderHashed)
        ensures
            *header == self.header,
    {
        &self.header
    }
}

} // verus!
