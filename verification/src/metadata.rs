//! What a replica remembers between synchronisations.

use vstd::prelude::*;
use crate::identifier::{is_identifier, rand_string};

verus! {

/// The state of a replica, as plain values.
pub struct MetadataView {
    /// The replica's own identifier.
    pub hash: Seq<char>,
    /// The date up to which the two logs were merged; `None` before the
    /// first synchronisation.
    pub last_snapshot: Option<Seq<char>>,
}

impl MetadataView {
    /// The watermark as text: the date of the last synchronisation, or the
    /// empty string where there was none.
    pub open spec fn watermark(self) -> Seq<char> {
        match self.last_snapshot {
            Some(date) => date,
            None => Seq::empty(),
        }
    }
}

/// The state of a replica: who it is, and up to where it was synchronised.
#[derive(Debug)]
pub struct Metadata {
    hash: String,
    last_snapshot: Option<String>,
}

impl View for Metadata {
    type V = MetadataView;

    closed spec fn view(&self) -> MetadataView {
        MetadataView {
            hash: self.hash@,
            last_snapshot: match self.last_snapshot {
                Some(date) => Some(date@),
                None => None,
            },
        }
    }
}

impl Default for Metadata {
    fn default() -> (metadata: Metadata)
        ensures
            metadata@ == (MetadataView { hash: Seq::empty(), last_snapshot: None }),
    {
        Metadata { hash: String::new(), last_snapshot: None }
    }
}

impl Metadata {
    /// The state of a replica that has never synchronised, under a fresh
    /// random identifier.
    pub fn new() -> (metadata: Metadata)
        ensures
            is_identifier(metadata@.hash),
            metadata@.last_snapshot is None,
    {
        Metadata { hash: rand_string(), last_snapshot: None }
    }

    /// The state of a replica from its stored parts.
    pub fn from_parts(hash: String, last_snapshot: Option<String>) -> (metadata: Metadata)
        ensures
            metadata@.hash == hash@,
            metadata@.last_snapshot == match last_snapshot {
                Some(date) => Some(date@),
                None => None,
            },
    {
        Metadata { hash, last_snapshot }
    }

    /// The watermark: the date of the last synchronisation, or the empty
    /// string where there was none.
    pub fn get_last_snapshot(&self) -> (date: &str)
        ensures
            date@ == self@.watermark(),
    {
        match &self.last_snapshot {
            Some(s) => s.as_str(),
            None => {
                proof {
                    reveal_strlit("");
                }
                ""
            },
        }
    }

    /// Whether a synchronisation has set a watermark yet.
    pub fn has_snapshot(&self) -> (set: bool)
        ensures
            set == self@.last_snapshot is Some,
    {
        self.last_snapshot.is_some()
    }

    /// The replica's own identifier.
    pub fn get_instance(&self) -> (hash: &str)
        ensures
            hash@ == self@.hash,
    {
        self.hash.as_str()
    }

    /// Moves the watermark to `date`.
    pub fn set_last_snapshot(&mut self, date: &str)
        ensures
            final(self)@ == (MetadataView { hash: old(self)@.hash, last_snapshot: Some(date@) }),
    {
        self.last_snapshot = Some(date.to_owned());
    }
}

} // verus!
