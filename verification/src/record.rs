//! Records: what the DHT stores under a key.

use std::time::Instant;
use vstd::prelude::*;

verus! {

/// A record of the DHT.
#[derive(Clone, Debug)]
pub struct Record {
    /// The key under which the record is stored.
    pub key: Vec<u8>,
    /// The stored bytes.
    pub value: Vec<u8>,
    /// The identity of the peer that published the record first, if known.
    pub publisher: Option<Vec<u8>>,
    /// When the record expires on the local clock; `None` if it never does.
    pub expires: Option<Instant>,
}

/// What a record is in contracts.
pub struct RecordView {
    pub key: Seq<u8>,
    pub value: Seq<u8>,
    pub publisher: Option<Seq<u8>>,
    pub expires: Option<Instant>,
}

impl View for Record {
    type V = RecordView;

    open spec fn view(&self) -> RecordView {
        RecordView {
            key: self.key@,
            value: self.value@,
            publisher: match self.publisher {
                Some(peer) => Some(peer@),
                None => None,
            },
            expires: self.expires,
        }
    }
}

} // verus!
