//! The wire envelope: every call, reply and signal travels in a [`Message`].

use vstd::prelude::*;

use crate::table::{
    distinct_keys, entries_view, has_key, lemma_with_entry, lookup, with_entry, Table,
};

verus! {

/// Status code that the server sends to end the stream of a correctable call.
/// It is no gRPC status code: those are 0 to 16.
pub const STATUS_STREAM_DONE: u32 = 0xFFFF_FFFE;

/// Per-call metadata on the wire: each key once, in order of insertion.
pub type MetadataMap = Table<String>;

/// Metadata entries, with each key as text.
pub type MetadataView = Seq<(Seq<char>, String)>;

/// The wire envelope.
#[derive(Debug)]
pub struct Message {
    /// Matches responses to requests.
    pub message_seq_no: u64,
    /// Full gRPC method path, e.g. `/storage.Storage/Read`.
    pub method: String,
    /// gRPC status of an error response; 0 is success.
    pub status_code: u32,
    /// Message of an error response.
    pub status_message: String,
    /// The encoded application message.
    pub payload: Vec<u8>,
    /// Per-call metadata, forwarded from client to server.
    pub metadata: MetadataMap,
}

/// What a [`Message`] says.
pub struct MessageView {
    pub message_seq_no: u64,
    pub method: Seq<char>,
    pub status_code: u32,
    pub status_message: Seq<char>,
    pub payload: Seq<u8>,
    pub metadata: MetadataView,
}

impl View for Message {
    type V = MessageView;

    open spec fn view(&self) -> MessageView {
        MessageView {
            message_seq_no: self.message_seq_no,
            method: self.method@,
            status_code: self.status_code,
            status_message: self.status_message@,
            payload: self.payload@,
            metadata: self.metadata@,
        }
    }
}

/// The entries set one after the other: the last value of a key wins, at the
/// place where the key first appeared.
pub open spec fn last_wins(entries: MetadataView) -> MetadataView
    decreases entries.len(),
{
    if entries.len() == 0 {
        seq![]
    } else {
        with_entry(last_wins(entries.drop_last()), entries.last().0, entries.last().1)
    }
}

/// The value of the last entry with this key.
pub open spec fn last_value(entries: MetadataView, key: Seq<char>) -> Option<String>
    decreases entries.len(),
{
    if entries.len() == 0 {
        None
    } else if entries.last().0 == key {
        Some(entries.last().1)
    } else {
        last_value(entries.drop_last(), key)
    }
}

/// On the wire the last entry wins where a key appears more than once, every
/// key appears once, and no key is lost or made up.
pub proof fn lemma_last_wins(entries: MetadataView)
    ensures
        distinct_keys(last_wins(entries)),
        forall|key: Seq<char>| #[trigger]
            lookup(last_wins(entries), key) == last_value(entries, key),
    decreases entries.len(),
{
    if entries.len() > 0 {
        lemma_last_wins(entries.drop_last());
        lemma_with_entry(
            last_wins(entries.drop_last()),
            entries.last().0,
            entries.last().1,
        );
    }
}

/// Where no key appears twice, the wire carries the entries unchanged, in
/// their order.
pub proof fn lemma_last_wins_distinct(entries: MetadataView)
    requires
        distinct_keys(entries),
    ensures
        last_wins(entries) == entries,
    decreases entries.len(),
{
    if entries.len() > 0 {
        let before = entries.drop_last();
        assert(distinct_keys(before)) by {
            assert forall|i: int, j: int| 0 <= i < j < before.len() implies (#[trigger] before[i]).0
                != (#[trigger] before[j]).0 by {
                assert(entries[i].0 != entries[j].0);
            }
        }
        lemma_last_wins_distinct(before);
        assert(!has_key(before, entries.last().0)) by {
            assert forall|i: int| 0 <= i < before.len() implies #[trigger] before[i].0
                != entries.last().0 by {
                assert(entries[i].0 != entries[entries.len() - 1].0);
            }
        }
        assert(last_wins(entries) =~= entries);
    }
}

/// The metadata of a message, from the entries attached to a call. The last
/// entry wins where a key appears more than once.
pub fn metadata_map(entries: &Vec<(String, String)>) -> (r: MetadataMap)
    ensures
        r@ == last_wins(entries_view(entries@)),
        distinct_keys(r@),
        forall|key: Seq<char>| #[trigger]
            lookup(r@, key) == last_value(entries_view(entries@), key),
{
    let mut map: MetadataMap = Table::new();
    let ghost all = entries_view(entries@);
    for i in 0..entries.len()
        invariant
            all == entries_view(entries@),
            map@ == last_wins(all.take(i as int)),
    {
        assert(all.take(i + 1).drop_last() =~= all.take(i as int));
        map.insert(entries[i].0.clone(), entries[i].1.clone());
    }
    assert(all.take(all.len() as int) =~= all);
    proof {
        lemma_last_wins(all);
    }
    map
}

impl Clone for Table<String> {
    fn clone(&self) -> (r: Self)
        ensures
            r@ == self@,
    {
        let entries = self.entries();
        let r = metadata_map(entries);
        proof {
            lemma_last_wins_distinct(self@);
        }
        r
    }
}

/// A copy of a list of entries.
pub fn clone_entries(entries: &Vec<(String, String)>) -> (r: Vec<(String, String)>)
    ensures
        r@ == entries@,
{
    let mut r: Vec<(String, String)> = Vec::new();
    for i in 0..entries.len()
        invariant
            r@ == entries@.take(i as int),
    {
        r.push((entries[i].0.clone(), entries[i].1.clone()));
        assert(r@ =~= entries@.take(i + 1));
    }
    assert(r@ =~= entries@);
    r
}

/// The metadata of a message as the list of entries that a handler sees, in
/// order of insertion.
pub fn metadata_entries(map: &MetadataMap) -> (r: Vec<(String, String)>)
    ensures
        entries_view(r@) == map@,
        distinct_keys(map@),
{
    clone_entries(map.entries())
}

impl Clone for Message {
    fn clone(&self) -> (r: Self)
        ensures
            r@ == self@,
    {
        let payload = self.payload.clone();
        assert(payload@ =~= self.payload@);
        Message {
            message_seq_no: self.message_seq_no,
            method: self.method.clone(),
            status_code: self.status_code,
            status_message: self.status_message.clone(),
            payload,
            metadata: self.metadata.clone(),
        }
    }
}

/// What a request says: the given fields, and the status of success.
pub open spec fn request_view(
    seq: u64,
    method: Seq<char>,
    payload: Seq<u8>,
    metadata: MetadataView,
) -> MessageView {
    MessageView {
        message_seq_no: seq,
        method,
        status_code: 0,
        status_message: seq![],
        payload,
        metadata,
    }
}

/// The message of a request.
pub fn build_wire_message(
    seq: u64,
    method: &str,
    payload: Vec<u8>,
    metadata: MetadataMap,
) -> (r: Message)
    ensures
        r@ == request_view(seq, method@, payload@, metadata@),
{
    let r = Message {
        message_seq_no: seq,
        method: method.to_string(),
        status_code: 0,
        status_message: String::new(),
        payload,
        metadata,
    };
    assert(r@.status_message =~= Seq::<char>::empty());
    r
}

} // verus!
