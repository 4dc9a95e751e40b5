//! Decoding of read replies: a reply holds streams, a stream holds entries,
//! an entry holds an identifier and field/value pairs.

use vstd::prelude::*;
use vstd::utf8::{decode_utf8, encode_utf8, valid_utf8};
use crate::entry_id::{lemma_render_injective, EntryId};
use crate::reply::{copy_bytes, strings_view, Reply};
use crate::text::{string_from_utf8, utf8_bytes};

verus! {

/// The results of `rs` in order, or the first error among them.
pub open spec fn collect<T, E>(rs: Seq<Result<T, E>>) -> Result<Seq<T>, E>
    decreases rs.len(),
{
    if rs.len() == 0 {
        Ok(Seq::empty())
    } else {
        match collect(rs.drop_last()) {
            Err(e) => Err(e),
            Ok(ts) => match rs.last() {
                Err(e) => Err(e),
                Ok(t) => Ok(ts.push(t)),
            },
        }
    }
}

/// An error among the first results is the error of the whole.
pub proof fn lemma_collect_prefix_error<T, E>(rs: Seq<Result<T, E>>, j: int)
    requires
        0 <= j <= rs.len(),
        collect(rs.take(j)) is Err,
    ensures
        collect(rs) == collect(rs.take(j)),
    decreases rs.len() - j,
{
    if j < rs.len() {
        assert(rs.drop_last().take(j) =~= rs.take(j));
        lemma_collect_prefix_error(rs.drop_last(), j);
    } else {
        assert(rs.take(j) =~= rs);
    }
}

/// Where every result is a success, `collect` yields them all, in order.
pub proof fn lemma_collect_all_ok<T, E>(rs: Seq<Result<T, E>>, ts: Seq<T>)
    requires
        rs.len() == ts.len(),
        forall|i: int| 0 <= i < rs.len() ==> #[trigger] rs[i] == Ok::<T, E>(ts[i]),
    ensures
        collect(rs) == Ok::<Seq<T>, E>(ts),
    decreases rs.len(),
{
    if rs.len() == 0 {
        assert(ts =~= Seq::<T>::empty());
    } else {
        lemma_collect_all_ok(rs.drop_last(), ts.drop_last());
        assert(rs.last() == Ok::<T, E>(ts.last()));
        assert(ts.drop_last().push(ts.last()) =~= ts);
    }
}

/// Where `collect` succeeds, every result is a success, and they stand in
/// order.
pub proof fn lemma_collect_ok_each<T, E>(rs: Seq<Result<T, E>>)
    requires
        collect(rs) is Ok,
    ensures
        collect(rs)->Ok_0.len() == rs.len(),
        forall|i: int|
            0 <= i < rs.len() ==> #[trigger] rs[i] == Ok::<T, E>(collect(rs)->Ok_0[i]),
    decreases rs.len(),
{
    if rs.len() > 0 {
        lemma_collect_ok_each(rs.drop_last());
        let ts = collect(rs)->Ok_0;
        assert forall|i: int| 0 <= i < rs.len() implies #[trigger] rs[i] == Ok::<T, E>(ts[i]) by {
            if i < rs.len() - 1 {
                assert(rs.drop_last()[i] == rs[i]);
            }
        }
    }
}

/// The models of field/value pairs, in order.
pub open spec fn pairs_view(v: Seq<(Vec<u8>, Vec<u8>)>) -> Seq<(Seq<u8>, Seq<u8>)> {
    v.map_values(|p: (Vec<u8>, Vec<u8>)| (p.0@, p.1@))
}

/// The pairs as one list: each key followed by its value.
pub open spec fn flat(pairs: Seq<(Seq<u8>, Seq<u8>)>) -> Seq<Seq<u8>> {
    Seq::new(
        (2 * pairs.len()) as nat,
        |i: int|
            if i % 2 == 0 {
                pairs[i / 2].0
            } else {
                pairs[i / 2].1
            },
    )
}

/// The pairs that a flat list of alternating keys and values holds; `None`
/// where a key is left without a value.
pub open spec fn paired(list: Seq<Seq<u8>>) -> Option<Seq<(Seq<u8>, Seq<u8>)>> {
    if list.len() % 2 == 0 {
        Some(Seq::new((list.len() / 2) as nat, |i: int| (list[2 * i], list[2 * i + 1])))
    } else {
        None
    }
}

/// Pairs that are written as a flat list and read back are the same pairs, in
/// the same order, whatever their keys: equal keys stay apart.
pub proof fn lemma_pairs_round_trip(pairs: Seq<(Seq<u8>, Seq<u8>)>)
    ensures
        paired(flat(pairs)) == Some(pairs),
{
    assert(paired(flat(pairs)).unwrap() =~= pairs);
}

/// A flat list of even length that is read as pairs and written back is the
/// same list.
pub proof fn lemma_flat_round_trip(list: Seq<Seq<u8>>)
    requires
        list.len() % 2 == 0,
    ensures
        flat(paired(list).unwrap()) == list,
{
    let pairs = paired(list).unwrap();
    assert forall|i: int| 0 <= i < list.len() implies flat(pairs)[i] == list[i] by {
        if i % 2 == 0 {
            assert(2 * (i / 2) == i);
        } else {
            assert(2 * (i / 2) + 1 == i);
        }
    }
    assert(flat(pairs) =~= list);
}

/// Writes pairs as one list of alternating keys and values.
pub fn flatten(pairs: &Vec<(Vec<u8>, Vec<u8>)>) -> (out: Vec<Vec<u8>>)
    ensures
        strings_view(out@) == flat(pairs_view(pairs@)),
{
    let mut out: Vec<Vec<u8>> = Vec::new();
    let mut i: usize = 0;
    while i < pairs.len()
        invariant
            0 <= i <= pairs@.len(),
            out@.len() == 2 * i,
            forall|j: int| 0 <= j < i ==> (#[trigger] out@[2 * j])@ == pairs@[j].0@,
            forall|j: int| 0 <= j < i ==> (#[trigger] out@[2 * j + 1])@ == pairs@[j].1@,
        decreases pairs@.len() - i,
    {
        let ghost before = out@;
        out.push(copy_bytes(&pairs[i].0));
        out.push(copy_bytes(&pairs[i].1));
        proof {
            assert forall|j: int| 0 <= j < i + 1 implies (#[trigger] out@[2 * j])@
                == pairs@[j].0@ by {
                if j < i {
                    assert(out@[2 * j] == before[2 * j]);
                }
            }
            assert forall|j: int| 0 <= j < i + 1 implies (#[trigger] out@[2 * j + 1])@
                == pairs@[j].1@ by {
                if j < i {
                    assert(out@[2 * j + 1] == before[2 * j + 1]);
                }
            }
        }
        i = i + 1;
    }
    proof {
        let want = flat(pairs_view(pairs@));
        assert forall|k: int| 0 <= k < want.len() implies strings_view(out@)[k] == want[k] by {
            if k % 2 == 0 {
                assert(2 * (k / 2) == k);
                assert((out@[2 * (k / 2)])@ == pairs@[k / 2].0@);
            } else {
                assert(2 * (k / 2) + 1 == k);
                assert((out@[2 * (k / 2) + 1])@ == pairs@[k / 2].1@);
            }
        }
        assert(strings_view(out@) =~= want);
    }
    out
}

/// Reads a flat list of alternating keys and values as pairs; `None` where a
/// key is left without a value.
pub fn pair_up(list: &Vec<Vec<u8>>) -> (r: Option<Vec<(Vec<u8>, Vec<u8>)>>)
    ensures
        match r {
            Some(pairs) => paired(strings_view(list@)) == Some(pairs_view(pairs@)),
            None => paired(strings_view(list@)) is None,
        },
{
    let n: usize = list.len();
    if n % 2 != 0 {
        return None;
    }
    let mut out: Vec<(Vec<u8>, Vec<u8>)> = Vec::new();
    let mut i: usize = 0;
    while i < n
        invariant
            n == list@.len(),
            n % 2 == 0,
            i % 2 == 0,
            0 <= i <= n,
            out@.len() * 2 == i,
            forall|j: int|
                0 <= j < out@.len() ==> (#[trigger] out@[j]).0@ == list@[2 * j]@ && out@[j].1@
                    == list@[2 * j + 1]@,
        decreases n - i,
    {
        out.push((copy_bytes(&list[i]), copy_bytes(&list[i + 1])));
        i = i + 2;
    }
    assert(pairs_view(out@) =~= paired(strings_view(list@)).unwrap());
    Some(out)
}

/// The mathematical model of an entry.
pub struct EntryView {
    pub id: EntryId,
    pub fields: Seq<(Seq<u8>, Seq<u8>)>,
}

/// One record of a stream: its identifier and its field/value pairs, in the
/// order in which the server holds them. A key may occur more than once.
#[derive(Debug)]
pub struct Entry {
    id: EntryId,
    fields: Vec<(Vec<u8>, Vec<u8>)>,
}

impl View for Entry {
    type V = EntryView;

    closed spec fn view(&self) -> EntryView {
        EntryView { id: self.id, fields: pairs_view(self.fields@) }
    }
}

/// Why a node is not an entry.
#[derive(Clone, Copy, Debug, PartialEq, Eq, Structural)]
pub enum EntryFault {
    /// The node is not a list of two members.
    NotAPair,
    /// The first member is not the text of an identifier.
    BadId,
    /// The second member is not a list of byte strings.
    BadFields,
    /// The second member holds a key without a value.
    OddFields,
}

/// The identifier that a node holds: the node is a byte string, and its
/// bytes are the text of an identifier.
pub open spec fn spec_entry_id(node: Reply) -> Option<EntryId> {
    match node.spec_bytes() {
        Some(text) => EntryId::spec_parse(text),
        None => None,
    }
}

/// The entry that a node holds, or the first reason why it holds none.
pub open spec fn spec_decode_entry(node: Reply) -> Result<EntryView, EntryFault> {
    match node.spec_pair() {
        None => Err(EntryFault::NotAPair),
        Some((head, tail)) => match spec_entry_id(head) {
            None => Err(EntryFault::BadId),
            Some(id) => match tail.spec_byte_strings() {
                None => Err(EntryFault::BadFields),
                Some(list) => match paired(list) {
                    None => Err(EntryFault::OddFields),
                    Some(fields) => Ok(EntryView { id, fields }),
                },
            },
        },
    }
}

/// `node` is the wire form of `entry`: a list of the identifier's text and of
/// the flat list of the entry's pairs.
pub open spec fn holds_entry(node: Reply, entry: EntryView) -> bool {
    match node.spec_pair() {
        Some((head, tail)) => head.spec_bytes() == Some(entry.id.spec_render())
            && tail.spec_byte_strings() == Some(flat(entry.fields)),
        None => false,
    }
}

/// An entry is read back from its wire form as it was written: the same
/// identifier and the same pairs in the same order, equal keys included.
pub proof fn lemma_entry_round_trip(node: Reply, entry: EntryView)
    requires
        holds_entry(node, entry),
    ensures
        spec_decode_entry(node) == Ok::<EntryView, EntryFault>(entry),
{
    let chosen = choose|id: EntryId| #[trigger] id.spec_render() == entry.id.spec_render();
    lemma_render_injective(entry.id, chosen);
    lemma_pairs_round_trip(entry.fields);
}

/// Reads the identifier that a node holds.
pub fn decode_id(node: &Reply) -> (r: Option<EntryId>)
    ensures
        r == spec_entry_id(*node),
{
    match node {
        Reply::Data(text) => EntryId::parse(text.as_slice()),
        _ => None,
    }
}

/// The identifiers of `entries` grow strictly from each entry to the next.
pub open spec fn ids_increase(entries: Seq<EntryView>) -> bool {
    forall|i: int, j: int|
        0 <= i < j < entries.len() ==> (#[trigger] entries[i]).id.spec_lt(
            (#[trigger] entries[j]).id,
        )
}

/// The models of entries, in order.
pub open spec fn entries_view(v: Seq<Entry>) -> Seq<EntryView> {
    v.map_values(|e: Entry| e@)
}

impl Entry {
    pub fn new(id: EntryId, fields: Vec<(Vec<u8>, Vec<u8>)>) -> (e: Entry)
        ensures
            e@ == (EntryView { id, fields: pairs_view(fields@) }),
    {
        Entry { id, fields }
    }

    pub fn id(&self) -> (id: EntryId)
        ensures
            id == self@.id,
    {
        self.id
    }

    /// The field/value pairs, in order.
    pub fn fields(&self) -> (fields: &Vec<(Vec<u8>, Vec<u8>)>)
        ensures
            pairs_view(fields@) == self@.fields,
    {
        &self.fields
    }

    /// The identifier and the field/value pairs, by value.
    pub fn into_parts(self) -> (parts: (EntryId, Vec<(Vec<u8>, Vec<u8>)>))
        ensures
            parts.0 == self@.id,
            pairs_view(parts.1@) == self@.fields,
    {
        (self.id, self.fields)
    }

    /// The field/value pairs as one list: each key followed by its value.
    pub fn key_values(&self) -> (list: Vec<Vec<u8>>)
        ensures
            strings_view(list@) == flat(self@.fields),
    {
        flatten(&self.fields)
    }

    /// Reads an entry from a node of a reply: a list of an identifier and a
    /// flat list of alternating keys and values.
    pub fn decode(node: &Reply) -> (r: Result<Entry, EntryFault>)
        ensures
            match r {
                Ok(e) => spec_decode_entry(*node) == Ok::<EntryView, EntryFault>(e@),
                Err(fault) => spec_decode_entry(*node) == Err::<EntryView, EntryFault>(fault),
            },
    {
        match node {
            Reply::Bulk(parts) => {
                if parts.len() != 2 {
                    return Err(EntryFault::NotAPair);
                }
                let id = match decode_id(&parts[0]) {
                    Some(id) => id,
                    None => {
                        return Err(EntryFault::BadId);
                    },
                };
                let list = match parts[1].byte_strings() {
                    Some(list) => list,
                    None => {
                        return Err(EntryFault::BadFields);
                    },
                };
                match pair_up(&list) {
                    Some(fields) => Ok(Entry { id, fields }),
                    None => Err(EntryFault::OddFields),
                }
            },
            _ => Err(EntryFault::NotAPair),
        }
    }

    /// Writes the entry in its wire form, from which `decode` reads it back.
    pub fn encode(&self) -> (node: Reply)
        ensures
            holds_entry(node, self@),
            spec_decode_entry(node) == Ok::<EntryView, EntryFault>(self@),
    {
        let list = flatten(&self.fields);
        let mut items: Vec<Reply> = Vec::new();
        let mut i: usize = 0;
        while i < list.len()
            invariant
                0 <= i <= list@.len(),
                items@.len() == i,
                forall|j: int|
                    0 <= j < i ==> (#[trigger] items@[j]).spec_bytes() == Some(list@[j]@),
            decreases list@.len() - i,
        {
            items.push(Reply::Data(copy_bytes(&list[i])));
            i = i + 1;
        }
        let tail = Reply::Bulk(items);
        let head = Reply::Data(self.id.render());
        let mut parts: Vec<Reply> = Vec::new();
        parts.push(head);
        parts.push(tail);
        let node = Reply::Bulk(parts);
        proof {
            assert(node.spec_pair() == Some((head, tail)));
            assert(tail.spec_byte_strings().unwrap() =~= strings_view(list@));
            lemma_entry_round_trip(node, self@);
        }
        node
    }
}

/// The mathematical model of what one reply holds of one stream.
pub struct StreamView {
    pub name: Seq<char>,
    pub entries: Seq<EntryView>,
}

/// What one reply holds of one stream: the stream's name and the entries that
/// answer the request, in the order of the reply. It is not the whole stream.
#[derive(Debug)]
pub struct Stream {
    id: String,
    entries: Vec<Entry>,
}

impl View for Stream {
    type V = StreamView;

    closed spec fn view(&self) -> StreamView {
        StreamView { name: self.id@, entries: entries_view(self.entries@) }
    }
}

/// The models of streams, in order.
pub open spec fn streams_view(v: Seq<Stream>) -> Seq<StreamView> {
    v.map_values(|s: Stream| s@)
}

/// The mathematical model of a decode error.
pub enum DecodeFault {
    Reply,
    Stream,
    Entry { stream: Seq<char>, cause: EntryFault },
    Missing,
    Id,
}

/// Why a reply cannot be read.
#[derive(Debug, PartialEq, Eq)]
pub enum DecodeError {
    /// The reply is neither empty nor a list.
    Reply,
    /// A member of the reply is not a list of two members, a name in UTF-8
    /// and a list.
    Stream,
    /// A member of the named stream is no entry.
    Entry { stream: String, cause: EntryFault },
    /// The reply lacks the stream, the entry or the field that was asked for.
    Missing,
    /// The reply to an append is not the text of an identifier.
    Id,
}

impl View for DecodeError {
    type V = DecodeFault;

    open spec fn view(&self) -> DecodeFault {
        match self {
            DecodeError::Reply => DecodeFault::Reply,
            DecodeError::Stream => DecodeFault::Stream,
            DecodeError::Entry { stream, cause } => DecodeFault::Entry {
                stream: stream@,
                cause: *cause,
            },
            DecodeError::Missing => DecodeFault::Missing,
            DecodeError::Id => DecodeFault::Id,
        }
    }
}

/// What an entry fault reads as, behind the name of the stream.
pub open spec fn fault_text(cause: EntryFault) -> Seq<char> {
    match cause {
        EntryFault::NotAPair => " is not a list of two members"@,
        EntryFault::BadId => " has no identifier"@,
        EntryFault::BadFields => " has fields that are no byte strings"@,
        EntryFault::OddFields => " has a key without a value"@,
    }
}

/// What a decode error reads as.
pub open spec fn error_text(e: DecodeFault) -> Seq<char> {
    match e {
        DecodeFault::Reply => "the reply is neither empty nor a list"@,
        DecodeFault::Stream => "a member of the reply is no stream"@,
        DecodeFault::Entry { stream, cause } => "a member of stream "@ + stream + fault_text(cause),
        DecodeFault::Missing => "the reply lacks what was asked for"@,
        DecodeFault::Id => "the reply to an append is no identifier"@,
    }
}

impl DecodeError {
    /// A description of the error for a log or a message.
    pub fn to_string(&self) -> (text: String)
        ensures
            text@ == error_text(self@),
    {
        match self {
            DecodeError::Reply => "the reply is neither empty nor a list".to_owned(),
            DecodeError::Stream => "a member of the reply is no stream".to_owned(),
            DecodeError::Entry { stream, cause } => {
                let mut text = "a member of stream ".to_owned();
                text.append(stream.as_str());
                text.append(
                    match cause {
                        EntryFault::NotAPair => " is not a list of two members",
                        EntryFault::BadId => " has no identifier",
                        EntryFault::BadFields => " has fields that are no byte strings",
                        EntryFault::OddFields => " has a key without a value",
                    },
                );
                text
            },
            DecodeError::Missing => "the reply lacks what was asked for".to_owned(),
            DecodeError::Id => "the reply to an append is no identifier".to_owned(),
        }
    }
}

/// The name that a node holds: the node is a byte string, and its bytes are
/// valid UTF-8.
pub open spec fn spec_stream_name(node: Reply) -> Option<Seq<char>> {
    match node.spec_bytes() {
        Some(bytes) if valid_utf8(bytes) => Some(decode_utf8(bytes)),
        _ => None,
    }
}

/// The entries that the nodes hold, in order, or the fault of the first node
/// that holds none.
pub open spec fn spec_decode_entries(nodes: Seq<Reply>) -> Result<Seq<EntryView>, EntryFault> {
    collect(nodes.map_values(|node: Reply| spec_decode_entry(node)))
}

/// The stream that a node holds, or the first reason why it holds none.
pub open spec fn spec_decode_stream(node: Reply) -> Result<StreamView, DecodeFault> {
    match node.spec_pair() {
        None => Err(DecodeFault::Stream),
        Some((head, tail)) => match spec_stream_name(head) {
            None => Err(DecodeFault::Stream),
            Some(name) => match tail.spec_items() {
                None => Err(DecodeFault::Stream),
                Some(nodes) => match spec_decode_entries(nodes) {
                    Err(cause) => Err(DecodeFault::Entry { stream: name, cause }),
                    Ok(entries) => Ok(StreamView { name, entries }),
                },
            },
        },
    }
}

/// The streams that the reply to a read holds, in order: none where the
/// server had no data, else those of the list; or the first reason why a
/// member of the list holds no stream.
pub open spec fn spec_decode_reply(reply: Reply) -> Result<Seq<StreamView>, DecodeFault> {
    match reply {
        Reply::Nil => Ok(Seq::empty()),
        Reply::Bulk(nodes) => collect(nodes@.map_values(|node: Reply| spec_decode_stream(node))),
        _ => Err(DecodeFault::Reply),
    }
}

/// Reads the entries of a list of nodes.
fn decode_entries(nodes: &Vec<Reply>) -> (r: Result<Vec<Entry>, EntryFault>)
    ensures
        match r {
            Ok(entries) => spec_decode_entries(nodes@) == Ok::<Seq<EntryView>, EntryFault>(
                entries_view(entries@),
            ),
            Err(fault) => spec_decode_entries(nodes@) == Err::<Seq<EntryView>, EntryFault>(fault),
        },
{
    let ghost rs = nodes@.map_values(|node: Reply| spec_decode_entry(node));
    let mut out: Vec<Entry> = Vec::new();
    let mut i: usize = 0;
    assert(rs.take(0) =~= Seq::empty());
    assert(entries_view(out@) =~= Seq::empty());
    while i < nodes.len()
        invariant
            0 <= i <= nodes@.len(),
            rs == nodes@.map_values(|node: Reply| spec_decode_entry(node)),
            collect(rs.take(i as int)) == Ok::<Seq<EntryView>, EntryFault>(entries_view(out@)),
        decreases nodes@.len() - i,
    {
        proof {
            assert(rs.take(i + 1).drop_last() =~= rs.take(i as int));
            assert(rs.take(i + 1).last() == spec_decode_entry(nodes@[i as int]));
        }
        match Entry::decode(&nodes[i]) {
            Ok(entry) => {
                assert(entries_view(out@.push(entry)) =~= entries_view(out@).push(entry@));
                out.push(entry);
            },
            Err(fault) => {
                proof {
                    lemma_collect_prefix_error(rs, i + 1);
                }
                return Err(fault);
            },
        }
        i = i + 1;
    }
    assert(rs.take(i as int) =~= rs);
    Ok(out)
}

impl Stream {
    pub fn new(id: String, entries: Vec<Entry>) -> (s: Stream)
        ensures
            s@ == (StreamView { name: id@, entries: entries_view(entries@) }),
    {
        Stream { id, entries }
    }

    /// The stream's name.
    pub fn id(&self) -> (id: &str)
        ensures
            id@ == self@.name,
    {
        self.id.as_str()
    }

    /// The entries, in the order of the reply.
    pub fn entries(&self) -> (entries: &Vec<Entry>)
        ensures
            entries_view(entries@) == self@.entries,
    {
        &self.entries
    }

    /// The name and the entries, by value.
    pub fn into_parts(self) -> (parts: (String, Vec<Entry>))
        ensures
            parts.0@ == self@.name,
            entries_view(parts.1@) == self@.entries,
    {
        (self.id, self.entries)
    }

    /// Reads a stream from a node of a reply: a list of the stream's name and
    /// a list of entry nodes, which may be empty.
    pub fn decode(node: &Reply) -> (r: Result<Stream, DecodeError>)
        ensures
            match r {
                Ok(s) => spec_decode_stream(*node) == Ok::<StreamView, DecodeFault>(s@),
                Err(e) => spec_decode_stream(*node) == Err::<StreamView, DecodeFault>(e@),
            },
    {
        match node {
            Reply::Bulk(parts) => {
                if parts.len() != 2 {
                    return Err(DecodeError::Stream);
                }
                let id = match &parts[0] {
                    Reply::Data(bytes) => match string_from_utf8(copy_bytes(bytes)) {
                        Some(id) => id,
                        None => {
                            return Err(DecodeError::Stream);
                        },
                    },
                    _ => {
                        return Err(DecodeError::Stream);
                    },
                };
                match &parts[1] {
                    Reply::Bulk(nodes) => match decode_entries(nodes) {
                        Ok(entries) => Ok(Stream { id, entries }),
                        Err(cause) => Err(DecodeError::Entry { stream: id, cause }),
                    },
                    _ => Err(DecodeError::Stream),
                }
            },
            _ => Err(DecodeError::Stream),
        }
    }

    /// Writes the stream in its wire form, from which `decode` reads it back.
    pub fn encode(&self) -> (node: Reply)
        ensures
            holds_stream(node, self@),
            spec_decode_stream(node) == Ok::<StreamView, DecodeFault>(self@),
    {
        let mut nodes: Vec<Reply> = Vec::new();
        let mut i: usize = 0;
        while i < self.entries.len()
            invariant
                0 <= i <= self.entries@.len(),
                nodes@.len() == i,
                forall|j: int| 0 <= j < i ==> holds_entry(#[trigger] nodes@[j], self.entries@[j]@),
            decreases self.entries@.len() - i,
        {
            nodes.push(self.entries[i].encode());
            i = i + 1;
        }
        let head = Reply::Data(utf8_bytes(self.id.as_str()));
        let tail = Reply::Bulk(nodes);
        let mut parts: Vec<Reply> = Vec::new();
        parts.push(head);
        parts.push(tail);
        let node = Reply::Bulk(parts);
        proof {
            assert(node.spec_pair() == Some((head, tail)));
            assert(holds_stream(node, self@));
            lemma_appends_are_read_in_order(node, self@);
        }
        node
    }
}

/// Reads the reply to a read request: the streams that had new entries, in
/// the order of the reply, and none where the server had no data.
#[verifier::loop_isolation(false)]
pub fn decode_reply(reply: &Reply) -> (r: Result<Vec<Stream>, DecodeError>)
    ensures
        match r {
            Ok(streams) => spec_decode_reply(*reply) == Ok::<Seq<StreamView>, DecodeFault>(
                streams_view(streams@),
            ),
            Err(e) => spec_decode_reply(*reply) == Err::<Seq<StreamView>, DecodeFault>(e@),
        },
{
    match reply {
        Reply::Nil => {
            let out: Vec<Stream> = Vec::new();
            assert(streams_view(out@) =~= Seq::empty());
            Ok(out)
        },
        Reply::Bulk(nodes) => {
            let ghost rs = nodes@.map_values(|node: Reply| spec_decode_stream(node));
            let mut out: Vec<Stream> = Vec::new();
            let mut i: usize = 0;
            assert(rs.take(0) =~= Seq::empty());
            assert(streams_view(out@) =~= Seq::empty());
            while i < nodes.len()
                invariant
                    0 <= i <= nodes@.len(),
                    rs == nodes@.map_values(|node: Reply| spec_decode_stream(node)),
                    collect(rs.take(i as int)) == Ok::<Seq<StreamView>, DecodeFault>(
                        streams_view(out@),
                    ),
                decreases nodes@.len() - i,
            {
                proof {
                    assert(rs.take(i + 1).drop_last() =~= rs.take(i as int));
                    assert(rs.take(i + 1).last() == spec_decode_stream(nodes@[i as int]));
                }
                match Stream::decode(&nodes[i]) {
                    Ok(stream) => {
                        assert(streams_view(out@.push(stream)) =~= streams_view(out@).push(
                            stream@,
                        ));
                        out.push(stream);
                    },
                    Err(e) => {
                        proof {
                            lemma_collect_prefix_error(rs, i + 1);
                        }
                        return Err(e);
                    },
                }
                i = i + 1;
            }
            assert(rs.take(i as int) =~= rs);
            Ok(out)
        },
        _ => Err(DecodeError::Reply),
    }
}

/// Writes streams as the reply that `decode_reply` reads them from.
pub fn encode_reply(streams: &Vec<Stream>) -> (reply: Reply)
    ensures
        spec_decode_reply(reply) == Ok::<Seq<StreamView>, DecodeFault>(streams_view(streams@)),
{
    let mut nodes: Vec<Reply> = Vec::new();
    let mut i: usize = 0;
    while i < streams.len()
        invariant
            0 <= i <= streams@.len(),
            nodes@.len() == i,
            forall|j: int|
                0 <= j < i ==> spec_decode_stream(#[trigger] nodes@[j]) == Ok::<
                    StreamView,
                    DecodeFault,
                >(streams@[j]@),
        decreases streams@.len() - i,
    {
        nodes.push(streams[i].encode());
        i = i + 1;
    }
    proof {
        lemma_collect_all_ok(
            nodes@.map_values(|node: Reply| spec_decode_stream(node)),
            streams_view(streams@),
        );
    }
    Reply::Bulk(nodes)
}

/// `node` is the wire form of `stream`: a list of the stream's name in UTF-8
/// and of the wire forms of its entries, in order.
pub open spec fn holds_stream(node: Reply, stream: StreamView) -> bool {
    match node.spec_pair() {
        Some((head, tail)) => {
            &&& head.spec_bytes() == Some(encode_utf8(stream.name))
            &&& match tail.spec_items() {
                Some(nodes) => nodes.len() == stream.entries.len() && forall|i: int|
                    0 <= i < nodes.len() ==> holds_entry(#[trigger] nodes[i], stream.entries[i]),
                None => false,
            }
        },
        None => false,
    }
}

/// What is appended to a stream in some order is read from a reply in that
/// order: a reply that holds the entries of a stream in the order in which
/// they were appended is decoded as exactly those entries, one for one, so
/// that identifiers that grow from one append to the next grow from one
/// decoded entry to the next.
pub proof fn lemma_appends_are_read_in_order(node: Reply, stream: StreamView)
    requires
        holds_stream(node, stream),
    ensures
        spec_decode_stream(node) == Ok::<StreamView, DecodeFault>(stream),
        ids_increase(stream.entries) ==> ids_increase(spec_decode_stream(node)->Ok_0.entries),
{
    let (head, tail) = node.spec_pair().unwrap();
    let nodes = tail.spec_items().unwrap();
    vstd::utf8::encode_utf8_valid_utf8(stream.name);
    vstd::utf8::encode_utf8_decode_utf8(stream.name);
    let rs = nodes.map_values(|n: Reply| spec_decode_entry(n));
    assert forall|i: int| 0 <= i < rs.len() implies #[trigger] rs[i] == Ok::<
        EntryView,
        EntryFault,
    >(stream.entries[i]) by {
        lemma_entry_round_trip(nodes[i], stream.entries[i]);
    }
    lemma_collect_all_ok(rs, stream.entries);
}

/// Decoding keeps the order of the reply: the entries of a decoded stream
/// are those of its nodes, one for one.
pub proof fn lemma_decode_keeps_order(nodes: Seq<Reply>)
    requires
        spec_decode_entries(nodes) is Ok,
    ensures
        spec_decode_entries(nodes)->Ok_0.len() == nodes.len(),
        forall|i: int|
            0 <= i < nodes.len() ==> spec_decode_entry(#[trigger] nodes[i]) == Ok::<
                EntryView,
                EntryFault,
            >(spec_decode_entries(nodes)->Ok_0[i]),
{
    let rs = nodes.map_values(|n: Reply| spec_decode_entry(n));
    lemma_collect_ok_each(rs);
    assert forall|i: int| 0 <= i < nodes.len() implies spec_decode_entry(#[trigger] nodes[i])
        == Ok::<EntryView, EntryFault>(spec_decode_entries(nodes)->Ok_0[i]) by {
        assert(rs[i] == spec_decode_entry(nodes[i]));
    }
}

} // verus!
