//! The multiplexer: one consumer that reads several streams at once and
//! keeps a cursor for each.

use vstd::prelude::*;
use vstd::utf8::encode_utf8;
use crate::clock::{now, spec_just_before};
use crate::command::{cmd_args, read_command, xadd, xadd_args, xadd_maxlen, xread_args};
use crate::cursor::{
    cursor_of, distinct, lemma_advance_all_shape, lemma_same_names, max_id, registered,
    spec_advance_all, spec_register, CursorTable, Cursors,
};
use crate::decode::{
    collect, decode_id, decode_reply, entries_view, lemma_collect_ok_each,
    lemma_collect_prefix_error, pairs_view, spec_decode_reply, spec_entry_id, streams_view,
    DecodeError, Entry, EntryView, Stream, StreamView,
};
use crate::entry_id::EntryId;
use crate::error::Error;
use crate::reply::{strings_view, Reply};
use crate::text::utf8_bytes;

verus! {

/// The names of a cursor table, each in UTF-8, in the order of registration.
pub open spec fn cursor_names(t: Cursors) -> Seq<Seq<u8>> {
    t.map_values(|c: (Seq<char>, EntryId)| encode_utf8(c.0))
}

/// The cursors of a cursor table, each as the text of its identifier, in the
/// order of registration.
pub open spec fn cursor_ids(t: Cursors) -> Seq<Seq<u8>> {
    t.map_values(|c: (Seq<char>, EntryId)| c.1.spec_render())
}

/// Whether a stream of a reply may move a cursor of `t`: a stream with an
/// entry has to be registered.
pub open spec fn spec_asked(t: Cursors, stream: StreamView) -> Result<(), Seq<char>> {
    if stream.entries.len() > 0 && !registered(t, stream.name) {
        Err(stream.name)
    } else {
        Ok(())
    }
}

/// The first stream of a reply that holds an entry and is not registered in
/// `t`.
pub open spec fn first_unregistered(t: Cursors, streams: Seq<StreamView>) -> Option<Seq<char>> {
    match collect(streams.map_values(|s: StreamView| spec_asked(t, s))) {
        Err(name) => Some(name),
        Ok(_) => None,
    }
}

/// The latest identifier among `entries`.
pub fn latest(entries: &Vec<Entry>) -> (r: Option<EntryId>)
    ensures
        r == max_id(entries_view(entries@)),
{
    let mut r: Option<EntryId> = None;
    let mut i: usize = 0;
    let ghost views = entries_view(entries@);
    assert(views.take(0) =~= Seq::empty());
    while i < entries.len()
        invariant
            0 <= i <= entries@.len(),
            views == entries_view(entries@),
            r == max_id(views.take(i as int)),
        decreases entries@.len() - i,
    {
        assert(views.take(i + 1).drop_last() =~= views.take(i as int));
        let id = entries[i].id();
        r = match r {
            None => Some(id),
            Some(m) => Some(m.max(id)),
        };
        i = i + 1;
    }
    assert(views.take(i as int) =~= views);
    r
}

/// One consumer of several streams.
pub struct StreamServer {
    streams: CursorTable,
}

impl View for StreamServer {
    type V = Cursors;

    closed spec fn view(&self) -> Cursors {
        self.streams@
    }
}

impl StreamServer {
    /// A consumer without registered streams.
    pub fn new() -> (s: StreamServer)
        ensures
            s@ == Seq::<(Seq<char>, EntryId)>::empty(),
    {
        StreamServer { streams: CursorTable::new() }
    }

    /// Registers `stream_id` to be read from after `entry_id`. A stream that
    /// is registered already is read from after `entry_id` from now on.
    /// Returns the cursor that the stream had before.
    pub fn register(&mut self, stream_id: &str, entry_id: EntryId) -> (previous: Option<EntryId>)
        ensures
            previous == cursor_of(old(self)@, stream_id@),
            final(self)@ == spec_register(old(self)@, stream_id@, entry_id),
            distinct(final(self)@),
    {
        self.streams.register(stream_id, entry_id)
    }

    /// The cursor of `stream_id`, if it is registered.
    pub fn cursor(&self, stream_id: &str) -> (r: Option<EntryId>)
        ensures
            r == cursor_of(self@, stream_id@),
    {
        self.streams.cursor(stream_id)
    }

    /// The request that appends one field/value pair to `stream_id`.
    pub fn xadd(&self, stream_id: &str, key: &[u8], value: &[u8]) -> (c: redis::Cmd)
        ensures
            cmd_args(c) == xadd_args(stream_id@, None, seq![key@, value@]),
    {
        let c = xadd(stream_id).entry(key, value).into_command();
        assert(cmd_args(c) =~= xadd_args(stream_id@, None, seq![key@, value@]));
        c
    }

    /// The request that appends one field/value pair to `stream_id` and caps
    /// the stream at `max_len` entries.
    pub fn xadd_maxlen(&self, stream_id: &str, max_len: usize, key: &[u8], value: &[u8]) -> (c:
        redis::Cmd)
        ensures
            cmd_args(c) == xadd_args(stream_id@, Some(max_len as nat), seq![key@, value@]),
    {
        let c = xadd_maxlen(stream_id, max_len).entry(key, value).into_command();
        assert(cmd_args(c) =~= xadd_args(stream_id@, Some(max_len as nat), seq![key@, value@]));
        c
    }

    /// Takes the outcome of an append: the identifier that the server gave
    /// the new entry.
    pub fn xadd_reply(&self, outcome: Result<Reply, redis::RedisError>) -> (r: Result<
        EntryId,
        Error,
    >)
        ensures
            match outcome {
                Err(e) => r matches Err(Error::Transport(cause)) && cause == e,
                Ok(reply) => match spec_entry_id(reply) {
                    Some(id) => r matches Ok(given) && given == id,
                    None => r matches Err(Error::Decode(DecodeError::Id)),
                },
            },
    {
        match outcome {
            Err(e) => Err(Error::Transport(e)),
            Ok(reply) => match decode_id(&reply) {
                Some(id) => Ok(id),
                None => Err(Error::Decode(DecodeError::Id)),
            },
        }
    }

    /// The identifier that stands just before every entry that is appended
    /// from now on, by the wall clock: a stream registered at it is read from
    /// now on. See `clock::now`.
    pub fn now(&self) -> (r: Option<EntryId>)
        ensures
            r is None || exists|secs: u64, nanos: u32|
                nanos < 1_000_000_000 && r == #[trigger] spec_just_before(secs, nanos),
    {
        now()
    }

    /// The request for the next entries of all registered streams: of each
    /// stream those after its cursor. The server waits up to `block_ms`
    /// milliseconds for an entry, and without end where `block_ms` is 0.
    pub fn xread_command(&self, block_ms: u32) -> (c: redis::Cmd)
        ensures
            cmd_args(c) == xread_args(
                None,
                Some(block_ms as nat),
                cursor_names(self@),
                cursor_ids(self@),
            ),
    {
        let pairs = self.streams.snapshot();
        let mut names: Vec<Vec<u8>> = Vec::new();
        let mut ids: Vec<Vec<u8>> = Vec::new();
        let mut i: usize = 0;
        while i < pairs.len()
            invariant
                0 <= i <= pairs@.len(),
                names@.len() == i,
                ids@.len() == i,
                forall|j: int| 0 <= j < i ==> (#[trigger] names@[j])@ == encode_utf8(pairs@[j].0@),
                forall|j: int| 0 <= j < i ==> (#[trigger] ids@[j])@ == pairs@[j].1.spec_render(),
            decreases pairs@.len() - i,
        {
            names.push(utf8_bytes(pairs[i].0.as_str()));
            ids.push(pairs[i].1.render());
            i = i + 1;
        }
        proof {
            let t = pairs@.map_values(|c: (String, EntryId)| (c.0@, c.1));
            assert(strings_view(names@) =~= cursor_names(t));
            assert(strings_view(ids@) =~= cursor_ids(t));
        }
        read_command(None, Some(block_ms), &names, &ids)
    }

    /// Takes the outcome of a read request: decodes the reply, moves the
    /// cursor of each stream to the latest entry that the reply holds of it,
    /// and hands out the streams of the reply in order.
    ///
    /// A reply without data, as it comes when the server has waited in vain,
    /// gives a traversal without streams. Where the outcome is an error of
    /// the transport, where the reply cannot be decoded, or where it holds an
    /// entry of a stream that is not registered, no cursor moves.
    #[verifier::loop_isolation(false)]
    pub fn xread(&mut self, outcome: Result<Reply, redis::RedisError>) -> (r: Result<
        StreamIterator,
        Error,
    >)
        ensures
            distinct(final(self)@),
            match outcome {
                Err(e) => r matches Err(Error::Transport(cause)) && cause == e && final(self)@
                    == old(self)@,
                Ok(reply) => match spec_decode_reply(reply) {
                    Err(fault) => r matches Err(Error::Decode(e)) && e@ == fault && final(self)@
                        == old(self)@,
                    Ok(streams) => match first_unregistered(old(self)@, streams) {
                        Some(name) => r matches Err(Error::UnregisteredStream(unknown))
                            && unknown@ == name && final(self)@ == old(self)@,
                        None => r matches Ok(it) && it@ == streams && final(self)@
                            == spec_advance_all(old(self)@, streams),
                    },
                },
            },
    {
        let ghost before = self@;
        proof {
            use_type_invariant(&self.streams);
        }
        let reply = match outcome {
            Ok(reply) => reply,
            Err(e) => {
                return Err(Error::Transport(e));
            },
        };
        let streams = match decode_reply(&reply) {
            Ok(streams) => streams,
            Err(e) => {
                return Err(Error::Decode(e));
            },
        };
        let ghost views = streams_view(streams@);
        let ghost asked = views.map_values(|s: StreamView| spec_asked(before, s));
        let mut i: usize = 0;
        assert(asked.take(0) =~= Seq::empty());
        while i < streams.len()
            invariant
                0 <= i <= streams@.len(),
                self@ == before,
                views == streams_view(streams@),
                asked == views.map_values(|s: StreamView| spec_asked(before, s)),
                collect(asked.take(i as int)) is Ok,
            decreases streams@.len() - i,
        {
            proof {
                assert(asked.take(i + 1).drop_last() =~= asked.take(i as int));
                assert(asked.take(i + 1).last() == spec_asked(before, streams@[i as int]@));
            }
            if streams[i].entries().len() > 0 && self.streams.cursor(streams[i].id()).is_none() {
                proof {
                    lemma_collect_prefix_error(asked, i + 1);
                }
                return Err(Error::UnregisteredStream(streams[i].id().to_owned()));
            }
            i = i + 1;
        }
        proof {
            assert(asked.take(i as int) =~= asked);
            lemma_collect_ok_each(asked);
            assert forall|j: int| 0 <= j < views.len() implies spec_asked(
                before,
                #[trigger] views[j],
            ) is Ok by {
                assert(asked[j] == spec_asked(before, views[j]));
            }
        }
        let mut i: usize = 0;
        assert(views.take(0) =~= Seq::empty());
        while i < streams.len()
            invariant
                0 <= i <= streams@.len(),
                distinct(before),
                views == streams_view(streams@),
                forall|j: int|
                    0 <= j < views.len() ==> spec_asked(before, #[trigger] views[j]) is Ok,
                self@ == spec_advance_all(before, views.take(i as int)),
            decreases streams@.len() - i,
        {
            proof {
                assert(views.take(i + 1).drop_last() =~= views.take(i as int));
                assert(views.take(i + 1).last() == streams@[i as int]@);
                lemma_advance_all_shape(before, views.take(i as int));
                lemma_same_names(before, self@, views[i as int].name);
                assert(spec_asked(before, views[i as int]) is Ok);
            }
            match latest(streams[i].entries()) {
                Some(id) => {
                    match self.streams.advance(streams[i].id(), id) {
                        Ok(()) => {},
                        Err(e) => {
                            assert(false);
                            return Err(e);
                        },
                    }
                },
                None => {},
            }
            i = i + 1;
        }
        proof {
            assert(views.take(i as int) =~= views);
            lemma_advance_all_shape(before, views);
        }
        Ok(StreamIterator { inner: streams })
    }
}

/// The streams of one reply, handed out one by one, each once.
pub struct StreamIterator {
    inner: Vec<Stream>,
}

impl View for StreamIterator {
    type V = Seq<StreamView>;

    closed spec fn view(&self) -> Seq<StreamView> {
        streams_view(self.inner@)
    }
}

impl StreamIterator {
    /// How many streams are left.
    pub fn len(&self) -> (n: usize)
        ensures
            n == self@.len(),
    {
        self.inner.len()
    }

    /// The next stream of the reply: its name and its entries.
    pub fn next(&mut self) -> (r: Option<(String, EntryIterator)>)
        ensures
            match r {
                Some((name, entries)) => old(self)@.len() > 0 && name@ == old(self)@[0].name
                    && entries@ == old(self)@[0].entries && final(self)@ == old(self)@.skip(1),
                None => old(self)@.len() == 0 && final(self)@ == old(self)@,
            },
    {
        if self.inner.len() == 0 {
            return None;
        }
        let stream = self.inner.remove(0);
        assert(self@ =~= old(self)@.skip(1));
        let (name, entries) = stream.into_parts();
        Some((name, EntryIterator { inner: entries }))
    }
}

/// The entries that one reply holds of one stream, handed out one by one,
/// each once.
pub struct EntryIterator {
    inner: Vec<Entry>,
}

impl View for EntryIterator {
    type V = Seq<EntryView>;

    closed spec fn view(&self) -> Seq<EntryView> {
        entries_view(self.inner@)
    }
}

impl EntryIterator {
    /// How many entries are left.
    pub fn len(&self) -> (n: usize)
        ensures
            n == self@.len(),
    {
        self.inner.len()
    }

    /// The next entry: its identifier and its field/value pairs.
    pub fn next(&mut self) -> (r: Option<(EntryId, KeyValueIterator)>)
        ensures
            match r {
                Some((id, fields)) => old(self)@.len() > 0 && id == old(self)@[0].id && fields@
                    == old(self)@[0].fields && final(self)@ == old(self)@.skip(1),
                None => old(self)@.len() == 0 && final(self)@ == old(self)@,
            },
    {
        if self.inner.len() == 0 {
            return None;
        }
        let entry = self.inner.remove(0);
        assert(self@ =~= old(self)@.skip(1));
        let (id, fields) = entry.into_parts();
        Some((id, KeyValueIterator { inner: fields }))
    }
}

/// The field/value pairs of one entry, handed out one by one, each once.
pub struct KeyValueIterator {
    inner: Vec<(Vec<u8>, Vec<u8>)>,
}

impl View for KeyValueIterator {
    type V = Seq<(Seq<u8>, Seq<u8>)>;

    closed spec fn view(&self) -> Seq<(Seq<u8>, Seq<u8>)> {
        pairs_view(self.inner@)
    }
}

impl KeyValueIterator {
    /// How many pairs are left.
    pub fn len(&self) -> (n: usize)
        ensures
            n == self@.len(),
    {
        self.inner.len()
    }

    /// The next pair: a key and its value.
    pub fn next(&mut self) -> (r: Option<(Vec<u8>, Vec<u8>)>)
        ensures
            match r {
                Some((key, value)) => old(self)@.len() > 0 && (key@, value@) == old(self)@[0]
                    && final(self)@ == old(self)@.skip(1),
                None => old(self)@.len() == 0 && final(self)@ == old(self)@,
            },
    {
        if self.inner.len() == 0 {
            return None;
        }
        let pair = self.inner.remove(0);
        assert(self@ =~= old(self)@.skip(1));
        Some(pair)
    }
}

} // verus!
