//! One producer and one consumer of one stream.

use vstd::prelude::*;
use vstd::utf8::encode_utf8;
use crate::command::{cmd_args, read_command, xadd, xadd_args, xread_args};
use crate::decode::{decode_reply, spec_decode_reply, DecodeError};
use crate::entry_id::EntryId;
use crate::error::Error;
use crate::reply::{strings_view, Reply};
use crate::text::utf8_bytes;

verus! {

/// The producer: appends entries of one field/value pair to one stream.
pub struct Sender {
    stream_id: String,
}

impl View for Sender {
    type V = Seq<char>;

    /// The name of the stream.
    closed spec fn view(&self) -> Seq<char> {
        self.stream_id@
    }
}

impl Sender {
    pub fn new(stream_id: &str) -> (s: Sender)
        ensures
            s@ == stream_id@,
    {
        Sender { stream_id: stream_id.to_owned() }
    }

    /// The name of the stream.
    pub fn stream_id(&self) -> (name: &str)
        ensures
            name@ == self@,
    {
        self.stream_id.as_str()
    }

    /// The request that appends the pair `k`, `v` to the stream.
    pub fn send(&self, k: &[u8], v: &[u8]) -> (c: redis::Cmd)
        ensures
            cmd_args(c) == xadd_args(self@, None, seq![k@, v@]),
    {
        let c = xadd(self.stream_id.as_str()).entry(k, v).into_command();
        assert(cmd_args(c) =~= xadd_args(self@, None, seq![k@, v@]));
        c
    }

    /// Takes the outcome of an append: whatever the server replied, the entry
    /// is in the stream; an error of the transport is handed on.
    pub fn sent(&self, outcome: Result<Reply, redis::RedisError>) -> (r: Result<(), Error>)
        ensures
            match outcome {
                Ok(_) => r is Ok,
                Err(e) => r matches Err(Error::Transport(cause)) && cause == e,
            },
    {
        match outcome {
            Ok(_) => Ok(()),
            Err(e) => Err(Error::Transport(e)),
        }
    }
}

/// The consumer: reads the entries of one stream one by one, and keeps the
/// identifier of the last one as its cursor.
pub struct Receiver {
    stream_id: String,
    entry_id: EntryId,
}

impl View for Receiver {
    type V = (Seq<char>, EntryId);

    /// The name of the stream and the cursor.
    closed spec fn view(&self) -> (Seq<char>, EntryId) {
        (self.stream_id@, self.entry_id)
    }
}

impl Receiver {
    /// A consumer of `stream_id` that reads from after `entry_id`.
    pub fn new(stream_id: &str, entry_id: EntryId) -> (r: Receiver)
        ensures
            r@ == (stream_id@, entry_id),
    {
        Receiver { stream_id: stream_id.to_owned(), entry_id }
    }

    /// The name of the stream.
    pub fn stream_id(&self) -> (name: &str)
        ensures
            name@ == self@.0,
    {
        self.stream_id.as_str()
    }

    /// The cursor: the identifier of the entry that was received last, or the
    /// identifier that the consumer was made with.
    pub fn entry_id(&self) -> (id: EntryId)
        ensures
            id == self@.1,
    {
        self.entry_id
    }

    /// The request for the one entry that follows the cursor. The server
    /// waits for it without end.
    pub fn recv_command(&self) -> (c: redis::Cmd)
        ensures
            cmd_args(c) == xread_args(
                Some(1),
                Some(0),
                seq![encode_utf8(self@.0)],
                seq![self@.1.spec_render()],
            ),
    {
        let mut names: Vec<Vec<u8>> = Vec::new();
        names.push(utf8_bytes(self.stream_id.as_str()));
        let mut ids: Vec<Vec<u8>> = Vec::new();
        ids.push(self.entry_id.render());
        let c = read_command(Some(1), Some(0), &names, &ids);
        assert(strings_view(names@) =~= seq![encode_utf8(self@.0)]);
        assert(strings_view(ids@) =~= seq![self@.1.spec_render()]);
        c
    }

    /// Takes the outcome of a receive request: decodes the reply, moves the
    /// cursor to the first entry of the first stream, and returns the first
    /// field/value pair of that entry. What else the reply holds is dropped.
    ///
    /// Where the outcome is an error of the transport, where the reply cannot
    /// be decoded, where it holds another stream first, and where it lacks a
    /// stream, an entry or a pair, the cursor stays.
    pub fn recv(&mut self, outcome: Result<Reply, redis::RedisError>) -> (r: Result<
        (Vec<u8>, Vec<u8>),
        Error,
    >)
        ensures
            final(self)@.0 == old(self)@.0,
            match outcome {
                Err(e) => r matches Err(Error::Transport(cause)) && cause == e && final(self)@
                    == old(self)@,
                Ok(reply) => match spec_decode_reply(reply) {
                    Err(fault) => r matches Err(Error::Decode(e)) && e@ == fault && final(self)@
                        == old(self)@,
                    Ok(streams) => if streams.len() == 0 {
                        r matches Err(Error::Decode(DecodeError::Missing)) && final(self)@ == old(
                            self,
                        )@
                    } else if streams[0].name != old(self)@.0 {
                        r matches Err(Error::UnregisteredStream(unknown)) && unknown@
                            == streams[0].name && final(self)@ == old(self)@
                    } else if streams[0].entries.len() == 0 || streams[0].entries[0].fields.len()
                        == 0 {
                        r matches Err(Error::Decode(DecodeError::Missing)) && final(self)@ == old(
                            self,
                        )@
                    } else {
                        r matches Ok((key, value)) && (key@, value@)
                            == streams[0].entries[0].fields[0] && final(self)@ == (
                            old(self)@.0,
                            streams[0].entries[0].id,
                        )
                    },
                },
            },
    {
        let reply = match outcome {
            Ok(reply) => reply,
            Err(e) => {
                return Err(Error::Transport(e));
            },
        };
        let mut streams = match decode_reply(&reply) {
            Ok(streams) => streams,
            Err(e) => {
                return Err(Error::Decode(e));
            },
        };
        if streams.len() == 0 {
            return Err(Error::Decode(DecodeError::Missing));
        }
        let (name, mut entries) = streams.remove(0).into_parts();
        if name != self.stream_id {
            return Err(Error::UnregisteredStream(name));
        }
        if entries.len() == 0 {
            return Err(Error::Decode(DecodeError::Missing));
        }
        let (id, mut fields) = entries.remove(0).into_parts();
        if fields.len() == 0 {
            return Err(Error::Decode(DecodeError::Missing));
        }
        let pair = fields.remove(0);
        self.entry_id = id;
        Ok(pair)
    }
}

} // verus!
