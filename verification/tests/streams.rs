//! Scenarios of a producer, a consumer and a multiplexer against a stand-in
//! for the server that keeps its streams in memory.

use itertools::Itertools;
use redis_streams::command::{xadd, xread_count_multiple};
use redis_streams::decode::{decode_reply, DecodeError, Stream};
use redis_streams::entry_id::EntryId;
use redis_streams::error::Error;
use redis_streams::reply::Reply;
use redis_streams::stream::{Receiver, Sender};
use redis_streams::stream_server::StreamServer;

type Pairs = Vec<(Vec<u8>, Vec<u8>)>;

/// A server that holds its streams in memory and answers one request at a
/// time.
struct Server {
    streams: Vec<(Vec<u8>, Vec<(EntryId, Pairs)>)>,
    clock: u64,
    down: bool,
}

fn text(bytes: &[u8]) -> String {
    String::from_utf8(bytes.to_vec()).unwrap()
}

fn arguments(cmd: &redis::Cmd) -> Vec<Vec<u8>> {
    let mut out = Vec::new();
    for arg in cmd.args_iter() {
        match arg {
            redis::Arg::Simple(bytes) => out.push(bytes.to_vec()),
            _ => panic!("unexpected cursor argument"),
        }
    }
    out
}

impl Server {
    fn open(_url: &str) -> Server {
        Server { streams: Vec::new(), clock: 1_515_790_156_195, down: false }
    }

    fn entries(&mut self, name: &[u8]) -> &mut Vec<(EntryId, Pairs)> {
        if let Some(at) = self.streams.iter().position(|s| s.0 == name) {
            return &mut self.streams[at].1;
        }
        self.streams.push((name.to_vec(), Vec::new()));
        &mut self.streams.last_mut().unwrap().1
    }

    fn after(&mut self, name: &[u8], id: &[u8]) -> EntryId {
        match id {
            b"-" | b"0" => EntryId::zero(),
            b"$" => self.entries(name).last().map(|e| e.0).unwrap_or(EntryId::zero()),
            _ => EntryId::parse(id).unwrap(),
        }
    }

    fn request(&mut self, cmd: &redis::Cmd) -> Result<Reply, redis::RedisError> {
        if self.down {
            return Err(redis::RedisError::from(std::io::Error::new(
                std::io::ErrorKind::ConnectionRefused,
                "server is down",
            )));
        }
        let args = arguments(cmd);
        match text(&args[0]).as_str() {
            "DEL" => {
                let before = self.streams.len();
                self.streams.retain(|s| !args[1..].contains(&s.0));
                Ok(Reply::Int((before - self.streams.len()) as i64))
            }
            "XLEN" => Ok(Reply::Int(self.entries(&args[1]).len() as i64)),
            "XADD" => {
                let mut at = 2;
                let mut cap = None;
                if args[at] == b"MAXLEN" {
                    cap = Some(text(&args[at + 1]).parse::<usize>().unwrap());
                    at += 2;
                }
                assert_eq!(args[at], b"*");
                let pairs: Pairs = args[at + 1..].iter().cloned().tuples().collect();
                assert_eq!(pairs.len() * 2, args.len() - at - 1);
                self.clock += 1;
                let id = EntryId::new(self.clock, 0);
                let entries = self.entries(&args[1]);
                entries.push((id, pairs));
                if let Some(cap) = cap {
                    while entries.len() > cap {
                        entries.remove(0);
                    }
                }
                Ok(Reply::Data(id.render()))
            }
            "XREAD" => {
                let mut at = 1;
                let mut count = usize::MAX;
                if args[at] == b"COUNT" {
                    count = text(&args[at + 1]).parse::<usize>().unwrap();
                    at += 2;
                }
                if args[at] == b"BLOCK" {
                    text(&args[at + 1]).parse::<u64>().unwrap();
                    at += 2;
                }
                assert_eq!(args[at], b"STREAMS");
                let rest = &args[at + 1..];
                assert_eq!(rest.len() % 2, 0);
                let (names, ids) = rest.split_at(rest.len() / 2);
                let mut streams = Vec::new();
                for (name, id) in names.iter().zip(ids) {
                    let after = self.after(name, id);
                    let nodes: Vec<Reply> = self
                        .entries(name)
                        .iter()
                        .filter(|e| after.lt(&e.0))
                        .take(count)
                        .map(|e| entry_node(&e.0.render(), &e.1))
                        .collect();
                    if !nodes.is_empty() {
                        streams.push(Reply::Bulk(vec![Reply::Data(name.clone()), Reply::Bulk(nodes)]));
                    }
                }
                if streams.is_empty() {
                    Ok(Reply::Nil)
                } else {
                    Ok(Reply::Bulk(streams))
                }
            }
            other => panic!("unexpected command {}", other),
        }
    }
}

fn entry_node(id: &[u8], pairs: &Pairs) -> Reply {
    let mut list = Vec::new();
    for (k, v) in pairs {
        list.push(Reply::Data(k.clone()));
        list.push(Reply::Data(v.clone()));
    }
    Reply::Bulk(vec![Reply::Data(id.to_vec()), Reply::Bulk(list)])
}

fn del(stream_id: &str) -> redis::Cmd {
    let mut cmd = redis::cmd("DEL");
    cmd.arg(stream_id);
    cmd
}

/// Everything that a traversal hands out, as plain values.
fn drain(
    mut streams: redis_streams::stream_server::StreamIterator,
) -> Vec<(String, Vec<(EntryId, Pairs)>)> {
    let mut out = Vec::new();
    while let Some((stream_id, mut entries)) = streams.next() {
        let mut seen = Vec::new();
        while let Some((entry_id, mut key_values)) = entries.next() {
            let mut pairs = Vec::new();
            while let Some((k, v)) = key_values.next() {
                pairs.push((k, v));
            }
            seen.push((entry_id, pairs));
        }
        out.push((stream_id, seen));
    }
    out
}

#[test]
fn stream_test_server() {
    let mut con = Server::open("redis://127.0.0.1/");
    let stream_id = "_test_def";
    con.request(&del(stream_id)).unwrap();
    {
        let sender = Sender::new(stream_id);
        let outcome = con.request(&sender.send(b"", b"abc123"));
        sender.sent(outcome).unwrap();
        let mut receiver = Receiver::new(stream_id, EntryId::zero());
        let outcome = con.request(&receiver.recv_command());
        let (k, v) = receiver.recv(outcome).unwrap();
        assert_eq!(k, b"");
        assert_eq!(v, b"abc123");
    }
    con.request(&del(stream_id)).unwrap();
}

#[test]
fn stream_server_test_server() {
    let mut con = Server::open("redis://127.0.0.1/");
    con.request(&del("_test_abc")).unwrap();
    {
        let mut s = StreamServer::new();
        let now = EntryId::new(con.clock, 0);
        println!("now: {}", now.to_string());
        s.register("_test_abc", now);
        let outcome = con.request(&s.xadd("_test_abc", b"key", b"value"));
        let v = s.xadd_reply(outcome).unwrap();
        println!("v: {}", v.to_string());

        let outcome = con.request(&s.xread_command(0));
        let first = drain(s.xread(outcome).unwrap());
        for (stream_id, entries) in first.iter() {
            println!("{}", stream_id);
            for (entry_id, key_values) in entries {
                println!("  {}", entry_id.to_string());
                for (k, v) in key_values {
                    println!("     {}: {}", String::from_utf8_lossy(k), String::from_utf8_lossy(v));
                }
            }
        }
        assert_eq!(
            first,
            vec![("_test_abc".to_string(), vec![(v, vec![(b"key".to_vec(), b"value".to_vec())])])]
        );

        println!("---");

        let outcome = con.request(&s.xadd("_test_abc", b"key", b"value2"));
        let v = s.xadd_reply(outcome).unwrap();
        println!("v: {}", v.to_string());

        let outcome = con.request(&s.xread_command(0));
        let second = drain(s.xread(outcome).unwrap());
        assert_eq!(
            second,
            vec![("_test_abc".to_string(), vec![(v, vec![(b"key".to_vec(), b"value2".to_vec())])])]
        );
    }
    con.request(&del("_test_abc")).unwrap();
}

#[test]
fn test_stream() {
    let mut con = Server::open("redis://127.0.0.1/");
    con.request(&del("mystream")).unwrap();

    let append = xadd("mystream").entry(b"abc", b"123").entry(b"def", b"456");
    let s = match con.request(append.command()).unwrap() {
        Reply::Data(id) => EntryId::parse(&id).unwrap(),
        other => panic!("unexpected reply {:?}", other),
    };

    let mut xlen = redis::cmd("XLEN");
    xlen.arg("mystream");
    assert_eq!(con.request(&xlen).unwrap(), Reply::Int(1));

    let read = xread_count_multiple(1, &[("mystream".to_string(), "-".to_string())]);
    let v: Vec<Stream> = decode_reply(&con.request(&read).unwrap()).unwrap();
    assert_eq!(v.len(), 1);

    for stream in v.iter() {
        assert_eq!(stream.id(), "mystream");
        assert_eq!(stream.entries().len(), 1);

        for entry in stream.entries() {
            assert_eq!(entry.id(), s);

            let key_values = entry.key_values();
            for (n, (k, v)) in key_values.iter().tuples().enumerate() {
                let k = text(k);
                let v = text(v);

                match n {
                    0 => {
                        assert_eq!(k, "abc");
                        assert_eq!(v, "123");
                    }
                    1 => {
                        assert_eq!(k, "def");
                        assert_eq!(v, "456");
                    }
                    _ => panic!("unexpected key value entry"),
                }
            }
            assert_eq!(key_values.len(), 4);
        }
    }

    con.request(&del("mystream")).unwrap();
}

#[test]
fn single_append_then_read_delivers_both_entries_in_order() {
    let mut con = Server::open("redis://127.0.0.1/");
    let mut s = StreamServer::new();
    assert_eq!(s.register("s", EntryId::parse_str("0-0").unwrap()), None);
    let outcome = con.request(&s.xadd("s", b"abc", b"123"));
    let first = s.xadd_reply(outcome).unwrap();
    let outcome = con.request(&s.xadd("s", b"def", b"456"));
    let second = s.xadd_reply(outcome).unwrap();
    assert!(first.lt(&second));

    let outcome = con.request(&s.xread_command(0));
    let seen = drain(s.xread(outcome).unwrap());
    assert_eq!(
        seen,
        vec![(
            "s".to_string(),
            vec![
                (first, vec![(b"abc".to_vec(), b"123".to_vec())]),
                (second, vec![(b"def".to_vec(), b"456".to_vec())]),
            ]
        )]
    );
    assert_eq!(s.cursor("s"), Some(second));
}

#[test]
fn read_without_data_is_empty_and_keeps_the_cursor() {
    let mut con = Server::open("redis://127.0.0.1/");
    let mut s = StreamServer::new();
    s.register("quiet", EntryId::new(7, 3));
    let outcome = con.request(&s.xread_command(50));
    assert_eq!(outcome, Ok(Reply::Nil));
    let mut streams = s.xread(outcome).unwrap();
    assert_eq!(streams.len(), 0);
    assert!(streams.next().is_none());
    assert_eq!(s.cursor("quiet"), Some(EntryId::new(7, 3)));
}

#[test]
fn read_of_two_streams_delivers_only_the_one_with_data() {
    let mut con = Server::open("redis://127.0.0.1/");
    let mut s = StreamServer::new();
    s.register("a", EntryId::zero());
    s.register("b", EntryId::zero());
    let outcome = con.request(&s.xadd("b", b"k", b"v"));
    let id = s.xadd_reply(outcome).unwrap();

    let outcome = con.request(&s.xread_command(0));
    let seen = drain(s.xread(outcome).unwrap());
    assert_eq!(seen, vec![("b".to_string(), vec![(id, vec![(b"k".to_vec(), b"v".to_vec())])])]);
    assert_eq!(s.cursor("a"), Some(EntryId::zero()));
    assert_eq!(s.cursor("b"), Some(id));
}

#[test]
fn sender_and_receiver_hand_over_one_pair() {
    let mut con = Server::open("redis://127.0.0.1/");
    let sender = Sender::new("handoff");
    let outcome = con.request(&sender.send(b"", b"abc123"));
    let id = match &outcome {
        Ok(Reply::Data(id)) => EntryId::parse(id).unwrap(),
        other => panic!("unexpected outcome {:?}", other),
    };
    sender.sent(outcome).unwrap();

    let mut receiver = Receiver::new("handoff", EntryId::zero());
    let outcome = con.request(&receiver.recv_command());
    assert_eq!(receiver.recv(outcome).unwrap(), (b"".to_vec(), b"abc123".to_vec()));
    assert_eq!(receiver.entry_id(), id);
}

#[test]
fn receiver_returns_the_first_pair_only() {
    let mut receiver = Receiver::new("s", EntryId::zero());
    let entry = entry_node(b"5-1", &vec![(b"a".to_vec(), b"1".to_vec()), (b"b".to_vec(), b"2".to_vec())]);
    let reply = Reply::Bulk(vec![Reply::Bulk(vec![Reply::Data(b"s".to_vec()), Reply::Bulk(vec![entry])])]);
    assert_eq!(receiver.recv(Ok(reply)).unwrap(), (b"a".to_vec(), b"1".to_vec()));
    assert_eq!(receiver.entry_id(), EntryId::new(5, 1));
}

#[test]
fn receiver_asks_for_one_entry_after_its_cursor_and_waits_without_end() {
    let receiver = Receiver::new("s", EntryId::new(12, 4));
    assert_eq!(
        receiver.recv_command().get_packed_command(),
        b"*8\r\n$5\r\nXREAD\r\n$5\r\nCOUNT\r\n$1\r\n1\r\n$5\r\nBLOCK\r\n$1\r\n0\r\n$7\r\nSTREAMS\r\n$1\r\ns\r\n$4\r\n12-4\r\n"
            .to_vec()
    );
}

#[test]
fn receiver_keeps_its_cursor_when_the_reply_lacks_an_entry() {
    let mut receiver = Receiver::new("s", EntryId::new(3, 0));
    assert!(matches!(receiver.recv(Ok(Reply::Nil)), Err(Error::Decode(DecodeError::Missing))));
    let no_entries = Reply::Bulk(vec![Reply::Bulk(vec![Reply::Data(b"s".to_vec()), Reply::Bulk(vec![])])]);
    assert!(matches!(receiver.recv(Ok(no_entries)), Err(Error::Decode(DecodeError::Missing))));
    let no_fields = Reply::Bulk(vec![Reply::Bulk(vec![
        Reply::Data(b"s".to_vec()),
        Reply::Bulk(vec![entry_node(b"9-0", &vec![])]),
    ])]);
    assert!(matches!(receiver.recv(Ok(no_fields)), Err(Error::Decode(DecodeError::Missing))));
    assert_eq!(receiver.entry_id(), EntryId::new(3, 0));
}

#[test]
fn receiver_refuses_a_reply_for_another_stream() {
    let mut receiver = Receiver::new("mine", EntryId::zero());
    let reply = Reply::Bulk(vec![Reply::Bulk(vec![
        Reply::Data(b"other".to_vec()),
        Reply::Bulk(vec![entry_node(b"1-0", &vec![(b"k".to_vec(), b"v".to_vec())])]),
    ])]);
    match receiver.recv(Ok(reply)) {
        Err(Error::UnregisteredStream(name)) => assert_eq!(name, "other"),
        other => panic!("unexpected result {:?}", other),
    }
    assert_eq!(receiver.entry_id(), EntryId::zero());
}

#[test]
fn transport_errors_are_handed_on_and_move_nothing() {
    let mut con = Server::open("redis://127.0.0.1/");
    con.down = true;
    let mut s = StreamServer::new();
    s.register("s", EntryId::new(1, 1));
    let outcome = con.request(&s.xread_command(0));
    assert!(matches!(s.xread(outcome), Err(Error::Transport(_))));
    assert_eq!(s.cursor("s"), Some(EntryId::new(1, 1)));

    let outcome = con.request(&s.xadd("s", b"k", b"v"));
    assert!(matches!(s.xadd_reply(outcome), Err(Error::Transport(_))));

    let sender = Sender::new("s");
    let outcome = con.request(&sender.send(b"k", b"v"));
    assert!(matches!(sender.sent(outcome), Err(Error::Transport(_))));

    let mut receiver = Receiver::new("s", EntryId::new(2, 2));
    let outcome = con.request(&receiver.recv_command());
    assert!(matches!(receiver.recv(outcome), Err(Error::Transport(_))));
    assert_eq!(receiver.entry_id(), EntryId::new(2, 2));
}

#[test]
fn registering_again_resets_the_cursor_for_the_next_read() {
    let mut con = Server::open("redis://127.0.0.1/");
    let mut s = StreamServer::new();
    let outcome = con.request(&s.xadd("s", b"n", b"1"));
    let first = s.xadd_reply(outcome).unwrap();
    let outcome = con.request(&s.xadd("s", b"n", b"2"));
    let second = s.xadd_reply(outcome).unwrap();

    assert_eq!(s.register("s", second), None);
    assert_eq!(s.register("s", first), Some(second));
    assert_eq!(s.cursor("s"), Some(first));
    assert_eq!(arguments(&s.xread_command(0)).last().unwrap(), &first.render());

    let outcome = con.request(&s.xread_command(0));
    let seen = drain(s.xread(outcome).unwrap());
    assert_eq!(seen, vec![("s".to_string(), vec![(second, vec![(b"n".to_vec(), b"2".to_vec())])])]);
}

#[test]
fn a_later_read_never_delivers_an_entry_again() {
    let mut con = Server::open("redis://127.0.0.1/");
    let mut s = StreamServer::new();
    s.register("s", EntryId::zero());
    let mut delivered = Vec::new();
    for round in 0..3u8 {
        for n in 0..2u8 {
            let outcome = con.request(&s.xadd("s", b"n", &[round, n]));
            s.xadd_reply(outcome).unwrap();
        }
        let outcome = con.request(&s.xread_command(0));
        for (_, entries) in drain(s.xread(outcome).unwrap()) {
            for (id, _) in entries {
                delivered.push(id);
            }
        }
        assert_eq!(s.cursor("s"), delivered.last().copied());
    }
    assert_eq!(delivered.len(), 6);
    for pair in delivered.windows(2) {
        assert!(pair[0].lt(&pair[1]));
    }
    let outcome = con.request(&s.xread_command(10));
    assert_eq!(drain(s.xread(outcome).unwrap()), vec![]);
}

#[test]
fn a_stale_reply_moves_no_cursor_back() {
    let mut s = StreamServer::new();
    s.register("s", EntryId::new(10, 0));
    let stale = Reply::Bulk(vec![Reply::Bulk(vec![
        Reply::Data(b"s".to_vec()),
        Reply::Bulk(vec![
            entry_node(b"4-0", &vec![(b"k".to_vec(), b"v".to_vec())]),
            entry_node(b"9-7", &vec![(b"k".to_vec(), b"v".to_vec())]),
        ]),
    ])]);
    assert_eq!(s.xread(Ok(stale)).unwrap().len(), 1);
    assert_eq!(s.cursor("s"), Some(EntryId::new(10, 0)));
}

#[test]
fn the_cursor_moves_to_the_latest_entry_not_the_last() {
    let mut s = StreamServer::new();
    s.register("s", EntryId::zero());
    let reply = Reply::Bulk(vec![Reply::Bulk(vec![
        Reply::Data(b"s".to_vec()),
        Reply::Bulk(vec![
            entry_node(b"8-1", &vec![(b"k".to_vec(), b"v".to_vec())]),
            entry_node(b"8-0", &vec![(b"k".to_vec(), b"v".to_vec())]),
        ]),
    ])]);
    s.xread(Ok(reply)).unwrap();
    assert_eq!(s.cursor("s"), Some(EntryId::new(8, 1)));
}

#[test]
fn an_entry_of_an_unregistered_stream_fails_the_read_and_moves_nothing() {
    let mut s = StreamServer::new();
    s.register("known", EntryId::zero());
    let reply = Reply::Bulk(vec![
        Reply::Bulk(vec![
            Reply::Data(b"known".to_vec()),
            Reply::Bulk(vec![entry_node(b"3-0", &vec![(b"k".to_vec(), b"v".to_vec())])]),
        ]),
        Reply::Bulk(vec![
            Reply::Data(b"stranger".to_vec()),
            Reply::Bulk(vec![entry_node(b"4-0", &vec![(b"k".to_vec(), b"v".to_vec())])]),
        ]),
    ]);
    match s.xread(Ok(reply)) {
        Err(Error::UnregisteredStream(name)) => assert_eq!(name, "stranger"),
        other => panic!("unexpected result {:?}", other.map(|it| it.len())),
    }
    assert_eq!(s.cursor("known"), Some(EntryId::zero()));
    assert_eq!(s.cursor("stranger"), None);
}

#[test]
fn an_unregistered_stream_without_entries_is_handed_out() {
    let mut s = StreamServer::new();
    let reply = Reply::Bulk(vec![Reply::Bulk(vec![Reply::Data(b"idle".to_vec()), Reply::Bulk(vec![])])]);
    assert_eq!(drain(s.xread(Ok(reply)).unwrap()), vec![("idle".to_string(), vec![])]);
}

#[test]
fn a_malformed_reply_fails_the_read_and_moves_nothing() {
    let mut s = StreamServer::new();
    s.register("s", EntryId::new(2, 0));
    let reply = Reply::Bulk(vec![Reply::Bulk(vec![
        Reply::Data(b"s".to_vec()),
        Reply::Bulk(vec![
            entry_node(b"3-0", &vec![(b"k".to_vec(), b"v".to_vec())]),
            Reply::Bulk(vec![Reply::Data(b"4-0".to_vec()), Reply::Bulk(vec![Reply::Data(b"k".to_vec())])]),
        ]),
    ])]);
    match s.xread(Ok(reply)) {
        Err(Error::Decode(e)) => assert_eq!(
            e,
            DecodeError::Entry {
                stream: "s".to_string(),
                cause: redis_streams::decode::EntryFault::OddFields
            }
        ),
        other => panic!("unexpected result {:?}", other.map(|it| it.len())),
    }
    assert_eq!(s.cursor("s"), Some(EntryId::new(2, 0)));
    assert!(matches!(s.xread(Ok(Reply::Okay)), Err(Error::Decode(DecodeError::Reply))));
}

#[test]
fn the_reply_to_an_append_has_to_be_an_identifier() {
    let s = StreamServer::new();
    assert_eq!(s.xadd_reply(Ok(Reply::Data(b"17-4".to_vec()))).unwrap(), EntryId::new(17, 4));
    assert!(matches!(s.xadd_reply(Ok(Reply::Okay)), Err(Error::Decode(DecodeError::Id))));
    assert!(matches!(s.xadd_reply(Ok(Reply::Data(b"17".to_vec()))), Err(Error::Decode(DecodeError::Id))));
}

#[test]
fn a_capped_append_keeps_the_stream_short() {
    let mut con = Server::open("redis://127.0.0.1/");
    let s = StreamServer::new();
    for n in 0..5u8 {
        con.request(&s.xadd_maxlen("capped", 2, b"n", &[n])).unwrap();
    }
    let mut xlen = redis::cmd("XLEN");
    xlen.arg("capped");
    assert_eq!(con.request(&xlen).unwrap(), Reply::Int(2));
}
