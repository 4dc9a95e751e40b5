//! A consumer that is handed entries one by one.

use redis_streams::decode::{decode_reply, Entry};
use redis_streams::entry_id::EntryId;
use redis_streams::reply::Reply;
use redis_streams::stream::{Receiver, Sender};
use redis_streams::HandleEntry;

struct Collector {
    seen: Vec<(String, EntryId, usize)>,
    limit: usize,
}

impl HandleEntry for Collector {
    type Error = String;

    fn handle_entry(&mut self, stream: &str, entry: &Entry) -> Result<(), String> {
        if self.seen.len() == self.limit {
            return Err(format!("no room for {}", entry.id().to_string()));
        }
        self.seen.push((stream.to_string(), entry.id(), entry.fields().len()));
        Ok(())
    }
}

struct Impatient;

impl HandleEntry for Impatient {
    type Error = u32;

    fn handle_entry(&mut self, _stream: &str, _entry: &Entry) -> Result<(), u32> {
        Ok(())
    }

    fn handle_timeout(&mut self, duration: u32) -> Result<(), u32> {
        Err(duration)
    }
}

fn data(text: &str) -> Reply {
    Reply::Data(text.as_bytes().to_vec())
}

#[test]
fn a_handler_is_handed_the_entries_of_a_reply() {
    let reply = Reply::Bulk(vec![
        Reply::Bulk(vec![
            data("a"),
            Reply::Bulk(vec![
                Reply::Bulk(vec![data("1-0"), Reply::Bulk(vec![data("k"), data("v")])]),
                Reply::Bulk(vec![data("2-0"), Reply::Bulk(vec![])]),
            ]),
        ]),
        Reply::Bulk(vec![
            data("b"),
            Reply::Bulk(vec![Reply::Bulk(vec![data("1-5"), Reply::Bulk(vec![data("k"), data("v")])])]),
        ]),
    ]);
    let mut handler = Collector { seen: Vec::new(), limit: 2 };
    let mut results = Vec::new();
    for stream in decode_reply(&reply).unwrap().iter() {
        for entry in stream.entries() {
            results.push(handler.handle_entry(stream.id(), entry));
        }
    }
    assert_eq!(results, vec![Ok(()), Ok(()), Err("no room for 1-5".to_string())]);
    assert_eq!(
        handler.seen,
        vec![("a".to_string(), EntryId::new(1, 0), 1), ("a".to_string(), EntryId::new(2, 0), 0)]
    );
}

#[test]
fn a_timeout_is_no_error_unless_the_handler_says_so() {
    let mut handler = Collector { seen: Vec::new(), limit: 0 };
    assert_eq!(handler.handle_timeout(250), Ok(()));
    assert_eq!(handler.handle_timeout(0), Ok(()));
    assert!(handler.seen.is_empty());
    assert_eq!(Impatient.handle_timeout(250), Err(250));
}

#[test]
fn a_producer_and_a_consumer_know_their_stream() {
    assert_eq!(Sender::new("_test_def").stream_id(), "_test_def");
    let receiver = Receiver::new("_test_def", EntryId::new(4, 2));
    assert_eq!(receiver.stream_id(), "_test_def");
    assert_eq!(receiver.entry_id(), EntryId::new(4, 2));
}
