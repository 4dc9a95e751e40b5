//! Requests, as the bytes that the client puts on the wire for them.

use redis_streams::command::{
    read_command, xadd, xadd_maxlen, xread_block_multiple, xread_count_block_multiple,
    xread_count_multiple, xread_multiple,
};
use redis_streams::entry_id::EntryId;
use redis_streams::stream::Sender;
use redis_streams::stream_server::StreamServer;

fn wire(cmd: &redis::Cmd) -> String {
    String::from_utf8(cmd.get_packed_command()).unwrap()
}

fn entries(list: &[(&str, &str)]) -> Vec<(String, String)> {
    list.iter().map(|(name, id)| (name.to_string(), id.to_string())).collect()
}

#[test]
fn an_append_names_the_stream_and_lets_the_server_pick_the_identifier() {
    assert_eq!(wire(xadd("mystream").command()), "*3\r\n$4\r\nXADD\r\n$8\r\nmystream\r\n$1\r\n*\r\n");
    assert_eq!(
        wire(xadd("mystream").entry(b"abc", b"123").entry(b"def", b"456").command()),
        "*7\r\n$4\r\nXADD\r\n$8\r\nmystream\r\n$1\r\n*\r\n$3\r\nabc\r\n$3\r\n123\r\n$3\r\ndef\r\n$3\r\n456\r\n"
    );
    assert_eq!(
        xadd("s").entry(&[0, 255], b"").into_command().get_packed_command(),
        b"*5\r\n$4\r\nXADD\r\n$1\r\ns\r\n$1\r\n*\r\n$2\r\n\x00\xff\r\n$0\r\n\r\n".to_vec()
    );
}

#[test]
fn a_capped_append_gives_the_cap_before_the_identifier() {
    assert_eq!(
        wire(xadd_maxlen("mystream", 1000).entry(b"k", b"v").command()),
        "*7\r\n$4\r\nXADD\r\n$8\r\nmystream\r\n$6\r\nMAXLEN\r\n$4\r\n1000\r\n$1\r\n*\r\n$1\r\nk\r\n$1\r\nv\r\n"
    );
    assert_eq!(
        wire(xadd_maxlen("s", 0).command()),
        "*5\r\n$4\r\nXADD\r\n$1\r\ns\r\n$6\r\nMAXLEN\r\n$1\r\n0\r\n$1\r\n*\r\n"
    );
}

#[test]
fn the_multiplexer_and_the_sender_append_one_pair() {
    let s = StreamServer::new();
    assert_eq!(
        wire(&s.xadd("_test_abc", b"key", b"value")),
        "*5\r\n$4\r\nXADD\r\n$9\r\n_test_abc\r\n$1\r\n*\r\n$3\r\nkey\r\n$5\r\nvalue\r\n"
    );
    assert_eq!(
        wire(&s.xadd_maxlen("_test_abc", 10, b"key", b"value")),
        "*7\r\n$4\r\nXADD\r\n$9\r\n_test_abc\r\n$6\r\nMAXLEN\r\n$2\r\n10\r\n$1\r\n*\r\n$3\r\nkey\r\n$5\r\nvalue\r\n"
    );
    assert_eq!(
        wire(&Sender::new("_test_def").send(b"", b"abc123")),
        "*5\r\n$4\r\nXADD\r\n$9\r\n_test_def\r\n$1\r\n*\r\n$0\r\n\r\n$6\r\nabc123\r\n"
    );
    assert_eq!(
        wire(&Sender::new("größe").send(b"k", b"v")),
        "*5\r\n$4\r\nXADD\r\n$7\r\ngröße\r\n$1\r\n*\r\n$1\r\nk\r\n$1\r\nv\r\n"
    );
}

#[test]
fn a_read_lists_all_names_before_all_identifiers() {
    assert_eq!(
        wire(&xread_multiple(&entries(&[("a", "1-0"), ("b", "$"), ("c", "0")]))),
        "*8\r\n$5\r\nXREAD\r\n$7\r\nSTREAMS\r\n$1\r\na\r\n$1\r\nb\r\n$1\r\nc\r\n$3\r\n1-0\r\n$1\r\n$\r\n$1\r\n0\r\n"
    );
    assert_eq!(wire(&xread_multiple(&[])), "*2\r\n$5\r\nXREAD\r\n$7\r\nSTREAMS\r\n");
}

#[test]
fn a_read_may_block_and_may_limit_the_count() {
    let one = entries(&[("mystream", "-")]);
    assert_eq!(
        wire(&xread_block_multiple(1500, &one)),
        "*6\r\n$5\r\nXREAD\r\n$5\r\nBLOCK\r\n$4\r\n1500\r\n$7\r\nSTREAMS\r\n$8\r\nmystream\r\n$1\r\n-\r\n"
    );
    assert_eq!(
        wire(&xread_count_multiple(1, &one)),
        "*6\r\n$5\r\nXREAD\r\n$5\r\nCOUNT\r\n$1\r\n1\r\n$7\r\nSTREAMS\r\n$8\r\nmystream\r\n$1\r\n-\r\n"
    );
    assert_eq!(
        wire(&xread_count_block_multiple(25, 0, &one)),
        "*8\r\n$5\r\nXREAD\r\n$5\r\nCOUNT\r\n$2\r\n25\r\n$5\r\nBLOCK\r\n$1\r\n0\r\n$7\r\nSTREAMS\r\n$8\r\nmystream\r\n$1\r\n-\r\n"
    );
    assert_eq!(
        wire(&xread_count_multiple(-3, &one)),
        "*6\r\n$5\r\nXREAD\r\n$5\r\nCOUNT\r\n$2\r\n-3\r\n$7\r\nSTREAMS\r\n$8\r\nmystream\r\n$1\r\n-\r\n"
    );
    assert_eq!(
        wire(&read_command(Some(2), Some(u32::MAX), &vec![b"s".to_vec()], &vec![b"0-0".to_vec()])),
        "*8\r\n$5\r\nXREAD\r\n$5\r\nCOUNT\r\n$1\r\n2\r\n$5\r\nBLOCK\r\n$10\r\n4294967295\r\n$7\r\nSTREAMS\r\n$1\r\ns\r\n$3\r\n0-0\r\n"
    );
}

#[test]
fn the_multiplexer_reads_every_registered_stream_from_its_cursor() {
    let mut s = StreamServer::new();
    assert_eq!(wire(&s.xread_command(0)), "*4\r\n$5\r\nXREAD\r\n$5\r\nBLOCK\r\n$1\r\n0\r\n$7\r\nSTREAMS\r\n");
    s.register("b", EntryId::new(1515790156195, 2));
    s.register("a", EntryId::zero());
    assert_eq!(
        wire(&s.xread_command(250)),
        "*8\r\n$5\r\nXREAD\r\n$5\r\nBLOCK\r\n$3\r\n250\r\n$7\r\nSTREAMS\r\n$1\r\nb\r\n$1\r\na\r\n$15\r\n1515790156195-2\r\n$3\r\n0-0\r\n"
    );
    s.register("b", EntryId::new(7, 7));
    assert_eq!(
        wire(&s.xread_command(0)),
        "*8\r\n$5\r\nXREAD\r\n$5\r\nBLOCK\r\n$1\r\n0\r\n$7\r\nSTREAMS\r\n$1\r\nb\r\n$1\r\na\r\n$3\r\n7-7\r\n$3\r\n0-0\r\n"
    );
}
