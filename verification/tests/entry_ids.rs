//! Identifiers: their text, their order, and the identifier for "now".

use redis_streams::clock::{just_before, now};
use redis_streams::entry_id::{render_decimal, render_signed, EntryId};
use redis_streams::stream_server::StreamServer;

#[test]
fn an_identifier_is_written_as_two_numbers_and_a_dash() {
    assert_eq!(EntryId::new(0, 0).render(), b"0-0".to_vec());
    assert_eq!(EntryId::new(1515790156195, 0).render(), b"1515790156195-0".to_vec());
    assert_eq!(EntryId::new(10, 907).to_string(), "10-907");
    assert_eq!(
        EntryId::new(u64::MAX, u64::MAX).to_string(),
        "18446744073709551615-18446744073709551615"
    );
}

#[test]
fn an_identifier_is_read_back_from_its_text() {
    for id in [
        EntryId::zero(),
        EntryId::new(1, 0),
        EntryId::new(0, 1),
        EntryId::new(1515790156195, 12),
        EntryId::new(u64::MAX, u64::MAX),
        EntryId::new(100, 1000),
    ] {
        assert_eq!(EntryId::parse(&id.render()), Some(id));
        assert_eq!(EntryId::parse_str(&id.to_string()), Some(id));
    }
    assert_eq!(EntryId::parse(b"42-7"), Some(EntryId::new(42, 7)));
    assert_eq!(EntryId::parse_str("0-0"), Some(EntryId::zero()));
}

#[test]
fn text_that_is_no_identifier_is_refused() {
    let refused: [&[u8]; 19] = [
        b"",
        b"-",
        b"1",
        b"1-",
        b"-1",
        b"1--2",
        b"1-2-3",
        b"01-2",
        b"1-02",
        b"00-0",
        b"1-2 ",
        b" 1-2",
        b"+1-2",
        b"1-+2",
        b"a-1",
        b"1-b",
        b"$",
        b"18446744073709551616-0",
        b"0-18446744073709551616",
    ];
    for text in refused {
        assert_eq!(EntryId::parse(text), None, "{:?}", String::from_utf8_lossy(text));
    }
    assert_eq!(EntryId::parse(b"99999999999999999999999999-1"), None);
    assert_eq!(EntryId::parse(&[0x31, 0x2d, 0xff]), None);
    assert_eq!(EntryId::parse_str("１-２"), None);
}

#[test]
fn identifiers_are_ordered_by_milliseconds_then_sequence() {
    let a = EntryId::new(5, 9);
    let b = EntryId::new(6, 0);
    let c = EntryId::new(6, 1);
    assert!(a.lt(&b));
    assert!(b.lt(&c));
    assert!(a.lt(&c));
    assert!(!b.lt(&a));
    assert!(!a.lt(&a));
    assert!(a.le(&a));
    assert!(a.le(&b));
    assert!(!c.le(&b));
    assert_eq!(a.max(b), b);
    assert_eq!(c.max(b), c);
    assert_eq!(a.max(a), a);
    assert!(EntryId::new(9, 0).lt(&EntryId::new(10, 0)));
    assert!(EntryId::new(2, 100).lt(&EntryId::new(10, 0)));
}

#[test]
fn numbers_are_written_in_decimal() {
    assert_eq!(render_decimal(0), b"0".to_vec());
    assert_eq!(render_decimal(9), b"9".to_vec());
    assert_eq!(render_decimal(10), b"10".to_vec());
    assert_eq!(render_decimal(1234567890), b"1234567890".to_vec());
    assert_eq!(render_decimal(u64::MAX), b"18446744073709551615".to_vec());
    assert_eq!(render_signed(0), b"0".to_vec());
    assert_eq!(render_signed(17), b"17".to_vec());
    assert_eq!(render_signed(-1), b"-1".to_vec());
    assert_eq!(render_signed(-250), b"-250".to_vec());
    assert_eq!(render_signed(isize::MAX), isize::MAX.to_string().into_bytes());
    assert_eq!(render_signed(isize::MIN), isize::MIN.to_string().into_bytes());
}

#[test]
fn the_identifier_before_a_time_is_one_millisecond_earlier() {
    assert_eq!(just_before(1515790156, 195_000_000), Some(EntryId::new(1515790156194, 0)));
    assert_eq!(just_before(1515790156, 195_999_999), Some(EntryId::new(1515790156194, 0)));
    assert_eq!(just_before(1, 0), Some(EntryId::new(999, 0)));
    assert_eq!(just_before(0, 1_000_000), Some(EntryId::zero()));
    assert_eq!(just_before(0, 999_999_999), Some(EntryId::new(998, 0)));
    assert_eq!(just_before(0, 0), None);
    assert_eq!(just_before(0, 999_999), None);
    assert_eq!(just_before(u64::MAX / 1000, 615_000_000), Some(EntryId::new(u64::MAX - 1, 0)));
    assert_eq!(just_before(u64::MAX / 1000, 616_000_000), None);
    assert_eq!(just_before(u64::MAX / 1000 + 1, 0), None);
    assert_eq!(just_before(u64::MAX, 0), None);
}

#[test]
fn now_is_an_identifier_of_this_century_with_sequence_zero() {
    let id = now().unwrap();
    assert_eq!(id.seq, 0);
    assert!(EntryId::new(1_500_000_000_000, 0).lt(&id));
    let again = StreamServer::new().now().unwrap();
    assert_eq!(again.seq, 0);
    assert!(id.le(&again) || again.ms + 60_000 > id.ms);
}
