//! What holds of a consumer's cursors over several operations.

use vstd::prelude::*;
use vstd::utf8::encode_utf8;
use crate::cursor::{
    cursor_of, distinct, lemma_advance_all_shape, lemma_advance_shape, lemma_position, max_id,
    position, registered, spec_advance_all, spec_register, Cursors,
};
use crate::decode::{EntryView, StreamView};
use crate::entry_id::{lemma_render_injective, EntryId};
use crate::stream_server::{cursor_ids, cursor_names};

verus! {

/// After a registration the stream stands in the table once, with the cursor
/// it was registered at.
pub proof fn lemma_register_shape(t: Cursors, name: Seq<char>, id: EntryId)
    requires
        distinct(t),
    ensures
        ({
            let u = spec_register(t, name, id);
            &&& distinct(u)
            &&& registered(u, name)
            &&& 0 <= position(u, name) < u.len()
            &&& u[position(u, name)] == (name, id)
            &&& cursor_of(u, name) == Some(id)
        }),
{
    let u = spec_register(t, name, id);
    if registered(t, name) {
        let p = position(t, name);
        lemma_position(t, p);
        assert forall|i: int, j: int| 0 <= i < j < u.len() implies (#[trigger] u[i]).0 != (
        #[trigger] u[j]).0 by {
            assert(u[i].0 == t[i].0);
            assert(u[j].0 == t[j].0);
        }
        assert(u[p].0 == name);
        lemma_position(u, p);
    } else {
        let p = t.len() as int;
        assert forall|i: int, j: int| 0 <= i < j < u.len() implies (#[trigger] u[i]).0 != (
        #[trigger] u[j]).0 by {
            assert(u[i] == t[i]);
            if j < t.len() {
                assert(u[j] == t[j]);
            }
        }
        assert(u[p].0 == name);
        lemma_position(u, p);
    }
}

/// Registration is idempotent but for the cursor: a stream that is
/// registered twice stands in the table once, with the cursor of the second
/// registration, as if the first had not been; and the next read request
/// names the stream once and asks for its entries after that cursor, not
/// after the first.
pub proof fn lemma_register_twice(t: Cursors, name: Seq<char>, first: EntryId, second: EntryId)
    requires
        distinct(t),
    ensures
        spec_register(spec_register(t, name, first), name, second) == spec_register(
            t,
            name,
            second,
        ),
        ({
            let twice = spec_register(spec_register(t, name, first), name, second);
            let p = position(twice, name);
            &&& distinct(twice)
            &&& cursor_of(twice, name) == Some(second)
            &&& 0 <= p < twice.len()
            &&& cursor_names(twice)[p] == encode_utf8(name)
            &&& cursor_ids(twice)[p] == second.spec_render()
            &&& first != second ==> cursor_ids(twice)[p] != first.spec_render()
            &&& forall|q: int|
                0 <= q < twice.len() && q != p ==> #[trigger] cursor_names(twice)[q] != encode_utf8(
                    name,
                )
        }),
{
    let once = spec_register(t, name, first);
    let twice = spec_register(once, name, second);
    lemma_register_shape(t, name, first);
    lemma_register_shape(once, name, second);
    lemma_register_shape(t, name, second);
    if registered(t, name) {
        let p = position(t, name);
        lemma_position(t, p);
        assert(once[p].0 == name);
        lemma_position(once, p);
        assert(twice =~= spec_register(t, name, second));
    } else {
        let p = t.len() as int;
        assert(once[p].0 == name);
        lemma_position(once, p);
        assert(twice =~= spec_register(t, name, second));
    }
    let p = position(twice, name);
    if first != second && cursor_ids(twice)[p] == first.spec_render() {
        lemma_render_injective(first, second);
    }
    assert forall|q: int| 0 <= q < twice.len() && q != p implies #[trigger] cursor_names(
        twice,
    )[q] != encode_utf8(name) by {
        if q < p {
            assert(twice[q].0 != twice[p].0);
        } else {
            assert(twice[p].0 != twice[q].0);
        }
        vstd::utf8::encode_utf8_decode_utf8(twice[q].0);
        vstd::utf8::encode_utf8_decode_utf8(name);
    }
}

/// The latest identifier among entries is not before any of them.
pub proof fn lemma_max_id_bounds(entries: Seq<EntryView>, j: int)
    requires
        0 <= j < entries.len(),
    ensures
        max_id(entries) is Some,
        entries[j].id.spec_le(max_id(entries).unwrap()),
    decreases entries.len(),
{
    if entries.len() > 1 {
        if j < entries.len() - 1 {
            lemma_max_id_bounds(entries.drop_last(), j);
        } else {
            lemma_max_id_bounds(entries.drop_last(), 0);
        }
    } else {
        assert(entries.drop_last() =~= Seq::<EntryView>::empty());
    }
}

/// The latest identifier among entries is the identifier of one of them.
pub proof fn lemma_max_id_reached(entries: Seq<EntryView>) -> (j: int)
    requires
        entries.len() > 0,
    ensures
        0 <= j < entries.len(),
        max_id(entries) == Some(entries[j].id),
    decreases entries.len(),
{
    if entries.len() == 1 {
        assert(entries.drop_last() =~= Seq::<EntryView>::empty());
        0
    } else {
        let j = lemma_max_id_reached(entries.drop_last());
        if entries[j].id.spec_lt(entries.last().id) {
            entries.len() - 1
        } else {
            j
        }
    }
}

/// After the streams of a reply were delivered, a cursor stands where it
/// stood, or at an entry that the reply holds of its stream.
pub proof fn lemma_cursor_is_reached(t: Cursors, streams: Seq<StreamView>, p: int)
    requires
        distinct(t),
        0 <= p < t.len(),
    ensures
        ({
            let u = spec_advance_all(t, streams);
            u[p].1 == t[p].1 || exists|i: int, j: int|
                0 <= i < streams.len() && 0 <= j < streams[i].entries.len() && streams[i].name
                    == t[p].0 && (#[trigger] streams[i].entries[j]).id == u[p].1
        }),
    decreases streams.len(),
{
    if streams.len() > 0 {
        let rest = streams.drop_last();
        let last = streams.last();
        let mid = spec_advance_all(t, rest);
        let u = spec_advance_all(t, streams);
        lemma_cursor_is_reached(t, rest, p);
        lemma_advance_all_shape(t, rest);
        if u[p].1 != mid[p].1 {
            let m = max_id(last.entries).unwrap();
            lemma_advance_shape(mid, last.name, m);
            let j = lemma_max_id_reached(last.entries);
            let i = streams.len() - 1;
            assert(streams[i].entries[j].id == u[p].1);
        } else if u[p].1 != t[p].1 {
            let (i, j) = choose|i: int, j: int|
                0 <= i < rest.len() && 0 <= j < rest[i].entries.len() && rest[i].name == t[p].0 && (
                #[trigger] rest[i].entries[j]).id == mid[p].1;
            assert(streams[i].entries[j].id == u[p].1);
        }
    }
}

/// After the streams of a reply were delivered, the cursor of a registered
/// stream is not before any entry that the reply holds of it.
pub proof fn lemma_cursor_covers(t: Cursors, streams: Seq<StreamView>, i: int, j: int)
    requires
        distinct(t),
        0 <= i < streams.len(),
        0 <= j < streams[i].entries.len(),
        registered(t, streams[i].name),
    ensures
        registered(spec_advance_all(t, streams), streams[i].name),
        streams[i].entries[j].id.spec_le(
            cursor_of(spec_advance_all(t, streams), streams[i].name).unwrap(),
        ),
    decreases streams.len(),
{
    let name = streams[i].name;
    let p = position(t, name);
    lemma_position(t, p);
    let mid = spec_advance_all(t, streams.drop_last());
    let u = spec_advance_all(t, streams);
    lemma_advance_all_shape(t, streams.drop_last());
    lemma_advance_all_shape(t, streams);
    assert(mid[p].0 == name);
    assert(u[p].0 == name);
    lemma_position(mid, p);
    lemma_position(u, p);
    match max_id(streams.last().entries) {
        Some(m) => {
            lemma_advance_shape(mid, streams.last().name, m);
        },
        None => {},
    }
    if i < streams.len() - 1 {
        lemma_cursor_covers(t, streams.drop_last(), i, j);
        assert(mid[p].1.spec_le(u[p].1));
    } else {
        lemma_max_id_bounds(streams[i].entries, j);
    }
}

/// The table after the replies of several reads were delivered one after
/// another.
pub open spec fn spec_read_all(t: Cursors, replies: Seq<Seq<StreamView>>) -> Cursors
    decreases replies.len(),
{
    if replies.len() == 0 {
        t
    } else {
        spec_advance_all(spec_read_all(t, replies.drop_last()), replies.last())
    }
}

/// However many replies are delivered, no name changes and no cursor moves
/// back.
pub proof fn lemma_read_all_shape(t: Cursors, replies: Seq<Seq<StreamView>>)
    requires
        distinct(t),
    ensures
        ({
            let u = spec_read_all(t, replies);
            &&& u.len() == t.len()
            &&& distinct(u)
            &&& forall|k: int| 0 <= k < t.len() ==> (#[trigger] u[k]).0 == t[k].0
            &&& forall|k: int| 0 <= k < t.len() ==> t[k].1.spec_le((#[trigger] u[k]).1)
        }),
    decreases replies.len(),
{
    if replies.len() > 0 {
        let mid = spec_read_all(t, replies.drop_last());
        lemma_read_all_shape(t, replies.drop_last());
        lemma_advance_all_shape(mid, replies.last());
        let u = spec_read_all(t, replies);
        assert forall|k: int| 0 <= k < t.len() implies t[k].1.spec_le((#[trigger] u[k]).1) by {
            assert(t[k].1.spec_le(mid[k].1));
            assert(mid[k].1.spec_le(u[k].1));
        }
    }
}

/// The server has answered, as far as the stream `name` goes, a request that
/// was made from the table `t`: of that stream the reply holds only entries
/// after the cursor that the request gave for it.
pub open spec fn answers(t: Cursors, streams: Seq<StreamView>, name: Seq<char>) -> bool {
    forall|k: int, l: int|
        0 <= k < streams.len() && 0 <= l < streams[k].entries.len() && streams[k].name == name
            ==> registered(t, name) && cursor_of(t, name).unwrap().spec_lt(
            (#[trigger] streams[k].entries[l]).id,
        )
}

/// Cursors are monotone. Once a read has left the cursor of a stream at `x`,
/// and as long as the stream is not registered anew, the cursor is never
/// before `x` again, however many replies are delivered after that and
/// whatever they hold: every later request asks for the entries after `x` or
/// after a later identifier.
pub proof fn lemma_cursor_never_moves_back(
    t: Cursors,
    first: Seq<StreamView>,
    between: Seq<Seq<StreamView>>,
    name: Seq<char>,
    x: EntryId,
)
    requires
        distinct(t),
        cursor_of(spec_advance_all(t, first), name) == Some(x),
    ensures
        registered(spec_read_all(spec_advance_all(t, first), between), name),
        x.spec_le(cursor_of(spec_read_all(spec_advance_all(t, first), between), name).unwrap()),
{
    let u = spec_advance_all(t, first);
    let v = spec_read_all(u, between);
    lemma_advance_all_shape(t, first);
    lemma_read_all_shape(u, between);
    let p = position(u, name);
    lemma_position(u, p);
    assert(v[p].0 == name);
    lemma_position(v, p);
    assert(u[p].1.spec_le(v[p].1));
}

/// Nothing is delivered twice. Once a read has left the cursor of a stream
/// at `x`, and as long as the stream is not registered anew, every later read
/// that the server answers by the request holds, of that stream, only entries
/// after `x`, and so only entries after every entry that the first read
/// delivered of it; however many reads lie between the two.
pub proof fn lemma_later_reads_are_later(
    t: Cursors,
    first: Seq<StreamView>,
    between: Seq<Seq<StreamView>>,
    later: Seq<StreamView>,
    name: Seq<char>,
    x: EntryId,
)
    requires
        distinct(t),
        cursor_of(spec_advance_all(t, first), name) == Some(x),
        answers(spec_read_all(spec_advance_all(t, first), between), later, name),
    ensures
        forall|k: int, l: int|
            0 <= k < later.len() && 0 <= l < later[k].entries.len() && later[k].name == name
                ==> x.spec_lt((#[trigger] later[k].entries[l]).id),
        forall|i: int, j: int, k: int, l: int|
            0 <= i < first.len() && 0 <= j < first[i].entries.len() && first[i].name == name && 0
                <= k < later.len() && 0 <= l < later[k].entries.len() && later[k].name == name
                ==> (#[trigger] first[i].entries[j]).id.spec_lt(
                (#[trigger] later[k].entries[l]).id,
            ),
{
    let u = spec_advance_all(t, first);
    let v = spec_read_all(u, between);
    lemma_cursor_never_moves_back(t, first, between, name, x);
    lemma_advance_all_shape(t, first);
    let p = position(u, name);
    lemma_position(u, p);
    assert(t[p].0 == name);
    lemma_position(t, p);
    assert forall|k: int, l: int|
        0 <= k < later.len() && 0 <= l < later[k].entries.len() && later[k].name
            == name implies x.spec_lt((#[trigger] later[k].entries[l]).id) by {
        assert(cursor_of(v, name).unwrap().spec_lt(later[k].entries[l].id));
    }
    assert forall|i: int, j: int, k: int, l: int|
        0 <= i < first.len() && 0 <= j < first[i].entries.len() && first[i].name == name && 0 <= k
            < later.len() && 0 <= l < later[k].entries.len() && later[k].name
            == name implies (#[trigger] first[i].entries[j]).id.spec_lt(
        (#[trigger] later[k].entries[l]).id,
    ) by {
        lemma_cursor_covers(t, first, i, j);
        assert(x.spec_lt(later[k].entries[l].id));
    }
}

} // verus!
