//! Requests to the server, built as `redis::Cmd` values.

use vstd::prelude::*;
use vstd::utf8::encode_utf8;
use crate::entry_id::{decimal, render_decimal, render_signed, signed_decimal};
use crate::reply::strings_view;
use crate::text::utf8_bytes;

verus! {

/// `redis::Cmd`, a request under construction: the command's name followed by
/// its arguments. What is inside it is not visible from here.
#[verifier::external_type_specification]
#[verifier::external_body]
pub struct ExCmd(redis::Cmd);

/// The arguments that a command holds, the command's name first, each as the
/// bytes that go on the wire. It is a name without a definition: all that is
/// known of it is what `named` and `push_arg` say, and that is taken from the
/// source of the `redis` crate, not proved.
pub uninterp spec fn cmd_args(c: redis::Cmd) -> Seq<Seq<u8>>;

/// `redis::cmd`: a fresh command whose only argument is the UTF-8 encoding of
/// `name`. Assumed of `redis`, not proved.
#[verifier::external_body]
pub(crate) fn named(name: &str) -> (c: redis::Cmd)
    ensures
        cmd_args(c) == seq![encode_utf8(name@)],
{
    redis::cmd(name)
}

/// `redis::Cmd::arg` on a byte slice: the slice is appended as one argument,
/// byte for byte, behind those already there. Assumed of `redis`, not proved.
#[verifier::external_body]
pub(crate) fn push_arg(c: &mut redis::Cmd, bytes: &[u8])
    ensures
        cmd_args(*final(c)) == cmd_args(*old(c)).push(bytes@),
{
    c.arg(bytes);
}

/// Appends each of `list` as one argument, in order.
pub(crate) fn push_args(c: &mut redis::Cmd, list: &Vec<Vec<u8>>)
    ensures
        cmd_args(*final(c)) == cmd_args(*old(c)) + strings_view(list@),
{
    let mut i: usize = 0;
    assert(strings_view(list@).take(0) =~= Seq::empty());
    assert(cmd_args(*c) + Seq::<Seq<u8>>::empty() =~= cmd_args(*c));
    while i < list.len()
        invariant
            0 <= i <= list@.len(),
            cmd_args(*c) == cmd_args(*old(c)) + strings_view(list@).take(i as int),
        decreases list@.len() - i,
    {
        assert(strings_view(list@).take(i + 1) =~= strings_view(list@).take(i as int).push(
            list@[i as int]@,
        ));
        push_arg(c, list[i].as_slice());
        assert(cmd_args(*c) =~= cmd_args(*old(c)) + strings_view(list@).take(i + 1));
        i = i + 1;
    }
    assert(strings_view(list@).take(i as int) =~= strings_view(list@));
}

/// The arguments of an append: `XADD <stream> [MAXLEN <cap>] *`, then each
/// key followed by its value.
pub open spec fn xadd_args(stream: Seq<char>, cap: Option<nat>, list: Seq<Seq<u8>>) -> Seq<
    Seq<u8>,
> {
    seq![encode_utf8("XADD"@), encode_utf8(stream)] + (match cap {
        Some(n) => seq![encode_utf8("MAXLEN"@), decimal(n)],
        None => Seq::empty(),
    }) + seq![encode_utf8("*"@)] + list
}

/// The arguments of a read: `XREAD [COUNT <count>] [BLOCK <ms>] STREAMS`,
/// then the names of the streams, then for each stream, in the same order,
/// the identifier after which its entries are wanted.
pub open spec fn xread_args(
    count: Option<int>,
    block: Option<nat>,
    names: Seq<Seq<u8>>,
    ids: Seq<Seq<u8>>,
) -> Seq<Seq<u8>> {
    seq![encode_utf8("XREAD"@)] + (match count {
        Some(n) => seq![encode_utf8("COUNT"@), signed_decimal(n)],
        None => Seq::empty(),
    }) + (match block {
        Some(ms) => seq![encode_utf8("BLOCK"@), decimal(ms)],
        None => Seq::empty(),
    }) + seq![encode_utf8("STREAMS"@)] + names + ids
}

/// An append under construction: the stream and the cap are fixed, the
/// field/value pairs are added one by one.
pub struct Xadd(redis::Cmd);

impl View for Xadd {
    type V = Seq<Seq<u8>>;

    closed spec fn view(&self) -> Seq<Seq<u8>> {
        cmd_args(self.0)
    }
}

/// Starts an append to `stream`, under an identifier of the server's
/// choosing.
pub fn xadd(stream: &str) -> (x: Xadd)
    ensures
        x@ == xadd_args(stream@, None, Seq::empty()),
{
    let mut c = named("XADD");
    push_arg(&mut c, stream.as_bytes());
    push_arg(&mut c, "*".as_bytes());
    assert(cmd_args(c) =~= xadd_args(stream@, None, Seq::empty()));
    Xadd(c)
}

/// Starts an append to `stream` that also caps the stream at `max_len`
/// entries.
pub fn xadd_maxlen(stream: &str, max_len: usize) -> (x: Xadd)
    ensures
        x@ == xadd_args(stream@, Some(max_len as nat), Seq::empty()),
{
    let mut c = named("XADD");
    push_arg(&mut c, stream.as_bytes());
    push_arg(&mut c, "MAXLEN".as_bytes());
    push_arg(&mut c, render_decimal(max_len as u64).as_slice());
    push_arg(&mut c, "*".as_bytes());
    assert(cmd_args(c) =~= xadd_args(stream@, Some(max_len as nat), Seq::empty()));
    Xadd(c)
}

impl Xadd {
    /// Adds one field/value pair behind those already there.
    pub fn entry(self, key: &[u8], val: &[u8]) -> (x: Xadd)
        ensures
            x@ == self@.push(key@).push(val@),
    {
        let mut c = self.0;
        push_arg(&mut c, key);
        push_arg(&mut c, val);
        Xadd(c)
    }

    /// The request as it stands.
    pub fn command(&self) -> (c: &redis::Cmd)
        ensures
            cmd_args(*c) == self@,
    {
        &self.0
    }

    /// The request, by value.
    pub fn into_command(self) -> (c: redis::Cmd)
        ensures
            cmd_args(c) == self@,
    {
        self.0
    }
}

/// The request for the entries of several streams: of each stream in `names`
/// those after the identifier at the same place in `ids`. With `count`, at
/// most so many entries of each stream; with `block`, the server waits up to
/// so many milliseconds for an entry, and without end where it is 0.
pub fn read_command(
    count: Option<isize>,
    block: Option<u32>,
    names: &Vec<Vec<u8>>,
    ids: &Vec<Vec<u8>>,
) -> (c: redis::Cmd)
    ensures
        cmd_args(c) == xread_args(
            match count {
                Some(n) => Some(n as int),
                None => None,
            },
            match block {
                Some(ms) => Some(ms as nat),
                None => None,
            },
            strings_view(names@),
            strings_view(ids@),
        ),
{
    let mut c = named("XREAD");
    match count {
        Some(n) => {
            push_arg(&mut c, "COUNT".as_bytes());
            push_arg(&mut c, render_signed(n).as_slice());
        },
        None => {},
    }
    match block {
        Some(ms) => {
            push_arg(&mut c, "BLOCK".as_bytes());
            push_arg(&mut c, render_decimal(ms as u64).as_slice());
        },
        None => {},
    }
    push_arg(&mut c, "STREAMS".as_bytes());
    push_args(&mut c, names);
    push_args(&mut c, ids);
    assert(cmd_args(c) =~= xread_args(
        match count {
            Some(n) => Some(n as int),
            None => None,
        },
        match block {
            Some(ms) => Some(ms as nat),
            None => None,
        },
        strings_view(names@),
        strings_view(ids@),
    ));
    c
}

/// The names of `entries`, each in UTF-8.
pub open spec fn entry_names(entries: Seq<(String, String)>) -> Seq<Seq<u8>> {
    entries.map_values(|e: (String, String)| encode_utf8(e.0@))
}

/// The identifiers of `entries`, each in UTF-8.
pub open spec fn entry_ids(entries: Seq<(String, String)>) -> Seq<Seq<u8>> {
    entries.map_values(|e: (String, String)| encode_utf8(e.1@))
}

/// The names and the identifiers of `entries`, each list in the order of
/// `entries`.
fn split_entries(entries: &[(String, String)]) -> (r: (Vec<Vec<u8>>, Vec<Vec<u8>>))
    ensures
        strings_view(r.0@) == entry_names(entries@),
        strings_view(r.1@) == entry_ids(entries@),
{
    let mut names: Vec<Vec<u8>> = Vec::new();
    let mut ids: Vec<Vec<u8>> = Vec::new();
    let mut i: usize = 0;
    while i < entries.len()
        invariant
            0 <= i <= entries@.len(),
            names@.len() == i,
            ids@.len() == i,
            forall|j: int| 0 <= j < i ==> (#[trigger] names@[j])@ == encode_utf8(entries@[j].0@),
            forall|j: int| 0 <= j < i ==> (#[trigger] ids@[j])@ == encode_utf8(entries@[j].1@),
        decreases entries@.len() - i,
    {
        names.push(utf8_bytes(entries[i].0.as_str()));
        ids.push(utf8_bytes(entries[i].1.as_str()));
        i = i + 1;
    }
    assert(strings_view(names@) =~= entry_names(entries@));
    assert(strings_view(ids@) =~= entry_ids(entries@));
    (names, ids)
}

/// `XREAD STREAMS <names> <ids>`: the entries of each stream after the
/// identifier given with it.
pub fn xread_multiple(entries: &[(String, String)]) -> (c: redis::Cmd)
    ensures
        cmd_args(c) == xread_args(None, None, entry_names(entries@), entry_ids(entries@)),
{
    let (names, ids) = split_entries(entries);
    read_command(None, None, &names, &ids)
}

/// `XREAD BLOCK <block> STREAMS <names> <ids>`: as `xread_multiple`, but the
/// server waits up to `block` milliseconds for an entry, and without end
/// where `block` is 0.
pub fn xread_block_multiple(block: u32, entries: &[(String, String)]) -> (c: redis::Cmd)
    ensures
        cmd_args(c) == xread_args(
            None,
            Some(block as nat),
            entry_names(entries@),
            entry_ids(entries@),
        ),
{
    let (names, ids) = split_entries(entries);
    read_command(None, Some(block), &names, &ids)
}

/// `XREAD COUNT <count> STREAMS <names> <ids>`: as `xread_multiple`, but at
/// most `count` entries of each stream.
pub fn xread_count_multiple(count: isize, entries: &[(String, String)]) -> (c: redis::Cmd)
    ensures
        cmd_args(c) == xread_args(
            Some(count as int),
            None,
            entry_names(entries@),
            entry_ids(entries@),
        ),
{
    let (names, ids) = split_entries(entries);
    read_command(Some(count), None, &names, &ids)
}

/// `XREAD COUNT <count> BLOCK <block> STREAMS <names> <ids>`.
pub fn xread_count_block_multiple(count: isize, block: u32, entries: &[(String, String)]) -> (c:
    redis::Cmd)
    ensures
        cmd_args(c) == xread_args(
            Some(count as int),
            Some(block as nat),
            entry_names(entries@),
            entry_ids(entries@),
        ),
{
    let (names, ids) = split_entries(entries);
    read_command(Some(count), Some(block), &names, &ids)
}

} // verus!
