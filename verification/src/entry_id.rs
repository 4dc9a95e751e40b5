//! Stream entry identifiers: `<milliseconds>-<sequence>`.

use vstd::prelude::*;
use vstd::utf8::encode_utf8;
use crate::text::{lemma_ascii_valid, string_from_utf8};

verus! {

/// The position of an entry within its stream.
///
/// Identifiers are ordered by their millisecond part, then by their sequence
/// part. On the wire an identifier is the decimal text of the two parts,
/// joined by a dash.
#[derive(Clone, Copy, Debug, PartialEq, Eq, Structural, Hash)]
pub struct EntryId {
    pub ms: u64,
    pub seq: u64,
}

/// The decimal text of `n`, most significant digit first, without leading
/// zeros.
pub open spec fn decimal(n: nat) -> Seq<u8>
    decreases n,
{
    if n < 10 {
        seq![(48 + n) as u8]
    } else {
        decimal(n / 10).push((48 + n % 10) as u8)
    }
}

/// `b` is one of the characters `0` to `9`.
pub open spec fn is_digit(b: u8) -> bool {
    48 <= b <= 57
}

/// Every byte of `d` is a decimal digit.
pub open spec fn all_digits(d: Seq<u8>) -> bool {
    forall|i: int| 0 <= i < d.len() ==> is_digit(#[trigger] d[i])
}

/// `d` is a decimal numeral in the one form that `decimal` produces.
pub open spec fn canonical(d: Seq<u8>) -> bool {
    &&& d.len() > 0
    &&& all_digits(d)
    &&& d.len() > 1 ==> d[0] != 48
}

/// The number that the digits of `d` denote.
pub open spec fn digits_value(d: Seq<u8>) -> nat
    decreases d.len(),
{
    if d.len() == 0 {
        0
    } else {
        digits_value(d.drop_last()) * 10 + (if d.last() >= 48 {
            (d.last() - 48) as nat
        } else {
            0
        })
    }
}

/// `decimal` yields a canonical numeral that denotes its argument.
pub proof fn lemma_decimal_canonical(n: nat)
    ensures
        canonical(decimal(n)),
        digits_value(decimal(n)) == n,
    decreases n,
{
    if n < 10 {
        let d = decimal(n);
        assert(d.drop_last() =~= Seq::<u8>::empty());
        assert(digits_value(d.drop_last()) == 0);
    } else {
        lemma_decimal_canonical(n / 10);
        let p = decimal(n / 10);
        let d = decimal(n);
        assert(d == p.push((48 + n % 10) as u8));
        assert(d.drop_last() =~= p);
        assert(d[0] == p[0]);
        if p.len() == 1 {
            assert(p.drop_last() =~= Seq::<u8>::empty());
            assert(digits_value(p.drop_last()) == 0);
            assert(p[0] != 48);
        }
        assert forall|i: int| 0 <= i < d.len() implies is_digit(#[trigger] d[i]) by {
            if i < p.len() {
                assert(d[i] == p[i]);
            }
        }
    }
}

/// A canonical numeral is the decimal text of the number it denotes.
pub proof fn lemma_canonical_decimal(d: Seq<u8>)
    requires
        canonical(d),
    ensures
        decimal(digits_value(d)) == d,
        d[0] != 48 ==> digits_value(d) > 0,
    decreases d.len(),
{
    let p = d.drop_last();
    if d.len() == 1 {
        assert(p =~= Seq::<u8>::empty());
        assert(digits_value(p) == 0);
        assert(is_digit(d[0]));
        assert(decimal(digits_value(d)) =~= d);
    } else {
        assert(p[0] == d[0]);
        assert forall|i: int| 0 <= i < p.len() implies is_digit(#[trigger] p[i]) by {
            assert(p[i] == d[i]);
        }
        lemma_canonical_decimal(p);
        assert(is_digit(d[d.len() - 1]));
        let x = (d.last() - 48) as nat;
        assert(digits_value(d) == digits_value(p) * 10 + x);
        assert(digits_value(d) / 10 == digits_value(p));
        assert(digits_value(d) % 10 == x);
        assert(decimal(digits_value(d)) =~= d);
    }
}

/// A numeral denotes at least what any of its prefixes denotes.
pub proof fn lemma_prefix_value(d: Seq<u8>, j: int)
    requires
        0 <= j <= d.len(),
    ensures
        digits_value(d.take(j)) <= digits_value(d),
    decreases d.len() - j,
{
    if j < d.len() {
        lemma_prefix_value(d.drop_last(), j);
        assert(d.drop_last().take(j) =~= d.take(j));
    } else {
        assert(d.take(j) =~= d);
    }
}

impl EntryId {
    /// `self` comes strictly before `other`.
    pub open spec fn spec_lt(self, other: EntryId) -> bool {
        self.ms < other.ms || (self.ms == other.ms && self.seq < other.seq)
    }

    /// `self` comes before `other` or equals it.
    pub open spec fn spec_le(self, other: EntryId) -> bool {
        self.spec_lt(other) || self == other
    }

    /// The later of two identifiers.
    pub open spec fn spec_max(self, other: EntryId) -> EntryId {
        if self.spec_lt(other) {
            other
        } else {
            self
        }
    }

    /// The text of an identifier: both parts in decimal, joined by a dash.
    pub open spec fn spec_render(self) -> Seq<u8> {
        decimal(self.ms as nat) + seq![45u8] + decimal(self.seq as nat)
    }

    /// The identifier that `s` is the text of, if there is one.
    pub open spec fn spec_parse(s: Seq<u8>) -> Option<EntryId> {
        if exists|id: EntryId| #[trigger] id.spec_render() == s {
            Some(choose|id: EntryId| #[trigger] id.spec_render() == s)
        } else {
            None
        }
    }

    pub fn new(ms: u64, seq: u64) -> (id: EntryId)
        ensures
            id == (EntryId { ms, seq }),
    {
        EntryId { ms, seq }
    }

    /// The identifier that precedes every entry of every stream.
    pub fn zero() -> (id: EntryId)
        ensures
            id == (EntryId { ms: 0, seq: 0 }),
    {
        EntryId { ms: 0, seq: 0 }
    }

    /// Whether `self` comes strictly before `other`.
    pub fn lt(&self, other: &EntryId) -> (b: bool)
        ensures
            b == self.spec_lt(*other),
    {
        self.ms < other.ms || (self.ms == other.ms && self.seq < other.seq)
    }

    /// Whether `self` comes before `other` or equals it.
    pub fn le(&self, other: &EntryId) -> (b: bool)
        ensures
            b == self.spec_le(*other),
    {
        self.ms < other.ms || (self.ms == other.ms && self.seq <= other.seq)
    }

    /// The later of `self` and `other`.
    pub fn max(self, other: EntryId) -> (m: EntryId)
        ensures
            m == self.spec_max(other),
    {
        if self.lt(&other) {
            other
        } else {
            self
        }
    }

    /// The text of the identifier, as it is sent to the server.
    pub fn render(&self) -> (out: Vec<u8>)
        ensures
            out@ == self.spec_render(),
    {
        let mut out: Vec<u8> = Vec::new();
        push_decimal(&mut out, self.ms);
        out.push(45u8);
        push_decimal(&mut out, self.seq);
        assert(out@ =~= self.spec_render());
        out
    }

    /// The text of the identifier, as a string.
    pub fn to_string(&self) -> (text: String)
        ensures
            encode_utf8(text@) == self.spec_render(),
    {
        let bytes = self.render();
        proof {
            lemma_render_shape(*self);
            let s = self.spec_render();
            let k = decimal(self.ms as nat).len() as int;
            assert forall|i: int| 0 <= i < s.len() implies #[trigger] s[i] < 128 by {
                if i < k {
                    assert(is_digit(s.take(k)[i]));
                } else if i > k {
                    assert(is_digit(s.skip(k + 1)[i - (k + 1)]));
                }
            }
            lemma_ascii_valid(s);
            vstd::utf8::decode_utf8_encode_utf8(s);
        }
        match string_from_utf8(bytes) {
            Some(text) => text,
            // Digits and a dash are valid UTF-8: this arm is never taken.
            None => String::new(),
        }
    }

    /// Reads an identifier from its text. Only the form that `render` writes
    /// is accepted: two decimal numbers that fit 64 bits, without sign, space
    /// or leading zeros, joined by one dash.
    pub fn parse(bytes: &[u8]) -> (r: Option<EntryId>)
        ensures
            r == EntryId::spec_parse(bytes@),
    {
        let n: usize = bytes.len();
        let ghost s = bytes@;
        let (first, k) = scan_number(bytes, 0);
        let ghost a = s.subrange(0, k as int);
        if first.is_none() || k >= n || bytes[k] != 45u8 {
            proof {
                assert forall|id: EntryId| #[trigger] id.spec_render() != s by {
                    if id.spec_render() == s {
                        lemma_render_shape(id);
                        lemma_first_break(s, decimal(id.ms as nat).len() as int, k as int);
                        assert(a =~= decimal(id.ms as nat));
                    }
                }
            }
            return None;
        }
        let (second, e) = scan_number(bytes, k + 1);
        let ghost b = s.subrange(k + 1, e as int);
        if second.is_none() || e != n {
            proof {
                assert forall|id: EntryId| #[trigger] id.spec_render() != s by {
                    if id.spec_render() == s {
                        lemma_render_shape(id);
                        lemma_first_break(s, decimal(id.ms as nat).len() as int, k as int);
                        assert(s.skip(k + 1) =~= decimal(id.seq as nat));
                        if e < n {
                            assert(s.skip(k + 1)[e - (k + 1)] == s[e as int]);
                        }
                        assert(b =~= decimal(id.seq as nat));
                    }
                }
            }
            return None;
        }
        let id = EntryId { ms: first.unwrap(), seq: second.unwrap() };
        proof {
            lemma_canonical_decimal(a);
            lemma_canonical_decimal(b);
            assert(id.spec_render() =~= s);
            let chosen = choose|other: EntryId| #[trigger] other.spec_render() == s;
            lemma_render_injective(id, chosen);
        }
        Some(id)
    }

    /// Reads an identifier from a string; see `parse`.
    pub fn parse_str(text: &str) -> (r: Option<EntryId>)
        ensures
            r == EntryId::spec_parse(encode_utf8(text@)),
    {
        EntryId::parse(text.as_bytes())
    }
}

/// The text of an identifier is a canonical numeral, a dash, and a canonical
/// numeral.
pub proof fn lemma_render_shape(id: EntryId)
    ensures
        ({
            let s = id.spec_render();
            let k = decimal(id.ms as nat).len() as int;
            &&& 0 < k < s.len()
            &&& s[k] == 45
            &&& s.take(k) == decimal(id.ms as nat)
            &&& s.skip(k + 1) == decimal(id.seq as nat)
            &&& canonical(s.take(k))
            &&& canonical(s.skip(k + 1))
            &&& digits_value(s.take(k)) == id.ms
            &&& digits_value(s.skip(k + 1)) == id.seq
        }),
{
    let s = id.spec_render();
    let k = decimal(id.ms as nat).len() as int;
    lemma_decimal_canonical(id.ms as nat);
    lemma_decimal_canonical(id.seq as nat);
    assert(s.take(k) =~= decimal(id.ms as nat));
    assert(s.skip(k + 1) =~= decimal(id.seq as nat));
}

/// Where a run of digits ends is determined by the text.
proof fn lemma_first_break(s: Seq<u8>, i: int, j: int)
    requires
        0 <= i <= s.len(),
        0 <= j <= s.len(),
        all_digits(s.take(i)),
        all_digits(s.take(j)),
        i < s.len() ==> !is_digit(s[i]),
        j < s.len() ==> !is_digit(s[j]),
    ensures
        i == j,
{
    if i < j {
        assert(s.take(j)[i] == s[i]);
    } else if j < i {
        assert(s.take(i)[j] == s[j]);
    }
}

/// Two identifiers with the same text are the same identifier.
pub proof fn lemma_render_injective(a: EntryId, b: EntryId)
    requires
        a.spec_render() == b.spec_render(),
    ensures
        a == b,
{
    let s = a.spec_render();
    lemma_render_shape(a);
    lemma_render_shape(b);
    lemma_first_break(s, decimal(a.ms as nat).len() as int, decimal(b.ms as nat).len() as int);
}

/// An identifier is read back from its text.
pub proof fn lemma_parse_render(id: EntryId)
    ensures
        EntryId::spec_parse(id.spec_render()) == Some(id),
{
    let chosen = choose|other: EntryId| #[trigger] other.spec_render() == id.spec_render();
    lemma_render_injective(id, chosen);
}

/// Text that is read as an identifier is the text of that identifier.
pub proof fn lemma_render_parse(s: Seq<u8>)
    requires
        EntryId::spec_parse(s) is Some,
    ensures
        EntryId::spec_parse(s).unwrap().spec_render() == s,
{
}

/// Identifiers are totally ordered: of two identifiers one comes before the
/// other unless they are equal, none comes before itself, and what comes
/// before an identifier comes before all that follow it.
pub proof fn lemma_total_order(a: EntryId, b: EntryId, c: EntryId)
    ensures
        !a.spec_lt(a),
        a.spec_lt(b) || b.spec_lt(a) || a == b,
        !(a.spec_lt(b) && b.spec_lt(a)),
        a.spec_lt(b) && b.spec_lt(c) ==> a.spec_lt(c),
        a.spec_le(b) <==> !b.spec_lt(a),
        a.spec_max(b) == b.spec_max(a),
        a.spec_le(a.spec_max(b)) && b.spec_le(a.spec_max(b)),
{
}

/// The decimal text of `n`, with a leading dash where `n` is negative.
pub open spec fn signed_decimal(n: int) -> Seq<u8> {
    if n < 0 {
        seq![45u8] + decimal((-n) as nat)
    } else {
        decimal(n as nat)
    }
}

/// The decimal text of `n`.
pub fn render_decimal(n: u64) -> (out: Vec<u8>)
    ensures
        out@ == decimal(n as nat),
{
    let mut out: Vec<u8> = Vec::new();
    push_decimal(&mut out, n);
    assert(out@ =~= decimal(n as nat));
    out
}

/// The decimal text of `n`, with a leading dash where `n` is negative.
pub fn render_signed(n: isize) -> (out: Vec<u8>)
    ensures
        out@ == signed_decimal(n as int),
{
    let mut out: Vec<u8> = Vec::new();
    if n < 0 {
        out.push(45u8);
        let magnitude: u64 = ((-(n + 1)) as u64) + 1;
        push_decimal(&mut out, magnitude);
    } else {
        push_decimal(&mut out, n as u64);
    }
    assert(out@ =~= signed_decimal(n as int));
    out
}

/// Appends the decimal text of `n` to `out`.
fn push_decimal(out: &mut Vec<u8>, n: u64)
    ensures
        final(out)@ == old(out)@ + decimal(n as nat),
    decreases n,
{
    if n >= 10 {
        push_decimal(out, n / 10);
    }
    let digit: u8 = 48u8 + (n % 10) as u8;
    out.push(digit);
    assert(final(out)@ =~= old(out)@ + decimal(n as nat));
}

/// Reads the run of decimal digits that starts at `start`: where it ends,
/// and the number it denotes if the run is a canonical numeral that fits 64
/// bits.
fn scan_number(bytes: &[u8], start: usize) -> (r: (Option<u64>, usize))
    requires
        start <= bytes@.len(),
    ensures
        start <= r.1 <= bytes@.len(),
        all_digits(bytes@.subrange(start as int, r.1 as int)),
        r.1 < bytes@.len() ==> !is_digit(bytes@[r.1 as int]),
        r.0 is Some <==> canonical(bytes@.subrange(start as int, r.1 as int)) && digits_value(
            bytes@.subrange(start as int, r.1 as int),
        ) <= u64::MAX,
        r.0 matches Some(v) ==> v == digits_value(bytes@.subrange(start as int, r.1 as int)),
{
    let n: usize = bytes.len();
    let ghost s = bytes@;
    let mut end: usize = start;
    while end < n && 48u8 <= bytes[end] && bytes[end] <= 57u8
        invariant
            n == s.len(),
            s == bytes@,
            start <= end <= n,
            all_digits(s.subrange(start as int, end as int)),
        decreases n - end,
    {
        end = end + 1;
        assert forall|i: int| 0 <= i < end - start implies is_digit(
            #[trigger] s.subrange(start as int, end as int)[i],
        ) by {
            if i < end - start - 1 {
                assert(s.subrange(start as int, end as int - 1)[i] == s[start + i]);
            }
        }
    }
    let ghost run = s.subrange(start as int, end as int);
    if end == start {
        return (None, end);
    }
    if end - start > 1 && bytes[start] == 48u8 {
        assert(run[0] == 48);
        return (None, end);
    }
    let mut value: u64 = 0;
    let mut i: usize = start;
    assert(run.take(0) =~= Seq::<u8>::empty());
    while i < end
        invariant
            n == s.len(),
            s == bytes@,
            start <= i <= end <= n,
            run == s.subrange(start as int, end as int),
            all_digits(run),
            end < n ==> !is_digit(s[end as int]),
            value == digits_value(run.take(i - start)),
        decreases end - i,
    {
        assert(is_digit(run[i - start]));
        let d: u64 = (bytes[i] - 48u8) as u64;
        let ghost next = run.take(i - start + 1);
        proof {
            assert(next.drop_last() =~= run.take(i - start));
            assert(next.last() == s[i as int]);
            assert(digits_value(next) == value * 10 + d);
            lemma_prefix_value(run, i - start + 1);
        }
        if value > (u64::MAX - d) / 10 {
            return (None, end);
        }
        value = value * 10 + d;
        i = i + 1;
    }
    assert(run.take(end - start) =~= run);
    (Some(value), end)
}

} // verus!
