//! Generic pieces of the JSON grammar: `null`-or-value options, arrays of
//! values, and the `{"expires":...,"inner":...}` wrapper around cached
//! values. Each is parameterized by the spec parser and serializer of the
//! element, tied together by the `good_parser` bundle.

use vstd::prelude::*;

use crate::cache::CachedItem;
use crate::json::dec_digits;
use crate::json::first_key_lit;
use crate::json::is_digit;
use crate::json::digit_val;
use crate::json::key_lit;
use crate::json::lemma_lit_round_trip;
use crate::json::lemma_u64_round_trip;
use crate::json::num_delim;
use crate::json::parse_digits;
use crate::json::parse_jstring;
use crate::json::parse_strbytes;
use crate::json::parse_u64;
use crate::json::short_escape;
use crate::json::spec_lit;

verus! {

/// The remainder left by a successful parse; the empty sequence on failure.
pub open spec fn rest_of<V>(r: Option<(V, Seq<u8>)>) -> Seq<u8> {
    match r {
        Some((v, rest)) => rest,
        None => Seq::empty(),
    }
}

/// What may follow any serialized value inside a composite: the end of the
/// input or a closing delimiter.
pub open spec fn value_delim(s: Seq<u8>) -> bool {
    s.len() == 0 || s[0] == 0x2c || s[0] == 0x5d || s[0] == 0x7d
}

/// The facts each element grammar supplies: parsing inverts serializing in
/// front of any delimited tail, a serialized value is nonempty and starts
/// with neither `n` nor `]`, and a successful parse consumes at least one
/// byte.
pub open spec fn good_parser<V>(
    p: spec_fn(Seq<u8>) -> Option<(V, Seq<u8>)>,
    ser: spec_fn(V) -> Seq<u8>,
) -> bool {
    &&& forall|v: V, rest: Seq<u8>|
        value_delim(rest) ==> #[trigger] p(ser(v) + rest) == Some((v, rest))
    &&& forall|v: V| (#[trigger] ser(v)).len() > 0 && ser(v)[0] != 0x6e && ser(v)[0] != 0x5d
    &&& forall|s: Seq<u8>| (#[trigger] p(s)) is Some ==> rest_of(p(s)).len() < s.len()
}

// ---------------------------------------------------------------------------
// Options: `null` or a value
// ---------------------------------------------------------------------------

pub open spec fn null_lit() -> Seq<u8> {
    seq![0x6eu8, 0x75u8, 0x6cu8, 0x6cu8]
}

pub open spec fn ser_opt<V>(ser: spec_fn(V) -> Seq<u8>, v: Option<V>) -> Seq<u8> {
    match v {
        None => null_lit(),
        Some(x) => ser(x),
    }
}

pub open spec fn parse_opt<V>(p: spec_fn(Seq<u8>) -> Option<(V, Seq<u8>)>, s: Seq<u8>) -> Option<
    (Option<V>, Seq<u8>),
> {
    match spec_lit(s, null_lit()) {
        Some(rest) => Some((None, rest)),
        None => match p(s) {
            Some((v, rest)) => Some((Some(v), rest)),
            None => None,
        },
    }
}

pub proof fn lemma_opt_round_trip<V>(
    p: spec_fn(Seq<u8>) -> Option<(V, Seq<u8>)>,
    ser: spec_fn(V) -> Seq<u8>,
    v: Option<V>,
    rest: Seq<u8>,
)
    requires
        good_parser(p, ser),
        value_delim(rest),
    ensures
        parse_opt(p, ser_opt(ser, v) + rest) == Some((v, rest)),
{
    match v {
        None => {
            lemma_lit_round_trip(null_lit(), rest);
        },
        Some(x) => {
            let s = ser(x) + rest;
            assert(s[0] == ser(x)[0]);
            assert(spec_lit(s, null_lit()) is None) by {
                if spec_lit(s, null_lit()) is Some {
                    assert(s.take(4)[0] == null_lit()[0]);
                }
            }
            assert(p(ser(x) + rest) == Some((x, rest)));
        },
    }
}

/// A successful option parse always consumes at least one byte.
pub proof fn lemma_opt_len<V>(p: spec_fn(Seq<u8>) -> Option<(V, Seq<u8>)>, s: Seq<u8>)
    requires
        forall|t: Seq<u8>| (#[trigger] p(t)) is Some ==> rest_of(p(t)).len() < t.len(),
        parse_opt(p, s) is Some,
    ensures
        rest_of(parse_opt(p, s)).len() < s.len(),
{
}

/// Scan `null` at position `i`.
pub fn scan_null(s: &Vec<u8>, i: usize) -> (r: Option<usize>)
    requires
        i <= s.len(),
    ensures
        match r {
            Some(j) => {
                &&& i <= j <= s.len()
                &&& spec_lit(s@.skip(i as int), null_lit()) == Some(s@.skip(j as int))
            },
            None => spec_lit(s@.skip(i as int), null_lit()) is None,
        },
{
    let ghost suf = s@.skip(i as int);
    proof {
        assert(forall|m: int| 0 <= m < suf.len() ==> suf[m] == s@[i + m]);
    }
    if s.len() - i >= 4 && s[i] == 0x6e && s[i + 1] == 0x75 && s[i + 2] == 0x6c && s[i + 3]
        == 0x6c {
        assert(suf.take(4) =~= null_lit());
        assert(suf.skip(4) =~= s@.skip(i + 4));
        Some(i + 4)
    } else {
        assert(spec_lit(suf, null_lit()) is None) by {
            if spec_lit(suf, null_lit()) is Some {
                assert(suf.take(4) == null_lit());
                assert(suf[0] == 0x6eu8 && suf[1] == 0x75u8 && suf[2] == 0x6cu8 && suf[3]
                    == 0x6cu8);
            }
        }
        None
    }
}

// ---------------------------------------------------------------------------
// Arrays
// ---------------------------------------------------------------------------

/// `prepend` lifted over the result of an element-sequence parse.
pub open spec fn prepend_vals<V>(pre: Seq<V>, r: Option<(Seq<V>, Seq<u8>)>) -> Option<
    (Seq<V>, Seq<u8>),
> {
    match r {
        Some((vs, rest)) => Some((pre + vs, rest)),
        None => None,
    }
}

/// The elements of a non-empty array, read up to and including the closing
/// bracket. The length guard makes termination structural; a parser that
/// meets `good_parser` never trips it.
pub open spec fn parse_elems<V>(p: spec_fn(Seq<u8>) -> Option<(V, Seq<u8>)>, s: Seq<u8>) -> Option<
    (Seq<V>, Seq<u8>),
>
    decreases s.len(),
{
    match p(s) {
        None => None,
        Some((v, s2)) => if s2.len() >= s.len() {
            None
        } else if s2.len() > 0 && s2[0] == 0x2c {
            match parse_elems(p, s2.drop_first()) {
                Some((vs, s3)) => Some((seq![v] + vs, s3)),
                None => None,
            }
        } else if s2.len() > 0 && s2[0] == 0x5d {
            Some((seq![v], s2.drop_first()))
        } else {
            None
        },
    }
}

pub open spec fn parse_array<V>(p: spec_fn(Seq<u8>) -> Option<(V, Seq<u8>)>, s: Seq<u8>) -> Option<
    (Seq<V>, Seq<u8>),
> {
    if s.len() >= 2 && s[0] == 0x5b && s[1] == 0x5d {
        Some((Seq::empty(), s.skip(2)))
    } else if s.len() > 0 && s[0] == 0x5b {
        parse_elems(p, s.drop_first())
    } else {
        None
    }
}

pub open spec fn ser_elems<V>(ser: spec_fn(V) -> Seq<u8>, vs: Seq<V>) -> Seq<u8>
    decreases vs.len(),
{
    if vs.len() == 0 {
        Seq::empty()
    } else if vs.len() == 1 {
        ser(vs[0])
    } else {
        ser(vs[0]) + seq![0x2cu8] + ser_elems(ser, vs.drop_first())
    }
}

pub open spec fn ser_array<V>(ser: spec_fn(V) -> Seq<u8>, vs: Seq<V>) -> Seq<u8> {
    if vs.len() == 0 {
        seq![0x5bu8, 0x5du8]
    } else {
        seq![0x5bu8] + ser_elems(ser, vs) + seq![0x5du8]
    }
}

proof fn lemma_elems_round_trip<V>(
    p: spec_fn(Seq<u8>) -> Option<(V, Seq<u8>)>,
    ser: spec_fn(V) -> Seq<u8>,
    vs: Seq<V>,
    rest: Seq<u8>,
)
    requires
        good_parser(p, ser),
        vs.len() > 0,
    ensures
        parse_elems(p, ser_elems(ser, vs) + seq![0x5du8] + rest) == Some((vs, rest)),
    decreases vs.len(),
{
    let s = ser_elems(ser, vs) + seq![0x5du8] + rest;
    if vs.len() == 1 {
        let tail = seq![0x5du8] + rest;
        assert(s =~= ser(vs[0]) + tail);
        assert(value_delim(tail));
        assert(p(ser(vs[0]) + tail) == Some((vs[0], tail)));
        assert(tail.len() < s.len());
        assert(tail[0] == 0x5du8);
        assert(tail.drop_first() =~= rest);
        assert(seq![vs[0]] =~= vs);
    } else {
        let tail = seq![0x2cu8] + (ser_elems(ser, vs.drop_first()) + seq![0x5du8] + rest);
        assert(s =~= ser(vs[0]) + tail);
        assert(value_delim(tail));
        assert(p(ser(vs[0]) + tail) == Some((vs[0], tail)));
        assert(tail.len() < s.len());
        assert(tail[0] == 0x2cu8);
        assert(tail.drop_first() =~= ser_elems(ser, vs.drop_first()) + seq![0x5du8] + rest);
        lemma_elems_round_trip(p, ser, vs.drop_first(), rest);
        assert(seq![vs[0]] + vs.drop_first() =~= vs);
    }
}

/// The first byte of a non-empty run of serialized elements is the first
/// byte of the first element.
proof fn lemma_ser_elems_first<V>(ser: spec_fn(V) -> Seq<u8>, vs: Seq<V>)
    requires
        good_parser_ser_side(ser),
        vs.len() > 0,
    ensures
        ser_elems(ser, vs).len() > 0,
        ser_elems(ser, vs)[0] == ser(vs[0])[0],
{
    if vs.len() == 1 {
    } else {
        assert((ser(vs[0]) + seq![0x2cu8] + ser_elems(ser, vs.drop_first()))[0] == ser(vs[0])[0]);
    }
}

/// Just the serializer half of `good_parser`.
pub open spec fn good_parser_ser_side<V>(ser: spec_fn(V) -> Seq<u8>) -> bool {
    forall|v: V| (#[trigger] ser(v)).len() > 0 && ser(v)[0] != 0x6e && ser(v)[0] != 0x5d
}

pub proof fn lemma_array_round_trip<V>(
    p: spec_fn(Seq<u8>) -> Option<(V, Seq<u8>)>,
    ser: spec_fn(V) -> Seq<u8>,
    vs: Seq<V>,
    rest: Seq<u8>,
)
    requires
        good_parser(p, ser),
    ensures
        parse_array(p, ser_array(ser, vs) + rest) == Some((vs, rest)),
{
    let s = ser_array(ser, vs) + rest;
    if vs.len() == 0 {
        assert(s[0] == 0x5bu8 && s[1] == 0x5du8);
        assert(s.skip(2) =~= rest);
    } else {
        assert(good_parser_ser_side(ser));
        lemma_ser_elems_first(ser, vs);
        assert(s[0] == 0x5bu8);
        assert(s[1] == ser(vs[0])[0]);
        assert(s[1] != 0x5du8);
        assert(s.drop_first() =~= ser_elems(ser, vs) + seq![0x5du8] + rest);
        lemma_elems_round_trip(p, ser, vs, rest);
    }
}

/// A successful array parse consumes at least one byte.
pub proof fn lemma_parse_elems_len<V>(p: spec_fn(Seq<u8>) -> Option<(V, Seq<u8>)>, s: Seq<u8>)
    requires
        parse_elems(p, s) is Some,
    ensures
        rest_of(parse_elems(p, s)).len() < s.len(),
    decreases s.len(),
{
    let (v, s2) = p(s)->0;
    if s2.len() > 0 && s2[0] == 0x2c {
        lemma_parse_elems_len(p, s2.drop_first());
    }
}

pub proof fn lemma_parse_array_len<V>(p: spec_fn(Seq<u8>) -> Option<(V, Seq<u8>)>, s: Seq<u8>)
    requires
        parse_array(p, s) is Some,
    ensures
        rest_of(parse_array(p, s)).len() < s.len(),
{
    if !(s.len() >= 2 && s[0] == 0x5b && s[1] == 0x5d) {
        lemma_parse_elems_len(p, s.drop_first());
    }
}

/// Appending one element to a run of serialized elements.
pub proof fn lemma_ser_elems_snoc<V>(ser: spec_fn(V) -> Seq<u8>, vs: Seq<V>, x: V)
    ensures
        vs.len() == 0 ==> ser_elems(ser, vs.push(x)) == ser(x),
        vs.len() > 0 ==> ser_elems(ser, vs.push(x)) == ser_elems(ser, vs) + seq![0x2cu8] + ser(x),
    decreases vs.len(),
{
    if vs.len() == 0 {
        assert(vs.push(x).len() == 1);
        assert(vs.push(x)[0] == x);
    } else {
        lemma_ser_elems_snoc(ser, vs.drop_first(), x);
        assert(vs.push(x)[0] == vs[0]);
        assert(vs.push(x).drop_first() =~= vs.drop_first().push(x));
        if vs.len() == 1 {
            assert(vs.push(x).len() == 2);
            assert(ser_elems(ser, vs.push(x)) == ser(vs[0]) + seq![0x2cu8] + ser_elems(
                ser,
                vs.drop_first().push(x),
            ));
            assert(ser_elems(ser, vs.drop_first().push(x)) == ser(x));
            assert(ser_elems(ser, vs) == ser(vs[0]));
        } else {
            assert(ser(vs[0]) + seq![0x2cu8] + (ser_elems(ser, vs.drop_first()) + seq![0x2cu8]
                + ser(x)) =~= (ser(vs[0]) + seq![0x2cu8] + ser_elems(ser, vs.drop_first()))
                + seq![0x2cu8] + ser(x));
        }
    }
}

// ---------------------------------------------------------------------------
// The `{"expires":...,"inner":...}` wrapper
// ---------------------------------------------------------------------------

pub open spec fn ser_cached<V>(ser: spec_fn(V) -> Seq<u8>, c: CachedItem<V>) -> Seq<u8> {
    first_key_lit("expires"@) + dec_digits(c.expires) + key_lit("inner"@) + ser(c.inner)
        + seq![0x7du8]
}

pub open spec fn parse_cached<V>(
    p: spec_fn(Seq<u8>) -> Option<(V, Seq<u8>)>,
    s: Seq<u8>,
) -> Option<(CachedItem<V>, Seq<u8>)> {
    match spec_lit(s, first_key_lit("expires"@)) {
        None => None,
        Some(s1) => match parse_u64(s1) {
            None => None,
            Some((exp, s2)) => match spec_lit(s2, key_lit("inner"@)) {
                None => None,
                Some(s3) => match p(s3) {
                    None => None,
                    Some((v, s4)) => if s4.len() > 0 && s4[0] == 0x7d {
                        Some((CachedItem { inner: v, expires: exp }, s4.drop_first()))
                    } else {
                        None
                    },
                },
            },
        },
    }
}

pub proof fn lemma_cached_round_trip<V>(
    p: spec_fn(Seq<u8>) -> Option<(V, Seq<u8>)>,
    ser: spec_fn(V) -> Seq<u8>,
    c: CachedItem<V>,
    rest: Seq<u8>,
)
    requires
        good_parser(p, ser),
    ensures
        parse_cached(p, ser_cached(ser, c) + rest) == Some((c, rest)),
{
    let l1 = first_key_lit("expires"@);
    let l2 = key_lit("inner"@);
    let t4 = seq![0x7du8] + rest;
    let t3 = ser(c.inner) + t4;
    let t2 = l2 + t3;
    let t1 = dec_digits(c.expires) + t2;
    assert(ser_cached(ser, c) + rest =~= l1 + t1);
    lemma_lit_round_trip(l1, t1);
    assert(t2[0] == 0x2cu8);
    assert(num_delim(t2));
    lemma_u64_round_trip(c.expires, t2);
    lemma_lit_round_trip(l2, t3);
    assert(value_delim(t4));
    assert(p(ser(c.inner) + t4) == Some((c.inner, t4)));
    assert(t4[0] == 0x7du8);
    assert(t4.drop_first() =~= rest);
}

pub proof fn lemma_parse_cached_len<V>(p: spec_fn(Seq<u8>) -> Option<(V, Seq<u8>)>, s: Seq<u8>)
    requires
        forall|t: Seq<u8>| (#[trigger] p(t)) is Some ==> rest_of(p(t)).len() < t.len(),
        parse_cached(p, s) is Some,
    ensures
        rest_of(parse_cached(p, s)).len() < s.len(),
{
    let s1 = spec_lit(s, first_key_lit("expires"@))->0;
    assert(s1.len() <= s.len());
    lemma_parse_u64_len(s1);
    let s2 = rest_of(parse_u64(s1));
    let s3 = spec_lit(s2, key_lit("inner"@))->0;
    assert(s3.len() <= s2.len());
    assert(rest_of(p(s3)).len() < s3.len());
}

/// A successful number parse consumes at least one byte.
pub proof fn lemma_parse_u64_len(s: Seq<u8>)
    requires
        parse_u64(s) is Some,
    ensures
        rest_of(parse_u64(s)).len() < s.len(),
{
    let d = digit_val(s[0]);
    lemma_parse_digits_len(s.drop_first(), d);
}

proof fn lemma_parse_digits_len(s: Seq<u8>, acc: u64)
    requires
        parse_digits(s, acc) is Some,
    ensures
        rest_of(parse_digits(s, acc)).len() <= s.len(),
    decreases s.len(),
{
    if s.len() > 0 && is_digit(s[0]) {
        let d = digit_val(s[0]);
        lemma_parse_digits_len(s.drop_first(), (acc * 10 + d) as u64);
    }
}

/// A successful string parse consumes at least one byte.
pub proof fn lemma_parse_jstring_len(s: Seq<u8>)
    requires
        parse_jstring(s) is Some,
    ensures
        rest_of(parse_jstring(s)).len() < s.len(),
{
    reveal(crate::json::parse_jstring);
    lemma_parse_strbytes_len(s.drop_first());
}

proof fn lemma_parse_strbytes_len(s: Seq<u8>)
    requires
        parse_strbytes(s) is Some,
    ensures
        rest_of(parse_strbytes(s)).len() < s.len(),
    decreases s.len(),
{
    if s.len() == 0 {
    } else if s[0] == 0x22 {
    } else if s[0] == 0x5c {
        if s.len() >= 2 && short_escape(s[1]) is Some {
            lemma_parse_strbytes_len(s.skip(2));
        } else {
            lemma_parse_strbytes_len(s.skip(6));
        }
    } else {
        lemma_parse_strbytes_len(s.drop_first());
    }
}

} // verus!
