//! Byte-level building blocks of the cache file format and of the gateway's
//! responses: decimal numbers, JSON strings, booleans, and literal matching.
//!
//! The grammar is specified by the `parse_*` spec functions; the executable
//! scanners are proved to implement them, and the executable emitters are
//! proved to produce byte sequences that the parsers map back to the value
//! they were given.

use vstd::prelude::*;
use vstd::utf8::{decode_utf8, encode_utf8, valid_utf8};

verus! {

// ---------------------------------------------------------------------------
// Decimal numbers
// ---------------------------------------------------------------------------

pub open spec fn is_digit(b: u8) -> bool {
    0x30 <= b && b <= 0x39
}

pub open spec fn digit_val(b: u8) -> u64 {
    (b - 0x30) as u64
}

/// The canonical decimal digits of `n`, most significant first.
pub open spec fn dec_digits(n: u64) -> Seq<u8>
    decreases n,
{
    if n < 10 {
        seq![(0x30 + n) as u8]
    } else {
        dec_digits((n / 10) as u64).push((0x30 + n % 10) as u8)
    }
}

/// Greedily consume decimal digits, extending `acc`; `None` on u64 overflow.
pub open spec fn parse_digits(s: Seq<u8>, acc: u64) -> Option<(u64, Seq<u8>)>
    decreases s.len(),
{
    if s.len() == 0 || !is_digit(s[0]) {
        Some((acc, s))
    } else if acc * 10 + digit_val(s[0]) > u64::MAX {
        None
    } else {
        parse_digits(s.drop_first(), (acc * 10 + digit_val(s[0])) as u64)
    }
}

/// A decimal number: at least one digit, consumed greedily.
pub open spec fn parse_u64(s: Seq<u8>) -> Option<(u64, Seq<u8>)> {
    if s.len() > 0 && is_digit(s[0]) {
        parse_digits(s, 0)
    } else {
        None
    }
}

/// What may follow a serialized number without being mistaken for part of it.
pub open spec fn num_delim(s: Seq<u8>) -> bool {
    s.len() == 0 || !is_digit(s[0])
}

pub open spec fn all_digits(s: Seq<u8>) -> bool {
    forall|i: int| 0 <= i < s.len() ==> is_digit(s[i])
}

/// The value of a digit string, most significant digit first.
pub open spec fn digits_val(s: Seq<u8>) -> int
    decreases s.len(),
{
    if s.len() == 0 {
        0
    } else {
        digits_val(s.drop_last()) * 10 + digit_val(s.last())
    }
}

pub open spec fn pow10(k: nat) -> int
    decreases k,
{
    if k == 0 {
        1
    } else {
        10 * pow10((k - 1) as nat)
    }
}

proof fn lemma_pow10_pos(k: nat)
    ensures
        pow10(k) >= 1,
    decreases k,
{
    if k > 0 {
        lemma_pow10_pos((k - 1) as nat);
    }
}

pub proof fn lemma_dec_digits_props(n: u64)
    ensures
        dec_digits(n).len() >= 1,
        all_digits(dec_digits(n)),
        digits_val(dec_digits(n)) == n,
    decreases n,
{
    if n < 10 {
        let ds = dec_digits(n);
        assert(ds =~= seq![(0x30 + n) as u8]);
        assert(ds.drop_last() =~= Seq::<u8>::empty());
        assert(digits_val(ds) == digits_val(ds.drop_last()) * 10 + digit_val(ds.last()));
        assert(digits_val(ds) == n);
    } else {
        lemma_dec_digits_props((n / 10) as u64);
        let pre = dec_digits((n / 10) as u64);
        let whole = pre.push((0x30 + n % 10) as u8);
        assert(whole.drop_last() =~= pre);
        assert(digits_val(whole) == digits_val(pre) * 10 + (n % 10));
        assert((n / 10) * 10 + n % 10 == n);
    }
}

proof fn lemma_digits_val_nonneg(s: Seq<u8>)
    requires
        all_digits(s),
    ensures
        digits_val(s) >= 0,
    decreases s.len(),
{
    if s.len() > 0 {
        assert(all_digits(s.drop_last()));
        lemma_digits_val_nonneg(s.drop_last());
    }
}

/// Peel the most significant digit off `digits_val`.
proof fn lemma_digits_val_first(s: Seq<u8>)
    requires
        s.len() > 0,
        all_digits(s),
    ensures
        digits_val(s) == digit_val(s[0]) * pow10((s.len() - 1) as nat) + digits_val(
            s.drop_first(),
        ),
    decreases s.len(),
{
    if s.len() == 1 {
        assert(s.drop_first() =~= Seq::<u8>::empty());
        assert(s.drop_last() =~= Seq::<u8>::empty());
    } else {
        let head = s.drop_last();
        assert(all_digits(head));
        lemma_digits_val_first(head);
        assert(head.drop_first() =~= s.drop_first().drop_last());
        assert(s.drop_first().last() == s.last());
        let k = (s.len() - 2) as nat;
        assert(digits_val(s) == digits_val(head) * 10 + digit_val(s.last()));
        assert(digits_val(head) == digit_val(s[0]) * pow10(k) + digits_val(head.drop_first()));
        assert((digit_val(s[0]) * pow10(k) + digits_val(head.drop_first())) * 10 == digit_val(
            s[0],
        ) * (10 * pow10(k)) + digits_val(head.drop_first()) * 10) by (nonlinear_arith);
        assert(digits_val(s.drop_first()) == digits_val(head.drop_first()) * 10 + digit_val(
            s.last(),
        ));
    }
}

proof fn lemma_parse_digits_exact(ds: Seq<u8>, rest: Seq<u8>, acc: u64)
    requires
        all_digits(ds),
        num_delim(rest),
        acc * pow10(ds.len() as nat) + digits_val(ds) <= u64::MAX,
    ensures
        parse_digits(ds + rest, acc) == Some(
            (((acc * pow10(ds.len() as nat) + digits_val(ds)) as u64), rest),
        ),
    decreases ds.len(),
{
    lemma_pow10_pos(ds.len() as nat);
    if ds.len() == 0 {
        assert(ds + rest =~= rest);
    } else {
        let s = ds + rest;
        assert(s[0] == ds[0]);
        let d0 = digit_val(ds[0]);
        let k = (ds.len() - 1) as nat;
        lemma_pow10_pos(k);
        lemma_digits_val_first(ds);
        assert(all_digits(ds.drop_first()));
        lemma_digits_val_nonneg(ds.drop_first());
        // the accumulator stays within range at this step
        let p = pow10(k);
        assert(pow10(ds.len() as nat) == 10 * p);
        assert(acc * (10 * p) == (acc * 10) * p) by (nonlinear_arith);
        assert((acc * 10 + d0) * p == (acc * 10) * p + d0 * p) by (nonlinear_arith);
        assert((acc * 10 + d0) * p + digits_val(ds.drop_first()) <= u64::MAX);
        assert(acc * 10 + d0 <= (acc * 10 + d0) * p) by (nonlinear_arith)
            requires
                p >= 1,
                acc >= 0,
                d0 >= 0,
        ;
        let acc2 = (acc * 10 + d0) as u64;
        assert(s.drop_first() =~= ds.drop_first() + rest);
        lemma_parse_digits_exact(ds.drop_first(), rest, acc2);
    }
}

/// Round trip for numbers: the canonical digits of `n`, followed by anything
/// that does not begin with a digit, parse back to exactly `n`.
pub proof fn lemma_u64_round_trip(n: u64, rest: Seq<u8>)
    requires
        num_delim(rest),
    ensures
        parse_u64(dec_digits(n) + rest) == Some((n, rest)),
{
    lemma_dec_digits_props(n);
    let ds = dec_digits(n);
    assert((ds + rest)[0] == ds[0]);
    lemma_parse_digits_exact(ds, rest, 0);
}

/// Append the canonical decimal digits of `n` to `buf`.
pub fn emit_u64(buf: &mut Vec<u8>, n: u64)
    ensures
        final(buf)@ == old(buf)@ + dec_digits(n),
    decreases n,
{
    if n < 10 {
        buf.push((0x30 + n) as u8);
        assert(buf@ =~= old(buf)@ + dec_digits(n));
    } else {
        emit_u64(buf, n / 10);
        buf.push((0x30 + (n % 10)) as u8);
        assert(buf@ =~= old(buf)@ + dec_digits(n));
    }
}

fn scan_digits(s: &Vec<u8>, i: usize, acc: u64) -> (r: Option<(u64, usize)>)
    requires
        i <= s.len(),
    ensures
        match r {
            Some((n, j)) => {
                &&& i <= j <= s.len()
                &&& parse_digits(s@.skip(i as int), acc) == Some((n, s@.skip(j as int)))
            },
            None => parse_digits(s@.skip(i as int), acc) is None,
        },
    decreases s.len() - i,
{
    if i == s.len() || !(0x30 <= s[i] && s[i] <= 0x39) {
        assert(s@.skip(i as int).len() == 0 || !is_digit(s@.skip(i as int)[0]));
        Some((acc, i))
    } else {
        let suf = Ghost(s@.skip(i as int));
        assert(suf@[0] == s@[i as int]);
        let d = (s[i] - 0x30) as u64;
        if acc > (u64::MAX - d) / 10 {
            // acc * 10 + d would overflow
            assert(u64::MAX - d == 10 * ((u64::MAX - d) / 10) + (u64::MAX - d) % 10);
            assert(acc * 10 + d > u64::MAX);
            None
        } else {
            assert(u64::MAX - d == 10 * ((u64::MAX - d) / 10) + (u64::MAX - d) % 10);
            assert(acc * 10 + d <= u64::MAX);
            assert(suf@.drop_first() =~= s@.skip(i + 1));
            scan_digits(s, i + 1, acc * 10 + d)
        }
    }
}

/// Scan a decimal number at position `i`.
pub fn scan_u64(s: &Vec<u8>, i: usize) -> (r: Option<(u64, usize)>)
    requires
        i <= s.len(),
    ensures
        match r {
            Some((n, j)) => {
                &&& i <= j <= s.len()
                &&& parse_u64(s@.skip(i as int)) == Some((n, s@.skip(j as int)))
            },
            None => parse_u64(s@.skip(i as int)) is None,
        },
{
    if i < s.len() && 0x30 <= s[i] && s[i] <= 0x39 {
        assert(s@.skip(i as int)[0] == s@[i as int]);
        scan_digits(s, i, 0)
    } else {
        assert(s@.skip(i as int).len() == 0 || !is_digit(s@.skip(i as int)[0]));
        None
    }
}

// ---------------------------------------------------------------------------
// Literals
// ---------------------------------------------------------------------------

/// Match an exact byte sequence at the front of `s`.
pub open spec fn spec_lit(s: Seq<u8>, lit: Seq<u8>) -> Option<Seq<u8>> {
    if lit.len() <= s.len() && s.take(lit.len() as int) == lit {
        Some(s.skip(lit.len() as int))
    } else {
        None
    }
}

/// Matching a literal against itself plus a tail always succeeds.
pub proof fn lemma_lit_round_trip(lit: Seq<u8>, rest: Seq<u8>)
    ensures
        spec_lit(lit + rest, lit) == Some(rest),
{
    assert((lit + rest).take(lit.len() as int) =~= lit);
    assert((lit + rest).skip(lit.len() as int) =~= rest);
}

/// The UTF-8 bytes of a fixed name. Opaque: proofs about composite
/// grammars treat a key's bytes as an unanalyzed sequence.
#[verifier::opaque]
pub open spec fn lit_bytes(t: Seq<char>) -> Seq<u8> {
    encode_utf8(t)
}

/// A field key as it appears between two other fields: `,"key":`.
pub open spec fn key_lit(key: Seq<char>) -> Seq<u8> {
    seq![0x2cu8, 0x22u8] + lit_bytes(key) + seq![0x22u8, 0x3au8]
}

/// A field key opening an object: `{"key":`.
pub open spec fn first_key_lit(key: Seq<char>) -> Seq<u8> {
    seq![0x7bu8, 0x22u8] + lit_bytes(key) + seq![0x22u8, 0x3au8]
}

/// Scan the exact bytes of `lit` at position `i`.
#[verifier::loop_isolation(false)]
pub fn scan_bytes_lit(s: &Vec<u8>, i: usize, lit: &str) -> (r: Option<usize>)
    requires
        i <= s.len(),
    ensures
        match r {
            Some(j) => {
                &&& i <= j <= s.len()
                &&& spec_lit(s@.skip(i as int), lit_bytes(lit@)) == Some(s@.skip(j as int))
            },
            None => spec_lit(s@.skip(i as int), lit_bytes(lit@)) is None,
        },
{
    proof {
        reveal(lit_bytes);
    }
    let lb = lit.as_bytes();
    let n = lb.len();
    if n > s.len() - i {
        assert(spec_lit(s@.skip(i as int), lit_bytes(lit@)) is None);
        return None;
    }
    let mut k: usize = 0;
    while k < n
        invariant
            0 <= k <= n,
            i + n <= s.len(),
            lb@ == lit_bytes(lit@),
            n == lb@.len(),
            forall|m: int| 0 <= m < k ==> s@[i + m] == lb@[m],
        decreases n - k,
    {
        if s[i + k] != lb[k] {
            assert(s@.skip(i as int)[k as int] != lit_bytes(lit@)[k as int]);
            assert(spec_lit(s@.skip(i as int), lit_bytes(lit@)) is None);
            return None;
        }
        k += 1;
    }
    assert(s@.skip(i as int).take(n as int) =~= lit_bytes(lit@));
    Some(i + n)
}

/// Scan `,"key":` at position `i`.
pub fn scan_key(s: &Vec<u8>, i: usize, key: &str) -> (r: Option<usize>)
    requires
        i <= s.len(),
    ensures
        match r {
            Some(j) => {
                &&& i <= j <= s.len()
                &&& spec_lit(s@.skip(i as int), key_lit(key@)) == Some(s@.skip(j as int))
            },
            None => spec_lit(s@.skip(i as int), key_lit(key@)) is None,
        },
{
    scan_wrapped_key(s, i, 0x2c, key)
}

/// Scan `{"key":` at position `i`.
pub fn scan_first_key(s: &Vec<u8>, i: usize, key: &str) -> (r: Option<usize>)
    requires
        i <= s.len(),
    ensures
        match r {
            Some(j) => {
                &&& i <= j <= s.len()
                &&& spec_lit(s@.skip(i as int), first_key_lit(key@)) == Some(s@.skip(j as int))
            },
            None => spec_lit(s@.skip(i as int), first_key_lit(key@)) is None,
        },
{
    scan_wrapped_key(s, i, 0x7b, key)
}

#[verifier::loop_isolation(false)]
fn scan_wrapped_key(s: &Vec<u8>, i: usize, open: u8, key: &str) -> (r: Option<usize>)
    requires
        i <= s.len(),
    ensures
        ({
            let lit = (seq![open, 0x22u8] + lit_bytes(key@)) + seq![0x22u8, 0x3au8];
            match r {
                Some(j) => {
                    &&& i <= j <= s.len()
                    &&& spec_lit(s@.skip(i as int), lit) == Some(s@.skip(j as int))
                },
                None => spec_lit(s@.skip(i as int), lit) is None,
            }
        }),
{
    proof {
        reveal(lit_bytes);
    }
    let ghost pre = seq![open, 0x22u8] + lit_bytes(key@);
    let ghost lit = pre + seq![0x22u8, 0x3au8];
    proof {
        assert(forall|m: int| 0 <= m < lit_bytes(key@).len() ==> pre[2 + m] == lit_bytes(key@)[m]);
        assert(forall|m: int| 0 <= m < pre.len() ==> lit[m] == pre[m]);
        assert(lit[pre.len() as int] == 0x22u8 && lit[pre.len() as int + 1] == 0x3au8);
    }
    let kb = key.as_bytes();
    let n = kb.len();
    if s.len() - i < 4 || n > s.len() - i - 4 {
        assert(spec_lit(s@.skip(i as int), lit) is None) by {
            assert(lit.len() == n + 4);
        }
        return None;
    }
    if !(s[i] == open && s[i + 1] == 0x22) {
        assert(s@.skip(i as int)[0] == s@[i as int] && s@.skip(i as int)[1] == s@[i + 1]);
        assert(spec_lit(s@.skip(i as int), lit) is None) by {
            if spec_lit(s@.skip(i as int), lit) is Some {
                assert(s@.skip(i as int).take(lit.len() as int)[0] == lit[0]);
                assert(s@.skip(i as int).take(lit.len() as int)[1] == lit[1]);
            }
        }
        return None;
    }
    let mut k: usize = 0;
    while k < n
        invariant
            0 <= k <= n,
            i + n + 4 <= s.len(),
            kb@ == lit_bytes(key@),
            n == kb@.len(),
            forall|m: int| 0 <= m < k ==> s@[i + 2 + m] == kb@[m],
        decreases n - k,
    {
        if s[i + 2 + k] != kb[k] {
            assert(s@.skip(i as int)[2 + k] == s@[i + 2 + k]);
            assert(lit[2 + k] == kb@[k as int]);
            assert(spec_lit(s@.skip(i as int), lit) is None) by {
                if spec_lit(s@.skip(i as int), lit) is Some {
                    assert(s@.skip(i as int).take(lit.len() as int)[2 + k] == lit[2 + k]);
                }
            }
            return None;
        }
        k += 1;
    }
    if !(s[i + 2 + n] == 0x22 && s[i + 3 + n] == 0x3a) {
        assert(s@.skip(i as int)[2 + n] == s@[i + 2 + n]);
        assert(s@.skip(i as int)[3 + n] == s@[i + 3 + n]);
        assert(lit[2 + n] == 0x22u8 && lit[3 + n] == 0x3au8);
        assert(spec_lit(s@.skip(i as int), lit) is None) by {
            if spec_lit(s@.skip(i as int), lit) is Some {
                assert(s@.skip(i as int).take(lit.len() as int)[2 + n] == lit[2 + n]);
                assert(s@.skip(i as int).take(lit.len() as int)[3 + n] == lit[3 + n]);
            }
        }
        return None;
    }
    assert(s@.skip(i as int).take(lit.len() as int) =~= lit) by {
        assert(forall|m: int|
            0 <= m < n ==> lit[2 + m] == lit_bytes(key@)[m] && s@.skip(i as int)[2 + m] == s@[i
                + 2 + m]);
    }
    Some(i + 4 + n)
}

/// Append the bytes of `lit` to `buf`.
#[verifier::loop_isolation(false)]
pub fn emit_lit(buf: &mut Vec<u8>, lit: &str)
    ensures
        final(buf)@ == old(buf)@ + lit_bytes(lit@),
{
    proof {
        reveal(lit_bytes);
    }
    let lb = lit.as_bytes();
    let n = lb.len();
    let mut k: usize = 0;
    while k < n
        invariant
            0 <= k <= n,
            lb@ == lit_bytes(lit@),
            n == lb@.len(),
            buf@ == old(buf)@ + lb@.take(k as int),
        decreases n - k,
    {
        buf.push(lb[k]);
        assert(buf@ =~= old(buf)@ + lb@.take(k + 1));
        k += 1;
    }
    assert(buf@ =~= old(buf)@ + lit_bytes(lit@));
}

/// Append `,"key":` to `buf`.
pub fn emit_key(buf: &mut Vec<u8>, key: &str)
    ensures
        final(buf)@ == old(buf)@ + key_lit(key@),
{
    buf.push(0x2c);
    buf.push(0x22);
    emit_lit(buf, key);
    buf.push(0x22);
    buf.push(0x3a);
    assert(buf@ =~= old(buf)@ + key_lit(key@));
}

/// Append `{"key":` to `buf`.
pub fn emit_first_key(buf: &mut Vec<u8>, key: &str)
    ensures
        final(buf)@ == old(buf)@ + first_key_lit(key@),
{
    buf.push(0x7b);
    buf.push(0x22);
    emit_lit(buf, key);
    buf.push(0x22);
    buf.push(0x3a);
    assert(buf@ =~= old(buf)@ + first_key_lit(key@));
}

// ---------------------------------------------------------------------------
// Booleans
// ---------------------------------------------------------------------------

pub open spec fn true_lit() -> Seq<u8> {
    seq![0x74u8, 0x72u8, 0x75u8, 0x65u8]
}

pub open spec fn false_lit() -> Seq<u8> {
    seq![0x66u8, 0x61u8, 0x6cu8, 0x73u8, 0x65u8]
}

pub open spec fn ser_bool(b: bool) -> Seq<u8> {
    if b {
        true_lit()
    } else {
        false_lit()
    }
}

pub open spec fn parse_bool(s: Seq<u8>) -> Option<(bool, Seq<u8>)> {
    match spec_lit(s, true_lit()) {
        Some(rest) => Some((true, rest)),
        None => match spec_lit(s, false_lit()) {
            Some(rest) => Some((false, rest)),
            None => None,
        },
    }
}

pub proof fn lemma_bool_round_trip(b: bool, rest: Seq<u8>)
    ensures
        parse_bool(ser_bool(b) + rest) == Some((b, rest)),
{
    lemma_lit_round_trip(ser_bool(b), rest);
    if !b {
        assert(spec_lit(false_lit() + rest, true_lit()) is None) by {
            let s = false_lit() + rest;
            if spec_lit(s, true_lit()) is Some {
                assert(s.take(4)[0] == true_lit()[0]);
            }
        }
    }
}

pub fn emit_bool(buf: &mut Vec<u8>, b: bool)
    ensures
        final(buf)@ == old(buf)@ + ser_bool(b),
{
    if b {
        buf.push(0x74);
        buf.push(0x72);
        buf.push(0x75);
        buf.push(0x65);
    } else {
        buf.push(0x66);
        buf.push(0x61);
        buf.push(0x6c);
        buf.push(0x73);
        buf.push(0x65);
    }
    assert(buf@ =~= old(buf)@ + ser_bool(b));
}

pub fn scan_bool(s: &Vec<u8>, i: usize) -> (r: Option<(bool, usize)>)
    requires
        i <= s.len(),
    ensures
        match r {
            Some((b, j)) => {
                &&& i <= j <= s.len()
                &&& parse_bool(s@.skip(i as int)) == Some((b, s@.skip(j as int)))
            },
            None => parse_bool(s@.skip(i as int)) is None,
        },
{
    let suf = Ghost(s@.skip(i as int));
    if s.len() - i >= 4 && s[i] == 0x74 && s[i + 1] == 0x72 && s[i + 2] == 0x75 && s[i + 3]
        == 0x65 {
        assert(forall|m: int| 0 <= m < 4 ==> suf@[m] == s@[i + m]);
        assert(suf@.take(4) =~= true_lit());
        assert(suf@.skip(4) =~= s@.skip(i + 4));
        Some((true, i + 4))
    } else if s.len() - i >= 5 && s[i] == 0x66 && s[i + 1] == 0x61 && s[i + 2] == 0x6c && s[i + 3]
        == 0x73 && s[i + 4] == 0x65 {
        assert(forall|m: int| 0 <= m < 5 ==> suf@[m] == s@[i + m]);
        assert(spec_lit(suf@, true_lit()) is None) by {
            if spec_lit(suf@, true_lit()) is Some {
                assert(suf@.take(4)[0] == true_lit()[0]);
            }
        }
        assert(suf@.take(5) =~= false_lit());
        assert(suf@.skip(5) =~= s@.skip(i + 5));
        Some((false, i + 5))
    } else {
        assert(forall|m: int| 0 <= m < suf@.len() ==> suf@[m] == s@[i + m]);
        assert(parse_bool(suf@) is None) by {
            if spec_lit(suf@, true_lit()) is Some {
                assert(suf@.take(4) == true_lit());
                assert(suf@[0] == 0x74u8 && suf@[1] == 0x72u8 && suf@[2] == 0x75u8 && suf@[3]
                    == 0x65u8);
            }
            if spec_lit(suf@, false_lit()) is Some {
                assert(suf@.take(5) == false_lit());
                assert(suf@[0] == 0x66u8 && suf@[1] == 0x61u8 && suf@[2] == 0x6cu8 && suf@[3]
                    == 0x73u8 && suf@[4] == 0x65u8);
            }
        }
        None
    }
}

// ---------------------------------------------------------------------------
// JSON strings
// ---------------------------------------------------------------------------

/// Bytes that may stand unescaped inside a JSON string.
pub open spec fn plain_strbyte(b: u8) -> bool {
    b >= 0x20 && b != 0x22 && b != 0x5c
}

pub open spec fn is_hex(b: u8) -> bool {
    is_digit(b) || (0x41 <= b && b <= 0x46) || (0x61 <= b && b <= 0x66)
}

pub open spec fn hex_val(b: u8) -> u8 {
    if is_digit(b) {
        (b - 0x30) as u8
    } else if b <= 0x46 {
        (b - 0x37) as u8
    } else {
        (b - 0x57) as u8
    }
}

/// The upper-case hex digit of a value below 16.
pub open spec fn hex_digit(v: u8) -> u8 {
    if v < 10 {
        (0x30 + v) as u8
    } else {
        (0x37 + v) as u8
    }
}

proof fn lemma_hex_digit_val(v: u8)
    requires
        v < 16,
    ensures
        is_hex(hex_digit(v)),
        hex_val(hex_digit(v)) == v,
{
}

/// How one byte is written inside a JSON string: plain, a two-byte escape for
/// quote and backslash, or a `u`-escape for control bytes.
pub open spec fn ser_strbyte(b: u8) -> Seq<u8> {
    if plain_strbyte(b) {
        seq![b]
    } else if b == 0x22 {
        seq![0x5cu8, 0x22u8]
    } else if b == 0x5c {
        seq![0x5cu8, 0x5cu8]
    } else {
        seq![0x5cu8, 0x75u8, 0x30u8, 0x30u8, hex_digit(b / 16), hex_digit(b % 16)]
    }
}

pub open spec fn ser_strbytes(bs: Seq<u8>) -> Seq<u8>
    decreases bs.len(),
{
    if bs.len() == 0 {
        Seq::empty()
    } else {
        ser_strbyte(bs[0]) + ser_strbytes(bs.drop_first())
    }
}

/// A whole JSON string: the escaped UTF-8 bytes of `cs` between quotes.
#[verifier::opaque]
pub open spec fn ser_jstring(cs: Seq<char>) -> Seq<u8> {
    seq![0x22u8] + ser_strbytes(encode_utf8(cs)) + seq![0x22u8]
}

/// The byte named by a short escape, if the letter is one of the eight
/// single-letter escapes.
pub open spec fn short_escape(b: u8) -> Option<u8> {
    if b == 0x22 {
        Some(0x22u8)
    } else if b == 0x5c {
        Some(0x5cu8)
    } else if b == 0x2f {
        Some(0x2fu8)
    } else if b == 0x62 {
        Some(0x08u8)
    } else if b == 0x66 {
        Some(0x0cu8)
    } else if b == 0x6e {
        Some(0x0au8)
    } else if b == 0x72 {
        Some(0x0du8)
    } else if b == 0x74 {
        Some(0x09u8)
    } else {
        None
    }
}

/// The raw bytes of a JSON string, read up to and including the closing
/// quote. `u`-escapes are accepted for ASCII values only, where one escape
/// is one byte; anything else would not survive the byte-level view.
pub open spec fn parse_strbytes(s: Seq<u8>) -> Option<(Seq<u8>, Seq<u8>)>
    decreases s.len(),
{
    if s.len() == 0 {
        None
    } else if s[0] == 0x22 {
        Some((Seq::empty(), s.drop_first()))
    } else if s[0] == 0x5c {
        if s.len() >= 2 && short_escape(s[1]) is Some {
            match parse_strbytes(s.skip(2)) {
                Some((bs, rest)) => Some((seq![short_escape(s[1])->0] + bs, rest)),
                None => None,
            }
        } else if s.len() >= 6 && s[1] == 0x75 && s[2] == 0x30 && s[3] == 0x30 && is_hex(s[4])
            && is_hex(s[5]) && hex_val(s[4]) < 8 {
            match parse_strbytes(s.skip(6)) {
                Some((bs, rest)) => Some(
                    (seq![(hex_val(s[4]) * 16 + hex_val(s[5])) as u8] + bs, rest),
                ),
                None => None,
            }
        } else {
            None
        }
    } else if s[0] >= 0x20 {
        match parse_strbytes(s.drop_first()) {
            Some((bs, rest)) => Some((seq![s[0]] + bs, rest)),
            None => None,
        }
    } else {
        None
    }
}

/// A whole JSON string as characters: its raw bytes must be well-formed
/// UTF-8, which the emitter guarantees by construction.
#[verifier::opaque]
pub open spec fn parse_jstring(s: Seq<u8>) -> Option<(Seq<char>, Seq<u8>)> {
    if s.len() > 0 && s[0] == 0x22 {
        match parse_strbytes(s.drop_first()) {
            Some((bs, rest)) => if valid_utf8(bs) {
                Some((decode_utf8(bs), rest))
            } else {
                None
            },
            None => None,
        }
    } else {
        None
    }
}

proof fn lemma_strbytes_round_trip(bs: Seq<u8>, rest: Seq<u8>)
    ensures
        parse_strbytes(ser_strbytes(bs) + seq![0x22u8] + rest) == Some((bs, rest)),
    decreases bs.len(),
{
    if bs.len() == 0 {
        let s = ser_strbytes(bs) + seq![0x22u8] + rest;
        assert(s =~= seq![0x22u8] + rest);
        assert(s[0] == 0x22u8);
        assert(s.drop_first() =~= rest);
    } else {
        let b = bs[0];
        let s = ser_strbytes(bs) + seq![0x22u8] + rest;
        let tail = ser_strbytes(bs.drop_first()) + seq![0x22u8] + rest;
        lemma_strbytes_round_trip(bs.drop_first(), rest);
        assert(s =~= ser_strbyte(b) + tail);
        if plain_strbyte(b) {
            assert(s[0] == b);
            assert(s.drop_first() =~= tail);
            assert(seq![b] + bs.drop_first() =~= bs);
        } else if b == 0x22 {
            assert(s[0] == 0x5cu8 && s[1] == 0x22u8);
            assert(s.skip(2) =~= tail);
            assert(seq![b] + bs.drop_first() =~= bs);
        } else if b == 0x5c {
            assert(s[0] == 0x5cu8 && s[1] == 0x5cu8);
            assert(s.skip(2) =~= tail);
            assert(seq![b] + bs.drop_first() =~= bs);
        } else {
            assert(b < 0x20);
            lemma_hex_digit_val((b / 16) as u8);
            lemma_hex_digit_val((b % 16) as u8);
            assert(s[0] == 0x5cu8 && s[1] == 0x75u8 && s[2] == 0x30u8 && s[3] == 0x30u8);
            assert(s[4] == hex_digit((b / 16) as u8) && s[5] == hex_digit((b % 16) as u8));
            assert(short_escape(s[1]) is None);
            assert(hex_val(s[4]) < 8);
            assert(hex_val(s[4]) * 16 + hex_val(s[5]) == (b / 16) * 16 + b % 16);
            assert((b / 16) * 16 + b % 16 == b);
            assert(s.skip(6) =~= tail);
            assert(seq![b] + bs.drop_first() =~= bs);
        }
    }
}

/// Round trip for strings: emitting any character sequence and parsing it
/// back yields the same characters.
pub proof fn lemma_jstring_round_trip(cs: Seq<char>, rest: Seq<u8>)
    ensures
        parse_jstring(ser_jstring(cs) + rest) == Some((cs, rest)),
{
    reveal(ser_jstring);
    reveal(parse_jstring);
    broadcast use vstd::utf8::encode_utf8_valid_utf8;
    broadcast use vstd::utf8::encode_utf8_decode_utf8;

    let bs = encode_utf8(cs);
    let s = ser_jstring(cs) + rest;
    assert(s[0] == 0x22u8);
    assert(s.drop_first() =~= ser_strbytes(bs) + seq![0x22u8] + rest);
    lemma_strbytes_round_trip(bs, rest);
}

/// A serialized string is never empty and opens with a quote.
pub proof fn lemma_ser_jstring_first(cs: Seq<char>)
    ensures
        ser_jstring(cs).len() > 0,
        ser_jstring(cs)[0] == 0x22u8,
{
    reveal(ser_jstring);
}

fn hex_digit_exec(v: u8) -> (r: u8)
    requires
        v < 16,
    ensures
        r == hex_digit(v),
{
    if v < 10 {
        0x30 + v
    } else {
        0x37 + v
    }
}

proof fn lemma_ser_strbytes_snoc(bs: Seq<u8>, b: u8)
    ensures
        ser_strbytes(bs.push(b)) == ser_strbytes(bs) + ser_strbyte(b),
    decreases bs.len(),
{
    if bs.len() == 0 {
        assert(bs.push(b)[0] == b);
        assert(bs.push(b).drop_first() =~= Seq::<u8>::empty());
        assert(ser_strbytes(Seq::<u8>::empty()) == Seq::<u8>::empty());
        assert(ser_strbytes(bs.push(b)) == ser_strbyte(b) + ser_strbytes(Seq::<u8>::empty()));
        assert(ser_strbyte(b) + Seq::<u8>::empty() =~= ser_strbyte(b));
        assert(ser_strbytes(bs) + ser_strbyte(b) =~= ser_strbyte(b));
    } else {
        assert(bs.push(b)[0] == bs[0]);
        assert(bs.push(b).drop_first() =~= bs.drop_first().push(b));
        lemma_ser_strbytes_snoc(bs.drop_first(), b);
        assert(ser_strbyte(bs[0]) + (ser_strbytes(bs.drop_first()) + ser_strbyte(b)) =~= (
        ser_strbyte(bs[0]) + ser_strbytes(bs.drop_first())) + ser_strbyte(b));
    }
}

/// Append the JSON string form of `st` to `buf`.
#[verifier::loop_isolation(false)]
pub fn emit_jstring(buf: &mut Vec<u8>, st: &str)
    ensures
        final(buf)@ == old(buf)@ + ser_jstring(st@),
{
    proof {
        reveal(ser_jstring);
    }
    buf.push(0x22);
    let bs = st.as_bytes();
    let n = bs.len();
    let mut k: usize = 0;
    while k < n
        invariant
            0 <= k <= n,
            buf@ == old(buf)@ + seq![0x22u8] + ser_strbytes(bs@.take(k as int)),
        decreases n - k,
    {
        let b = bs[k];
        if b >= 0x20 && b != 0x22 && b != 0x5c {
            buf.push(b);
        } else if b == 0x22 {
            buf.push(0x5c);
            buf.push(0x22);
        } else if b == 0x5c {
            buf.push(0x5c);
            buf.push(0x5c);
        } else {
            buf.push(0x5c);
            buf.push(0x75);
            buf.push(0x30);
            buf.push(0x30);
            buf.push(hex_digit_exec(b / 16));
            buf.push(hex_digit_exec(b % 16));
        }
        proof {
            lemma_ser_strbytes_snoc(bs@.take(k as int), b);
            assert(bs@.take(k + 1) =~= bs@.take(k as int).push(b));
            assert(buf@ =~= old(buf)@ + seq![0x22u8] + ser_strbytes(bs@.take(k + 1)));
        }
        k += 1;
    }
    buf.push(0x22);
    proof {
        assert(bs@.take(n as int) =~= bs@);
        assert(buf@ =~= old(buf)@ + ser_jstring(st@));
    }
}

/// The UTF-8 bytes of one Unicode scalar value.
pub fn scalar_utf8(u: u32) -> (r: Vec<u8>)
    requires
        vstd::utf8::is_scalar(u),
    ensures
        r@ == vstd::utf8::encode_scalar(u),
        1 <= r@.len() <= 4,
{
    let mut r: Vec<u8> = Vec::new();
    if u <= 0x7F {
        r.push((u & 0x7F) as u8);
    } else if u <= 0x7FF {
        r.push(0xC0 | ((u >> 6) & 0x1F) as u8);
        r.push(0x80 | (u & 0x3F) as u8);
    } else if u <= 0xFFFF {
        r.push(0xE0 | ((u >> 12) & 0x0F) as u8);
        r.push(0x80 | ((u >> 6) & 0x3F) as u8);
        r.push(0x80 | (u & 0x3F) as u8);
    } else {
        r.push(0xF0 | ((u >> 18) & 0x7) as u8);
        r.push(0x80 | ((u >> 12) & 0x3F) as u8);
        r.push(0x80 | ((u >> 6) & 0x3F) as u8);
        r.push(0x80 | (u & 0x3F) as u8);
    }
    proof {
        assert(r@ =~= vstd::utf8::encode_scalar(u));
    }
    r
}

/// `prepend` lifted over the result of `parse_strbytes`.
pub open spec fn prepend_bytes(pre: Seq<u8>, r: Option<(Seq<u8>, Seq<u8>)>) -> Option<
    (Seq<u8>, Seq<u8>),
> {
    match r {
        Some((bs, rest)) => Some((pre + bs, rest)),
        None => None,
    }
}

pub(crate) fn short_escape_exec(b: u8) -> (r: Option<u8>)
    ensures
        r == short_escape(b),
{
    if b == 0x22 {
        Some(0x22)
    } else if b == 0x5c {
        Some(0x5c)
    } else if b == 0x2f {
        Some(0x2f)
    } else if b == 0x62 {
        Some(0x08)
    } else if b == 0x66 {
        Some(0x0c)
    } else if b == 0x6e {
        Some(0x0a)
    } else if b == 0x72 {
        Some(0x0d)
    } else if b == 0x74 {
        Some(0x09)
    } else {
        None
    }
}

pub(crate) fn is_hex_exec(b: u8) -> (r: bool)
    ensures
        r == is_hex(b),
{
    (0x30 <= b && b <= 0x39) || (0x41 <= b && b <= 0x46) || (0x61 <= b && b <= 0x66)
}

pub(crate) fn hex_val_exec(b: u8) -> (r: u8)
    requires
        is_hex(b),
    ensures
        r == hex_val(b),
{
    if 0x30 <= b && b <= 0x39 {
        b - 0x30
    } else if b <= 0x46 {
        b - 0x37
    } else {
        b - 0x57
    }
}

/// Scan a JSON string at position `i`, returning its decoded characters.
#[verifier::loop_isolation(false)]
pub fn scan_jstring(s: &Vec<u8>, i: usize) -> (r: Option<(String, usize)>)
    requires
        i <= s.len(),
    ensures
        match r {
            Some((st, j)) => {
                &&& i <= j <= s.len()
                &&& parse_jstring(s@.skip(i as int)) == Some((st@, s@.skip(j as int)))
            },
            None => parse_jstring(s@.skip(i as int)) is None,
        },
{
    proof {
        reveal(parse_jstring);
    }
    if i == s.len() || s[i] != 0x22 {
        if i < s.len() {
            assert(s@.skip(i as int)[0] == s@[i as int]);
        }
        return None;
    }
    assert(s@.skip(i as int)[0] == 0x22u8);
    assert(s@.skip(i as int).drop_first() =~= s@.skip(i + 1));
    let mut out: Vec<u8> = Vec::new();
    let mut j: usize = i + 1;
    loop
        invariant
            i + 1 <= j <= s.len(),
            parse_strbytes(s@.skip(i + 1)) == prepend_bytes(out@, parse_strbytes(s@.skip(j as int))),
        decreases s.len() - j,
    {
        let ghost suf = s@.skip(j as int);
        proof {
            assert(forall|m: int| 0 <= m < suf.len() ==> suf[m] == s@[j + m]);
        }
        if j == s.len() {
            assert(parse_strbytes(suf) is None);
            return None;
        }
        let b = s[j];
        if b == 0x22 {
            // closing quote
            assert(parse_strbytes(suf) == Some((Seq::<u8>::empty(), suf.drop_first())));
            assert(suf.drop_first() =~= s@.skip(j + 1));
            assert(out@ + Seq::<u8>::empty() =~= out@);
            match crate::ext::bytes_to_string(out) {
                Some(st) => {
                    return Some((st, j + 1));
                },
                None => {
                    return None;
                },
            }
        } else if b == 0x5c {
            if s.len() - j >= 2 {
                match short_escape_exec(s[j + 1]) {
                    Some(v) => {
                        proof {
                            assert(suf[1] == s@[j + 1]);
                            assert(suf.skip(2) =~= s@.skip(j + 2));
                            let inner = parse_strbytes(s@.skip(j + 2));
                            assert(parse_strbytes(suf) == prepend_bytes(seq![v], inner));
                            match inner {
                                Some((bs2, rest2)) => {
                                    assert(out@ + (seq![v] + bs2) =~= out@.push(v) + bs2);
                                },
                                None => {},
                            }
                        }
                        out.push(v);
                        j += 2;
                    },
                    None => {
                        // must be a u-escape of an ASCII value
                        if s.len() - j >= 6 && s[j + 1] == 0x75 && s[j + 2] == 0x30 && s[j + 3]
                            == 0x30 && is_hex_exec(s[j + 4]) && is_hex_exec(s[j + 5]) {
                            let hi = hex_val_exec(s[j + 4]);
                            if hi < 8 {
                                let lo = hex_val_exec(s[j + 5]);
                                let v = hi * 16 + lo;
                                proof {
                                    assert(suf.skip(6) =~= s@.skip(j + 6));
                                    let inner = parse_strbytes(s@.skip(j + 6));
                                    assert(parse_strbytes(suf) == prepend_bytes(seq![v], inner));
                                    match inner {
                                        Some((bs2, rest2)) => {
                                            assert(out@ + (seq![v] + bs2) =~= out@.push(v) + bs2);
                                        },
                                        None => {},
                                    }
                                }
                                out.push(v);
                                j += 6;
                            } else {
                                assert(parse_strbytes(suf) is None);
                                return None;
                            }
                        } else {
                            assert(parse_strbytes(suf) is None);
                            return None;
                        }
                    },
                }
            } else {
                assert(parse_strbytes(suf) is None);
                return None;
            }
        } else if b >= 0x20 {
            proof {
                assert(suf.drop_first() =~= s@.skip(j + 1));
                let inner = parse_strbytes(s@.skip(j + 1));
                assert(parse_strbytes(suf) == prepend_bytes(seq![b], inner));
                match inner {
                    Some((bs2, rest2)) => {
                        assert(out@ + (seq![b] + bs2) =~= out@.push(b) + bs2);
                    },
                    None => {},
                }
            }
            out.push(b);
            j += 1;
        } else {
            assert(parse_strbytes(suf) is None);
            return None;
        }
    }
}

} // verus!
