//! The grammar of the gateway's responses. Unlike the cache file, which this
//! crate both writes and reads in one canonical shape, a response is written
//! by the remote server: object members arrive in any order, absent optional
//! members are simply omitted, the detail records carry their category under
//! the key `type`, unknown members may appear, tokens may be separated by
//! whitespace, and strings use the standard escapes. The `parse_r*` spec
//! functions define that grammar; the scanners are proved to implement them.

use vstd::prelude::*;
use vstd::utf8::decode_utf8;
use vstd::utf8::encode_scalar;
use vstd::utf8::is_scalar;
use vstd::utf8::valid_utf8;

use crate::json::hex_val;
use crate::json::hex_val_exec;
use crate::json::is_digit;
use crate::json::is_hex;
use crate::json::is_hex_exec;
use crate::json::prepend_bytes;
use crate::combinators::prepend_vals;
use crate::json::scalar_utf8;
use crate::json::short_escape;
use crate::json::short_escape_exec;
use crate::json::spec_lit;
use crate::json::true_lit;
use crate::json::false_lit;
use crate::json::parse_bool;
use crate::combinators::null_lit;
use crate::codec::parse_i32;
use crate::codec::parse_usize;
use crate::codec::tag_lit;
use crate::api::AccessCondition;
use crate::api::AccountAchievement;
use crate::api::AccountAchievementModel;
use crate::api::Achievement;
use crate::api::AchievementBit;
use crate::api::AchievementBitModel;
use crate::api::AchievementModel;
use crate::api::AchievementTier;
use crate::api::Dailies;
use crate::api::DailiesModel;
use crate::api::Daily;
use crate::api::LevelRange;
use crate::api::Product;
use crate::api::RequiredAccess;
use crate::api::Reward;
use crate::api::RewardModel;

verus! {

// ---------------------------------------------------------------------------
// Whitespace
// ---------------------------------------------------------------------------

pub open spec fn is_ws(b: u8) -> bool {
    b == 0x20 || b == 0x09 || b == 0x0a || b == 0x0d
}

/// The input with its leading whitespace dropped.
pub open spec fn skip_ws(s: Seq<u8>) -> Seq<u8>
    decreases s.len(),
{
    if s.len() > 0 && is_ws(s[0]) {
        skip_ws(s.drop_first())
    } else {
        s
    }
}

pub proof fn lemma_skip_ws_len(s: Seq<u8>)
    ensures
        skip_ws(s).len() <= s.len(),
    decreases s.len(),
{
    if s.len() > 0 && is_ws(s[0]) {
        lemma_skip_ws_len(s.drop_first());
    }
}

/// Step past whitespace at position `i`.
#[verifier::loop_isolation(false)]
pub fn scan_rws(s: &Vec<u8>, i: usize) -> (j: usize)
    requires
        i <= s.len(),
    ensures
        i <= j <= s.len(),
        skip_ws(s@.skip(i as int)) == s@.skip(j as int),
{
    let mut j = i;
    while j < s.len() && (s[j] == 0x20 || s[j] == 0x09 || s[j] == 0x0a || s[j] == 0x0d)
        invariant
            i <= j <= s.len(),
            skip_ws(s@.skip(i as int)) == skip_ws(s@.skip(j as int)),
        decreases s.len() - j,
    {
        proof {
            assert(s@.skip(j as int)[0] == s@[j as int]);
            assert(s@.skip(j as int).drop_first() =~= s@.skip(j + 1));
        }
        j += 1;
    }
    proof {
        if j < s.len() {
            assert(s@.skip(j as int)[0] == s@[j as int]);
        }
        assert(skip_ws(s@.skip(j as int)) == s@.skip(j as int));
    }
    j
}

// ---------------------------------------------------------------------------
// Strings, with the standard escapes
// ---------------------------------------------------------------------------

pub open spec fn hex4_ok(s: Seq<u8>) -> bool {
    s.len() >= 4 && is_hex(s[0]) && is_hex(s[1]) && is_hex(s[2]) && is_hex(s[3])
}

pub open spec fn hex4_val(s: Seq<u8>) -> u32 {
    ((hex_val(s[0]) as u32) * 0x1000 + (hex_val(s[1]) as u32) * 0x100 + (hex_val(s[2]) as u32)
        * 0x10 + (hex_val(s[3]) as u32)) as u32
}

/// The raw UTF-8 bytes of a response string, read up to and including the
/// closing quote: raw bytes pass through, the short escapes and `u`-escapes
/// name their character — a surrogate pair as one scalar — and a lone
/// surrogate is malformed.
pub open spec fn parse_rstrbytes(s: Seq<u8>) -> Option<(Seq<u8>, Seq<u8>)>
    decreases s.len(),
{
    if s.len() == 0 {
        None
    } else if s[0] == 0x22 {
        Some((Seq::empty(), s.drop_first()))
    } else if s[0] == 0x5c {
        if s.len() >= 2 && short_escape(s[1]) is Some {
            prepend_bytes(seq![short_escape(s[1])->0], parse_rstrbytes(s.skip(2)))
        } else if s.len() >= 6 && s[1] == 0x75 && hex4_ok(s.subrange(2, 6)) {
            let v = hex4_val(s.subrange(2, 6));
            if 0xD800 <= v <= 0xDBFF {
                if s.len() >= 12 && s[6] == 0x5c && s[7] == 0x75 && hex4_ok(s.subrange(8, 12)) {
                    let w = hex4_val(s.subrange(8, 12));
                    if 0xDC00 <= w <= 0xDFFF {
                        let sc = (0x10000 + (v - 0xD800) * 0x400 + (w - 0xDC00)) as u32;
                        prepend_bytes(encode_scalar(sc), parse_rstrbytes(s.skip(12)))
                    } else {
                        None
                    }
                } else {
                    None
                }
            } else if 0xDC00 <= v <= 0xDFFF {
                None
            } else {
                prepend_bytes(encode_scalar(v), parse_rstrbytes(s.skip(6)))
            }
        } else {
            None
        }
    } else if s[0] >= 0x20 {
        prepend_bytes(seq![s[0]], parse_rstrbytes(s.drop_first()))
    } else {
        None
    }
}

/// A whole response string as characters, leading whitespace allowed.
pub open spec fn parse_rstring(s: Seq<u8>) -> Option<(Seq<char>, Seq<u8>)> {
    let t = skip_ws(s);
    if t.len() > 0 && t[0] == 0x22 {
        match parse_rstrbytes(t.drop_first()) {
            Some((bs, rest)) => if valid_utf8(bs) {
                Some((decode_utf8(bs), rest))
            } else {
                None
            },
            None => None,
        }
    } else {
        None
    }
}

fn scan_hex4(s: &Vec<u8>, i: usize) -> (r: Option<u32>)
    requires
        i <= s.len(),
    ensures
        r is Some <==> hex4_ok(s@.skip(i as int).take(4)) && s@.skip(i as int).len() >= 4,
        r is Some ==> r->0 == hex4_val(s@.skip(i as int).take(4)) && r->0 <= 0xFFFF,
{
    let ghost suf = s@.skip(i as int);
    proof {
        assert(forall|m: int| 0 <= m < suf.len() ==> suf[m] == s@[i + m]);
        if suf.len() >= 4 {
            assert(forall|m: int| 0 <= m < 4 ==> suf.take(4)[m] == s@[i + m]);
        }
    }
    if s.len() - i < 4 {
        return None;
    }
    if !(is_hex_exec(s[i]) && is_hex_exec(s[i + 1]) && is_hex_exec(s[i + 2]) && is_hex_exec(
        s[i + 3],
    )) {
        return None;
    }
    let v = (hex_val_exec(s[i]) as u32) * 0x1000 + (hex_val_exec(s[i + 1]) as u32) * 0x100 + (
    hex_val_exec(s[i + 2]) as u32) * 0x10 + (hex_val_exec(s[i + 3]) as u32);
    Some(v)
}

fn push_all(out: &mut Vec<u8>, enc: &Vec<u8>)
    ensures
        final(out)@ == old(out)@ + enc@,
{
    let mut e: usize = 0;
    let ghost outpre = out@;
    while e < enc.len()
        invariant
            0 <= e <= enc.len(),
            out@ == outpre + enc@.take(e as int),
        decreases enc.len() - e,
    {
        out.push(enc[e]);
        assert(out@ =~= outpre + enc@.take(e + 1));
        e += 1;
    }
    proof {
        assert(enc@.take(enc@.len() as int) =~= enc@);
    }
}

/// Handle one escape sequence at position `j` (which holds the backslash),
/// appending the named bytes to `out`.
#[verifier::rlimit(100)]
fn scan_rescape(s: &Vec<u8>, j: usize, out: &mut Vec<u8>) -> (r: Option<usize>)
    requires
        j < s.len(),
        s@[j as int] == 0x5c,
    ensures
        match r {
            Some(j2) => {
                &&& j < j2 <= s.len()
                &&& final(out)@.len() >= old(out)@.len()
                &&& final(out)@.take(old(out)@.len() as int) == old(out)@
                &&& parse_rstrbytes(s@.skip(j as int)) == prepend_bytes(
                    final(out)@.skip(old(out)@.len() as int),
                    parse_rstrbytes(s@.skip(j2 as int)),
                )
            },
            None => parse_rstrbytes(s@.skip(j as int)) is None && final(out)@ == old(out)@,
        },
{
    let ghost suf = s@.skip(j as int);
    proof {
        assert(forall|m: int| 0 <= m < suf.len() ==> suf[m] == s@[j + m]);
    }
    if s.len() - j < 2 {
        assert(parse_rstrbytes(suf) is None);
        return None;
    }
    match short_escape_exec(s[j + 1]) {
        Some(v) => {
            proof {
                assert(suf[1] == s@[j + 1]);
                assert(suf.skip(2) =~= s@.skip(j + 2));
            }
            out.push(v);
            proof {
                assert(out@.take(old(out)@.len() as int) =~= old(out)@);
                assert(out@.skip(old(out)@.len() as int) =~= seq![v]);
            }
            Some(j + 2)
        },
        None => {
            if s[j + 1] != 0x75 {
                assert(parse_rstrbytes(suf) is None);
                return None;
            }
            proof {
                assert(suf[1] == s@[j + 1]);
                assert(suf.skip(2) =~= s@.skip(j + 2));
                if suf.len() >= 6 {
                    assert(suf.subrange(2, 6) =~= s@.skip(j + 2).take(4));
                }
            }
            let v = match scan_hex4(s, j + 2) {
                Some(v) => v,
                None => {
                    assert(parse_rstrbytes(suf) is None);
                    return None;
                },
            };
            assert(suf.len() >= 6 && hex4_ok(suf.subrange(2, 6)) && v == hex4_val(
                suf.subrange(2, 6),
            ));
            if 0xD800 <= v && v <= 0xDBFF {
                if s.len() - j < 12 || !(s[j + 6] == 0x5c && s[j + 7] == 0x75) {
                    assert(parse_rstrbytes(suf) is None);
                    return None;
                }
                proof {
                    assert(suf[6] == s@[j + 6] && suf[7] == s@[j + 7]);
                    assert(suf.subrange(8, 12) =~= s@.skip(j + 8).take(4));
                }
                let w2 = match scan_hex4(s, j + 8) {
                    Some(w2) => w2,
                    None => {
                        assert(parse_rstrbytes(suf) is None);
                        return None;
                    },
                };
                assert(hex4_ok(suf.subrange(8, 12)) && w2 == hex4_val(suf.subrange(8, 12)));
                if !(0xDC00 <= w2 && w2 <= 0xDFFF) {
                    assert(parse_rstrbytes(suf) is None);
                    return None;
                }
                let sc = 0x10000 + (v - 0xD800) * 0x400 + (w2 - 0xDC00);
                proof {
                    assert(is_scalar(sc));
                }
                let enc = scalar_utf8(sc);
                proof {
                    assert(suf.skip(12) =~= s@.skip(j + 12));
                    assert(parse_rstrbytes(suf) == prepend_bytes(
                        enc@,
                        parse_rstrbytes(s@.skip(j + 12)),
                    ));
                }
                push_all(out, &enc);
                proof {
                    assert(out@.take(old(out)@.len() as int) =~= old(out)@);
                    assert(out@.skip(old(out)@.len() as int) =~= enc@);
                }
                Some(j + 12)
            } else if 0xDC00 <= v && v <= 0xDFFF {
                assert(parse_rstrbytes(suf) is None);
                None
            } else {
                proof {
                    assert(is_scalar(v));
                }
                let enc = scalar_utf8(v);
                proof {
                    assert(suf.skip(6) =~= s@.skip(j + 6));
                    assert(parse_rstrbytes(suf) == prepend_bytes(
                        enc@,
                        parse_rstrbytes(s@.skip(j + 6)),
                    ));
                }
                push_all(out, &enc);
                proof {
                    assert(out@.take(old(out)@.len() as int) =~= old(out)@);
                    assert(out@.skip(old(out)@.len() as int) =~= enc@);
                }
                Some(j + 6)
            }
        },
    }
}

/// Scan a response string at position `i`, returning its characters.
#[verifier::rlimit(100)]
#[verifier::spinoff_prover]
pub fn scan_rstring(s: &Vec<u8>, i: usize) -> (r: Option<(String, usize)>)
    requires
        i <= s.len(),
    ensures
        match r {
            Some((st, j)) => {
                &&& i <= j <= s.len()
                &&& parse_rstring(s@.skip(i as int)) == Some((st@, s@.skip(j as int)))
            },
            None => parse_rstring(s@.skip(i as int)) is None,
        },
{
    let w = scan_rws(s, i);
    if w == s.len() || s[w] != 0x22 {
        if w < s.len() {
            assert(s@.skip(w as int)[0] == s@[w as int]);
        }
        return None;
    }
    assert(s@.skip(w as int)[0] == 0x22u8);
    assert(s@.skip(w as int).drop_first() =~= s@.skip(w + 1));
    let mut out: Vec<u8> = Vec::new();
    let mut j: usize = w + 1;
    loop
        invariant
            i <= w < s.len(),
            skip_ws(s@.skip(i as int)) == s@.skip(w as int),
            s@.skip(w as int)[0] == 0x22,
            s@.skip(w as int).drop_first() == s@.skip(w + 1),
            w + 1 <= j <= s.len(),
            parse_rstrbytes(s@.skip(w + 1)) == prepend_bytes(
                out@,
                parse_rstrbytes(s@.skip(j as int)),
            ),
        decreases s.len() - j,
    {
        let ghost suf = s@.skip(j as int);
        proof {
            assert(forall|m: int| 0 <= m < suf.len() ==> suf[m] == s@[j + m]);
        }
        if j == s.len() {
            assert(parse_rstrbytes(suf) is None);
            return None;
        }
        let b = s[j];
        if b == 0x22 {
            assert(parse_rstrbytes(suf) == Some((Seq::<u8>::empty(), suf.drop_first())));
            assert(suf.drop_first() =~= s@.skip(j + 1));
            assert(out@ + Seq::<u8>::empty() =~= out@);
            match crate::ext::bytes_to_string(out) {
                Some(st) => {
                    return Some((st, j + 1));
                },
                None => {
                    return None;
                },
            }
        } else if b == 0x5c {
            let ghost outpre = out@;
            match scan_rescape(s, j, &mut out) {
                Some(j2) => {
                    proof {
                        let app = out@.skip(outpre.len() as int);
                        let inner = parse_rstrbytes(s@.skip(j2 as int));
                        assert(out@ =~= outpre + app);
                        match inner {
                            Some((bs2, rest2)) => {
                                assert(outpre + (app + bs2) =~= (outpre + app) + bs2);
                            },
                            None => {},
                        }
                    }
                    j = j2;
                },
                None => {
                    return None;
                },
            }
        } else if b >= 0x20 {
            proof {
                assert(suf.drop_first() =~= s@.skip(j + 1));
                let inner = parse_rstrbytes(s@.skip(j + 1));
                assert(parse_rstrbytes(suf) == prepend_bytes(seq![b], inner));
                match inner {
                    Some((bs2, rest2)) => {
                        assert(out@ + (seq![b] + bs2) =~= out@.push(b) + bs2);
                    },
                    None => {},
                }
            }
            out.push(b);
            j = j + 1;
        } else {
            assert(parse_rstrbytes(suf) is None);
            return None;
        }
    }
}


// ---------------------------------------------------------------------------
// Skipping unknown members
// ---------------------------------------------------------------------------

pub open spec fn is_num_byte(b: u8) -> bool {
    is_digit(b) || b == 0x2d || b == 0x2b || b == 0x2e || b == 0x65 || b == 0x45
}

/// Drop a run of number characters.
pub open spec fn skip_num(s: Seq<u8>) -> Seq<u8>
    decreases s.len(),
{
    if s.len() > 0 && is_num_byte(s[0]) {
        skip_num(s.drop_first())
    } else {
        s
    }
}

/// Step past a string whose value is not wanted: any escaped pair passes.
pub open spec fn skip_string(s: Seq<u8>) -> Option<Seq<u8>>
    decreases s.len(),
{
    if s.len() == 0 {
        None
    } else if s[0] == 0x22 {
        Some(s.drop_first())
    } else if s[0] == 0x5c {
        if s.len() >= 2 {
            skip_string(s.skip(2))
        } else {
            None
        }
    } else {
        skip_string(s.drop_first())
    }
}

/// Step past one JSON value of any shape. The length guards make the
/// recursion structural; whitespace never lengthens the input, so they
/// never refuse a real document.
pub open spec fn skip_value(s: Seq<u8>) -> Option<Seq<u8>>
    decreases s.len(), 0int,
{
    let t = skip_ws(s);
    if t.len() == 0 {
        None
    } else if t[0] == 0x22 {
        skip_string(t.drop_first())
    } else if t[0] == 0x5b {
        if t.drop_first().len() < s.len() {
            skip_elems(t.drop_first())
        } else {
            None
        }
    } else if t[0] == 0x7b {
        if t.drop_first().len() < s.len() {
            skip_members(t.drop_first())
        } else {
            None
        }
    } else if t[0] == 0x74 {
        spec_lit(t, true_lit())
    } else if t[0] == 0x66 {
        spec_lit(t, false_lit())
    } else if t[0] == 0x6e {
        spec_lit(t, null_lit())
    } else if is_digit(t[0]) || t[0] == 0x2d {
        Some(skip_num(t))
    } else {
        None
    }
}

/// Step past the elements of an array, up to and including the bracket.
pub open spec fn skip_elems(s: Seq<u8>) -> Option<Seq<u8>>
    decreases s.len(), 1int,
{
    let t = skip_ws(s);
    if t.len() == 0 {
        None
    } else if t[0] == 0x5d {
        Some(t.drop_first())
    } else if t.len() <= s.len() {
        match skip_value(t) {
            None => None,
            Some(r) => {
                let u = skip_ws(r);
                if u.len() == 0 {
                    None
                } else if u[0] == 0x2c {
                    if u.drop_first().len() < s.len() {
                        skip_elems(u.drop_first())
                    } else {
                        None
                    }
                } else if u[0] == 0x5d {
                    Some(u.drop_first())
                } else {
                    None
                }
            },
        }
    } else {
        None
    }
}

/// Step past the members of an object, up to and including the brace.
pub open spec fn skip_members(s: Seq<u8>) -> Option<Seq<u8>>
    decreases s.len(), 1int,
{
    let t = skip_ws(s);
    if t.len() == 0 {
        None
    } else if t[0] == 0x7d {
        Some(t.drop_first())
    } else if t[0] == 0x22 {
        match skip_string(t.drop_first()) {
            None => None,
            Some(r1) => {
                let u = skip_ws(r1);
                if u.len() == 0 || u[0] != 0x3a {
                    None
                } else if u.drop_first().len() <= s.len() {
                    match skip_value(u.drop_first()) {
                        None => None,
                        Some(r2) => {
                            let w = skip_ws(r2);
                            if w.len() == 0 {
                                None
                            } else if w[0] == 0x2c {
                                if w.drop_first().len() < s.len() {
                                    skip_members(w.drop_first())
                                } else {
                                    None
                                }
                            } else if w[0] == 0x7d {
                                Some(w.drop_first())
                            } else {
                                None
                            }
                        },
                    }
                } else {
                    None
                }
            },
        }
    } else {
        None
    }
}

#[verifier::loop_isolation(false)]
fn scan_skip_num(s: &Vec<u8>, i: usize) -> (j: usize)
    requires
        i <= s.len(),
    ensures
        i <= j <= s.len(),
        skip_num(s@.skip(i as int)) == s@.skip(j as int),
{
    let mut j = i;
    while j < s.len() && (
        (0x30 <= s[j] && s[j] <= 0x39) || s[j] == 0x2d || s[j] == 0x2b || s[j] == 0x2e || s[j]
        == 0x65 || s[j] == 0x45
    )
        invariant
            i <= j <= s.len(),
            skip_num(s@.skip(i as int)) == skip_num(s@.skip(j as int)),
        decreases s.len() - j,
    {
        proof {
            assert(s@.skip(j as int)[0] == s@[j as int]);
            assert(s@.skip(j as int).drop_first() =~= s@.skip(j + 1));
        }
        j += 1;
    }
    proof {
        if j < s.len() {
            assert(s@.skip(j as int)[0] == s@[j as int]);
        }
        assert(skip_num(s@.skip(j as int)) == s@.skip(j as int));
    }
    j
}

#[verifier::loop_isolation(false)]
fn scan_skip_string(s: &Vec<u8>, i: usize) -> (r: Option<usize>)
    requires
        i <= s.len(),
    ensures
        match r {
            Some(j) => i <= j <= s.len() && skip_string(s@.skip(i as int)) == Some(
                s@.skip(j as int),
            ),
            None => skip_string(s@.skip(i as int)) is None,
        },
{
    let mut j = i;
    loop
        invariant
            i <= j <= s.len(),
            skip_string(s@.skip(i as int)) == skip_string(s@.skip(j as int)),
        decreases s.len() - j,
    {
        let ghost suf = s@.skip(j as int);
        proof {
            assert(forall|m: int| 0 <= m < suf.len() ==> suf[m] == s@[j + m]);
        }
        if j == s.len() {
            return None;
        }
        let b = s[j];
        if b == 0x22 {
            assert(suf.drop_first() =~= s@.skip(j + 1));
            return Some(j + 1);
        } else if b == 0x5c {
            if s.len() - j < 2 {
                return None;
            }
            assert(suf.skip(2) =~= s@.skip(j + 2));
            j = j + 2;
        } else {
            assert(suf.drop_first() =~= s@.skip(j + 1));
            j = j + 1;
        }
    }
}

fn scan_skip_value(s: &Vec<u8>, i: usize) -> (r: Option<usize>)
    requires
        i <= s.len(),
    ensures
        match r {
            Some(j) => i <= j <= s.len() && skip_value(s@.skip(i as int)) == Some(
                s@.skip(j as int),
            ),
            None => skip_value(s@.skip(i as int)) is None,
        },
    decreases s.len() - i, 0int,
{
    let ghost whole = s@.skip(i as int);
    let w = scan_rws(s, i);
    proof {
        lemma_skip_ws_len(whole);
    }
    if w == s.len() {
        return None;
    }
    let ghost t = s@.skip(w as int);
    proof {
        assert(forall|m: int| 0 <= m < t.len() ==> t[m] == s@[w + m]);
        assert(t.drop_first() =~= s@.skip(w + 1));
    }
    let b = s[w];
    if b == 0x22 {
        scan_skip_string(s, w + 1)
    } else if b == 0x5b {
        scan_skip_elems(s, w + 1, Ghost(i as int))
    } else if b == 0x7b {
        scan_skip_members(s, w + 1, Ghost(i as int))
    } else if b == 0x74 {
        match crate::json::scan_bool(s, w) {
            Some((v, j)) => {
                proof {
                    assert(spec_lit(t, true_lit()) == Some(s@.skip(j as int)));
                }
                Some(j)
            },
            None => {
                assert(spec_lit(t, true_lit()) is None);
                None
            },
        }
    } else if b == 0x66 {
        match crate::json::scan_bool(s, w) {
            Some((v, j)) => {
                proof {
                    assert(spec_lit(t, false_lit()) == Some(s@.skip(j as int)));
                }
                Some(j)
            },
            None => {
                assert(spec_lit(t, false_lit()) is None);
                None
            },
        }
    } else if b == 0x6e {
        match crate::combinators::scan_null(s, w) {
            Some(j) => Some(j),
            None => None,
        }
    } else if (0x30 <= b && b <= 0x39) || b == 0x2d {
        Some(scan_skip_num(s, w))
    } else {
        None
    }
}

fn scan_skip_elems(s: &Vec<u8>, i: usize, outer: Ghost<int>) -> (r: Option<usize>)
    requires
        i <= s.len(),
        0 <= outer@ <= i,
        i > outer@,
    ensures
        match r {
            Some(j) => i <= j <= s.len() && skip_elems(s@.skip(i as int)) == Some(
                s@.skip(j as int),
            ),
            None => skip_elems(s@.skip(i as int)) is None,
        },
    decreases s.len() - i, 1int,
{
    let ghost whole = s@.skip(i as int);
    let w = scan_rws(s, i);
    proof {
        lemma_skip_ws_len(whole);
    }
    let ghost t = s@.skip(w as int);
    if w == s.len() {
        return None;
    }
    proof {
        assert(t[0] == s@[w as int]);
        assert(t.drop_first() =~= s@.skip(w + 1));
    }
    if s[w] == 0x5d {
        return Some(w + 1);
    }
    assert(t.len() <= whole.len());
    let r1 = match scan_skip_value(s, w) {
        Some(r1) => r1,
        None => {
            return None;
        },
    };
    let u = scan_rws(s, r1);
    proof {
        lemma_skip_ws_len(s@.skip(r1 as int));
    }
    if u == s.len() {
        return None;
    }
    let ghost uu = s@.skip(u as int);
    proof {
        assert(uu[0] == s@[u as int]);
        assert(uu.drop_first() =~= s@.skip(u + 1));
    }
    if s[u] == 0x2c {
        assert(uu.drop_first().len() < whole.len());
        scan_skip_elems(s, u + 1, outer)
    } else if s[u] == 0x5d {
        Some(u + 1)
    } else {
        None
    }
}

fn scan_skip_members(s: &Vec<u8>, i: usize, outer: Ghost<int>) -> (r: Option<usize>)
    requires
        i <= s.len(),
        0 <= outer@ <= i,
        i > outer@,
    ensures
        match r {
            Some(j) => i <= j <= s.len() && skip_members(s@.skip(i as int)) == Some(
                s@.skip(j as int),
            ),
            None => skip_members(s@.skip(i as int)) is None,
        },
    decreases s.len() - i, 1int,
{
    let ghost whole = s@.skip(i as int);
    let w = scan_rws(s, i);
    proof {
        lemma_skip_ws_len(whole);
    }
    let ghost t = s@.skip(w as int);
    if w == s.len() {
        return None;
    }
    proof {
        assert(t[0] == s@[w as int]);
        assert(t.drop_first() =~= s@.skip(w + 1));
    }
    if s[w] == 0x7d {
        return Some(w + 1);
    }
    if s[w] != 0x22 {
        return None;
    }
    let r1 = match scan_skip_string(s, w + 1) {
        Some(r1) => r1,
        None => {
            return None;
        },
    };
    let u = scan_rws(s, r1);
    proof {
        lemma_skip_ws_len(s@.skip(r1 as int));
    }
    if u == s.len() || s[u] != 0x3a {
        if u < s.len() {
            assert(s@.skip(u as int)[0] == s@[u as int]);
        }
        return None;
    }
    proof {
        assert(s@.skip(u as int)[0] == 0x3au8);
        assert(s@.skip(u as int).drop_first() =~= s@.skip(u + 1));
    }
    let r2 = match scan_skip_value(s, u + 1) {
        Some(r2) => r2,
        None => {
            return None;
        },
    };
    let w2 = scan_rws(s, r2);
    proof {
        lemma_skip_ws_len(s@.skip(r2 as int));
    }
    if w2 == s.len() {
        return None;
    }
    let ghost ww = s@.skip(w2 as int);
    proof {
        assert(ww[0] == s@[w2 as int]);
        assert(ww.drop_first() =~= s@.skip(w2 + 1));
    }
    if s[w2] == 0x2c {
        assert(ww.drop_first().len() < whole.len());
        scan_skip_members(s, w2 + 1, outer)
    } else if s[w2] == 0x7d {
        Some(w2 + 1)
    } else {
        None
    }
}

// ---------------------------------------------------------------------------
// Leaf values, leading whitespace allowed
// ---------------------------------------------------------------------------

pub open spec fn parse_rusize(s: Seq<u8>) -> Option<(usize, Seq<u8>)> {
    parse_usize(skip_ws(s))
}

pub open spec fn parse_ri32(s: Seq<u8>) -> Option<(i32, Seq<u8>)> {
    parse_i32(skip_ws(s))
}

pub open spec fn parse_rbool(s: Seq<u8>) -> Option<(bool, Seq<u8>)> {
    parse_bool(skip_ws(s))
}

pub fn scan_rusize(s: &Vec<u8>, i: usize) -> (r: Option<(usize, usize)>)
    requires
        i <= s.len(),
    ensures
        match r {
            Some((v, j)) => i <= j <= s.len() && parse_rusize(s@.skip(i as int)) == Some(
                (v, s@.skip(j as int)),
            ),
            None => parse_rusize(s@.skip(i as int)) is None,
        },
{
    let w = scan_rws(s, i);
    crate::reader::scan_usize(s, w)
}

pub fn scan_ri32(s: &Vec<u8>, i: usize) -> (r: Option<(i32, usize)>)
    requires
        i <= s.len(),
    ensures
        match r {
            Some((v, j)) => i <= j <= s.len() && parse_ri32(s@.skip(i as int)) == Some(
                (v, s@.skip(j as int)),
            ),
            None => parse_ri32(s@.skip(i as int)) is None,
        },
{
    let w = scan_rws(s, i);
    crate::reader::scan_i32(s, w)
}

pub fn scan_rbool(s: &Vec<u8>, i: usize) -> (r: Option<(bool, usize)>)
    requires
        i <= s.len(),
    ensures
        match r {
            Some((v, j)) => i <= j <= s.len() && parse_rbool(s@.skip(i as int)) == Some(
                (v, s@.skip(j as int)),
            ),
            None => parse_rbool(s@.skip(i as int)) is None,
        },
{
    let w = scan_rws(s, i);
    crate::json::scan_bool(s, w)
}

// ---------------------------------------------------------------------------
// Objects, member by member, in any order
// ---------------------------------------------------------------------------

/// The colon between a member's key and its value.
pub open spec fn after_colon(s: Seq<u8>) -> Option<Seq<u8>> {
    let u = skip_ws(s);
    if u.len() > 0 && u[0] == 0x3a {
        Some(u.drop_first())
    } else {
        None
    }
}

fn expect_colon(s: &Vec<u8>, i: usize) -> (r: Option<usize>)
    requires
        i <= s.len(),
    ensures
        match r {
            Some(j) => i <= j <= s.len() && after_colon(s@.skip(i as int)) == Some(
                s@.skip(j as int),
            ),
            None => after_colon(s@.skip(i as int)) is None,
        },
{
    let w = scan_rws(s, i);
    if w < s.len() && s[w] == 0x3a {
        proof {
            assert(s@.skip(w as int)[0] == s@[w as int]);
            assert(s@.skip(w as int).drop_first() =~= s@.skip(w + 1));
        }
        Some(w + 1)
    } else {
        if w < s.len() {
            assert(s@.skip(w as int)[0] == s@[w as int]);
        }
        None
    }
}

/// Skip one member whose key is not known: its key string, the colon, and
/// its value of whatever shape.
pub open spec fn skip_rmember(t: Seq<u8>) -> Option<Seq<u8>> {
    if t.len() > 0 && t[0] == 0x22 {
        match skip_string(t.drop_first()) {
            None => None,
            Some(r1) => match after_colon(r1) {
                None => None,
                Some(r2) => skip_value(r2),
            },
        }
    } else {
        None
    }
}

fn scan_skip_rmember(s: &Vec<u8>, j: usize) -> (r: Option<usize>)
    requires
        j <= s.len(),
    ensures
        match r {
            Some(j2) => j <= j2 <= s.len() && skip_rmember(s@.skip(j as int)) == Some(
                s@.skip(j2 as int),
            ),
            None => skip_rmember(s@.skip(j as int)) is None,
        },
{
    let ghost t = s@.skip(j as int);
    if j == s.len() || s[j] != 0x22 {
        if j < s.len() {
            assert(t[0] == s@[j as int]);
        }
        return None;
    }
    proof {
        assert(t[0] == s@[j as int]);
        assert(t.drop_first() =~= s@.skip(j + 1));
    }
    let r1 = match scan_skip_string(s, j + 1) {
        Some(r1) => r1,
        None => {
            return None;
        },
    };
    let r2 = match expect_colon(s, r1) {
        Some(r2) => r2,
        None => {
            return None;
        },
    };
    scan_skip_value(s, r2)
}

/// What both halves of an achievement tier look like while its object is
/// being read.
pub struct TierSlots {
    pub count: Option<usize>,
    pub points: Option<usize>,
}

/// One member of a tier object: a known key and its value, or an unknown
/// member passed over.
#[verifier::opaque]
pub open spec fn parse_rmember_tier(t: Seq<u8>, acc: TierSlots) -> Option<(TierSlots, Seq<u8>)> {
    if spec_lit(t, tag_lit("count"@)) is Some {
        match after_colon(spec_lit(t, tag_lit("count"@))->0) {
            None => None,
            Some(b) => match parse_rusize(b) {
                None => None,
                Some((v, rest)) => Some((TierSlots { count: Some(v), ..acc }, rest)),
            },
        }
    } else if spec_lit(t, tag_lit("points"@)) is Some {
        match after_colon(spec_lit(t, tag_lit("points"@))->0) {
            None => None,
            Some(b) => match parse_rusize(b) {
                None => None,
                Some((v, rest)) => Some((TierSlots { points: Some(v), ..acc }, rest)),
            },
        }
    } else {
        match skip_rmember(t) {
            None => None,
            Some(rest) => Some((acc, rest)),
        }
    }
}

/// The members of a tier object, read up to and including the brace.
pub open spec fn parse_robj_tier(s: Seq<u8>, acc: TierSlots) -> Option<(TierSlots, Seq<u8>)>
    decreases s.len(),
{
    let t = skip_ws(s);
    if t.len() == 0 {
        None
    } else if t[0] == 0x7d {
        Some((acc, t.drop_first()))
    } else {
        match parse_rmember_tier(t, acc) {
            None => None,
            Some((acc2, r)) => {
                let u = skip_ws(r);
                if u.len() == 0 {
                    None
                } else if u[0] == 0x2c {
                    if u.drop_first().len() < s.len() {
                        parse_robj_tier(u.drop_first(), acc2)
                    } else {
                        None
                    }
                } else if u[0] == 0x7d {
                    Some((acc2, u.drop_first()))
                } else {
                    None
                }
            },
        }
    }
}

/// A tier is complete when both of its members arrived.
pub open spec fn build_tier(sl: TierSlots) -> Option<AchievementTier> {
    if sl.count is Some && sl.points is Some {
        Some(AchievementTier { count: sl.count->0, points: sl.points->0 })
    } else {
        None
    }
}

/// A whole tier object.
#[verifier::opaque]
pub open spec fn parse_rtier(s: Seq<u8>) -> Option<(AchievementTier, Seq<u8>)> {
    let t = skip_ws(s);
    if t.len() > 0 && t[0] == 0x7b {
        match parse_robj_tier(t.drop_first(), TierSlots { count: None, points: None }) {
            None => None,
            Some((sl, r)) => match build_tier(sl) {
                None => None,
                Some(v) => Some((v, r)),
            },
        }
    } else {
        None
    }
}

fn scan_rmember_tier(s: &Vec<u8>, j: usize, sl: &mut TierSlots) -> (r: Option<usize>)
    requires
        j <= s.len(),
    ensures
        match r {
            Some(j2) => {
                &&& j <= j2 <= s.len()
                &&& parse_rmember_tier(s@.skip(j as int), *old(sl)) == Some(
                    (*final(sl), s@.skip(j2 as int)),
                )
            },
            None => parse_rmember_tier(s@.skip(j as int), *old(sl)) is None && *final(sl) == *old(
                sl,
            ),
        },
{
    proof {
        reveal(parse_rmember_tier);
    }
    let ghost t = s@.skip(j as int);
    match crate::reader::scan_tag(s, j, "count") {
        Some(a) => {
            let b = match expect_colon(s, a) {
                Some(b) => b,
                None => {
                    return None;
                },
            };
            let (v, r) = match scan_rusize(s, b) {
                Some(x) => x,
                None => {
                    return None;
                },
            };
            sl.count = Some(v);
            return Some(r);
        },
        None => {},
    }
    match crate::reader::scan_tag(s, j, "points") {
        Some(a) => {
            let b = match expect_colon(s, a) {
                Some(b) => b,
                None => {
                    return None;
                },
            };
            let (v, r) = match scan_rusize(s, b) {
                Some(x) => x,
                None => {
                    return None;
                },
            };
            sl.points = Some(v);
            return Some(r);
        },
        None => {},
    }
    match scan_skip_rmember(s, j) {
        Some(rest) => Some(rest),
        None => None,
    }
}

/// Scan a whole tier object at position `i`.
#[verifier::loop_isolation(false)]
pub fn scan_rtier(s: &Vec<u8>, i: usize) -> (r: Option<(AchievementTier, usize)>)
    requires
        i <= s.len(),
    ensures
        match r {
            Some((v, j)) => i <= j <= s.len() && parse_rtier(s@.skip(i as int)) == Some(
                (v, s@.skip(j as int)),
            ),
            None => parse_rtier(s@.skip(i as int)) is None,
        },
{
    proof {
        reveal(parse_rtier);
    }
    let w = scan_rws(s, i);
    if w == s.len() || s[w] != 0x7b {
        if w < s.len() {
            assert(s@.skip(w as int)[0] == s@[w as int]);
        }
        return None;
    }
    proof {
        assert(s@.skip(w as int)[0] == 0x7bu8);
        assert(s@.skip(w as int).drop_first() =~= s@.skip(w + 1));
    }
    let ghost start = s@.skip(w + 1);
    let mut sl = TierSlots { count: None, points: None };
    let ghost init = sl;
    let mut j: usize = w + 1;
    loop
        invariant
            w + 1 <= j <= s.len(),
            parse_robj_tier(start, init) == parse_robj_tier(s@.skip(j as int), sl),
        decreases s.len() - j,
    {
        proof {
            reveal(parse_rtier);
        }
        let jt = scan_rws(s, j);
        proof {
            lemma_skip_ws_len(s@.skip(j as int));
        }
        if jt == s.len() {
            assert(parse_robj_tier(s@.skip(j as int), sl) is None);
            return None;
        }
        proof {
            assert(s@.skip(jt as int)[0] == s@[jt as int]);
            assert(s@.skip(jt as int).drop_first() =~= s@.skip(jt + 1));
        }
        if s[jt] == 0x7d {
            assert(parse_robj_tier(s@.skip(j as int), sl) == Some((sl, s@.skip(jt + 1))));
            if let (Some(count), Some(points)) = (sl.count, sl.points) {
                return Some((AchievementTier { count, points }, jt + 1));
            } else {
                return None;
            }
        }
        let ghost slpre = sl;
        let jm = match scan_rmember_tier(s, jt, &mut sl) {
            Some(jm) => jm,
            None => {
                assert(parse_robj_tier(s@.skip(j as int), slpre) is None);
                return None;
            },
        };
        let ju = scan_rws(s, jm);
        proof {
            lemma_skip_ws_len(s@.skip(jm as int));
        }
        if ju == s.len() {
            assert(parse_robj_tier(s@.skip(j as int), slpre) is None);
            return None;
        }
        proof {
            assert(s@.skip(ju as int)[0] == s@[ju as int]);
            assert(s@.skip(ju as int).drop_first() =~= s@.skip(ju + 1));
        }
        if s[ju] == 0x2c {
            j = ju + 1;
        } else if s[ju] == 0x7d {
            assert(parse_robj_tier(s@.skip(j as int), slpre) == Some((sl, s@.skip(ju + 1))));
            if let (Some(count), Some(points)) = (sl.count, sl.points) {
                return Some((AchievementTier { count, points }, ju + 1));
            } else {
                return None;
            }
        } else {
            assert(parse_robj_tier(s@.skip(j as int), slpre) is None);
            return None;
        }
    }
}


/// The category tag of a reward, named under its `type` member.
#[derive(Clone, Copy, Debug, PartialEq, Eq)]
pub enum RTag {
    Coins,
    Item,
    Mastery,
    Title,
}

pub open spec fn parse_rproduct(s: Seq<u8>) -> Option<(Product, Seq<u8>)> {
    let t = skip_ws(s);
    if spec_lit(t, tag_lit("HeartOfThorns"@)) is Some {
        Some((Product::HeartOfThorns, spec_lit(t, tag_lit("HeartOfThorns"@))->0))
    } else if spec_lit(t, tag_lit("PathOfFire"@)) is Some {
        Some((Product::PathOfFire, spec_lit(t, tag_lit("PathOfFire"@))->0))
    } else {
        None
    }
}

fn scan_rproduct(s: &Vec<u8>, i: usize) -> (r: Option<(Product, usize)>)
    requires
        i <= s.len(),
    ensures
        match r {
            Some((v, j)) => i <= j <= s.len() && parse_rproduct(s@.skip(i as int)) == Some(
                (v, s@.skip(j as int)),
            ),
            None => parse_rproduct(s@.skip(i as int)) is None,
        },
{
    let w = scan_rws(s, i);
    match crate::reader::scan_tag(s, w, "HeartOfThorns") {
        Some(j) => {
            return Some((Product::HeartOfThorns, j));
        },
        None => {},
    }
    match crate::reader::scan_tag(s, w, "PathOfFire") {
        Some(j) => {
            return Some((Product::PathOfFire, j));
        },
        None => {},
    }
    None
}

pub open spec fn parse_raccess(s: Seq<u8>) -> Option<(AccessCondition, Seq<u8>)> {
    let t = skip_ws(s);
    if spec_lit(t, tag_lit("HasAccess"@)) is Some {
        Some((AccessCondition::HasAccess, spec_lit(t, tag_lit("HasAccess"@))->0))
    } else if spec_lit(t, tag_lit("NoAccess"@)) is Some {
        Some((AccessCondition::NoAccess, spec_lit(t, tag_lit("NoAccess"@))->0))
    } else {
        None
    }
}

fn scan_raccess(s: &Vec<u8>, i: usize) -> (r: Option<(AccessCondition, usize)>)
    requires
        i <= s.len(),
    ensures
        match r {
            Some((v, j)) => i <= j <= s.len() && parse_raccess(s@.skip(i as int)) == Some(
                (v, s@.skip(j as int)),
            ),
            None => parse_raccess(s@.skip(i as int)) is None,
        },
{
    let w = scan_rws(s, i);
    match crate::reader::scan_tag(s, w, "HasAccess") {
        Some(j) => {
            return Some((AccessCondition::HasAccess, j));
        },
        None => {},
    }
    match crate::reader::scan_tag(s, w, "NoAccess") {
        Some(j) => {
            return Some((AccessCondition::NoAccess, j));
        },
        None => {},
    }
    None
}

pub open spec fn parse_rrewardtag(s: Seq<u8>) -> Option<(RTag, Seq<u8>)> {
    let t = skip_ws(s);
    if spec_lit(t, tag_lit("Coins"@)) is Some {
        Some((RTag::Coins, spec_lit(t, tag_lit("Coins"@))->0))
    } else if spec_lit(t, tag_lit("Item"@)) is Some {
        Some((RTag::Item, spec_lit(t, tag_lit("Item"@))->0))
    } else if spec_lit(t, tag_lit("Mastery"@)) is Some {
        Some((RTag::Mastery, spec_lit(t, tag_lit("Mastery"@))->0))
    } else if spec_lit(t, tag_lit("Title"@)) is Some {
        Some((RTag::Title, spec_lit(t, tag_lit("Title"@))->0))
    } else {
        None
    }
}

fn scan_rrewardtag(s: &Vec<u8>, i: usize) -> (r: Option<(RTag, usize)>)
    requires
        i <= s.len(),
    ensures
        match r {
            Some((v, j)) => i <= j <= s.len() && parse_rrewardtag(s@.skip(i as int)) == Some(
                (v, s@.skip(j as int)),
            ),
            None => parse_rrewardtag(s@.skip(i as int)) is None,
        },
{
    let w = scan_rws(s, i);
    match crate::reader::scan_tag(s, w, "Coins") {
        Some(j) => {
            return Some((RTag::Coins, j));
        },
        None => {},
    }
    match crate::reader::scan_tag(s, w, "Item") {
        Some(j) => {
            return Some((RTag::Item, j));
        },
        None => {},
    }
    match crate::reader::scan_tag(s, w, "Mastery") {
        Some(j) => {
            return Some((RTag::Mastery, j));
        },
        None => {},
    }
    match crate::reader::scan_tag(s, w, "Title") {
        Some(j) => {
            return Some((RTag::Title, j));
        },
        None => {},
    }
    None
}


pub open spec fn ropt_str(s: Seq<u8>) -> Option<(Option<Seq<char>>, Seq<u8>)> {
    let t = skip_ws(s);
    if spec_lit(t, null_lit()) is Some {
        Some((None, spec_lit(t, null_lit())->0))
    } else {
        match parse_rstring(t) {
            Some((v, rest)) => Some((Some(v), rest)),
            None => None,
        }
    }
}

fn scan_ropt_str(s: &Vec<u8>, i: usize) -> (r: Option<(Option<String>, usize)>)
    requires
        i <= s.len(),
    ensures
        match r {
            Some((v, j)) => i <= j <= s.len() && ropt_str(s@.skip(i as int)) == Some(
                (v.deep_view(), s@.skip(j as int)),
            ),
            None => ropt_str(s@.skip(i as int)) is None,
        },
{
    let w = scan_rws(s, i);
    match crate::combinators::scan_null(s, w) {
        Some(j) => Some((None, j)),
        None => match scan_rstring(s, w) {
            Some((v, j)) => Some((Some(v), j)),
            None => None,
        },
    }
}


pub open spec fn ropt_usize(s: Seq<u8>) -> Option<(Option<usize>, Seq<u8>)> {
    let t = skip_ws(s);
    if spec_lit(t, null_lit()) is Some {
        Some((None, spec_lit(t, null_lit())->0))
    } else {
        match parse_rusize(t) {
            Some((v, rest)) => Some((Some(v), rest)),
            None => None,
        }
    }
}

fn scan_ropt_usize(s: &Vec<u8>, i: usize) -> (r: Option<(Option<usize>, usize)>)
    requires
        i <= s.len(),
    ensures
        match r {
            Some((v, j)) => i <= j <= s.len() && ropt_usize(s@.skip(i as int)) == Some(
                (v, s@.skip(j as int)),
            ),
            None => ropt_usize(s@.skip(i as int)) is None,
        },
{
    let w = scan_rws(s, i);
    match crate::combinators::scan_null(s, w) {
        Some(j) => Some((None, j)),
        None => match scan_rusize(s, w) {
            Some((v, j)) => Some((Some(v), j)),
            None => None,
        },
    }
}


pub open spec fn ropt_bool(s: Seq<u8>) -> Option<(Option<bool>, Seq<u8>)> {
    let t = skip_ws(s);
    if spec_lit(t, null_lit()) is Some {
        Some((None, spec_lit(t, null_lit())->0))
    } else {
        match parse_rbool(t) {
            Some((v, rest)) => Some((Some(v), rest)),
            None => None,
        }
    }
}

fn scan_ropt_bool(s: &Vec<u8>, i: usize) -> (r: Option<(Option<bool>, usize)>)
    requires
        i <= s.len(),
    ensures
        match r {
            Some((v, j)) => i <= j <= s.len() && ropt_bool(s@.skip(i as int)) == Some(
                (v, s@.skip(j as int)),
            ),
            None => ropt_bool(s@.skip(i as int)) is None,
        },
{
    let w = scan_rws(s, i);
    match crate::combinators::scan_null(s, w) {
        Some(j) => Some((None, j)),
        None => match scan_rbool(s, w) {
            Some((v, j)) => Some((Some(v), j)),
            None => None,
        },
    }
}


pub open spec fn ropt_i32(s: Seq<u8>) -> Option<(Option<i32>, Seq<u8>)> {
    let t = skip_ws(s);
    if spec_lit(t, null_lit()) is Some {
        Some((None, spec_lit(t, null_lit())->0))
    } else {
        match parse_ri32(t) {
            Some((v, rest)) => Some((Some(v), rest)),
            None => None,
        }
    }
}

fn scan_ropt_i32(s: &Vec<u8>, i: usize) -> (r: Option<(Option<i32>, usize)>)
    requires
        i <= s.len(),
    ensures
        match r {
            Some((v, j)) => i <= j <= s.len() && ropt_i32(s@.skip(i as int)) == Some(
                (v, s@.skip(j as int)),
            ),
            None => ropt_i32(s@.skip(i as int)) is None,
        },
{
    let w = scan_rws(s, i);
    match crate::combinators::scan_null(s, w) {
        Some(j) => Some((None, j)),
        None => match scan_ri32(s, w) {
            Some((v, j)) => Some((Some(v), j)),
            None => None,
        },
    }
}


pub open spec fn parse_relems_usize(s: Seq<u8>) -> Option<(Seq<usize>, Seq<u8>)>
    decreases s.len(),
{
    let t = skip_ws(s);
    if t.len() == 0 {
        None
    } else if t[0] == 0x5d {
        Some((Seq::empty(), t.drop_first()))
    } else {
        match parse_rusize(t) {
            None => None,
            Some((v, r)) => {
                let u = skip_ws(r);
                if u.len() == 0 {
                    None
                } else if u[0] == 0x2c {
                    if u.drop_first().len() < s.len() {
                        match parse_relems_usize(u.drop_first()) {
                            None => None,
                            Some((vs, rest)) => Some((seq![v] + vs, rest)),
                        }
                    } else {
                        None
                    }
                } else if u[0] == 0x5d {
                    Some((seq![v], u.drop_first()))
                } else {
                    None
                }
            },
        }
    }
}

pub open spec fn parse_rarr_usize(s: Seq<u8>) -> Option<(Seq<usize>, Seq<u8>)> {
    let t = skip_ws(s);
    if t.len() > 0 && t[0] == 0x5b {
        parse_relems_usize(t.drop_first())
    } else {
        None
    }
}

#[verifier::rlimit(100)]
#[verifier::spinoff_prover]
pub fn scan_rarr_usize(s: &Vec<u8>, i: usize) -> (r: Option<(Vec<usize>, usize)>)
    requires
        i <= s.len(),
    ensures
        match r {
            Some((v, j)) => {
                &&& i <= j <= s.len()
                &&& parse_rarr_usize(s@.skip(i as int)) == Some((v@, s@.skip(j as int)))
            },
            None => parse_rarr_usize(s@.skip(i as int)) is None,
        },
{
    let w = scan_rws(s, i);
    if w == s.len() || s[w] != 0x5b {
        if w < s.len() {
            assert(s@.skip(w as int)[0] == s@[w as int]);
        }
        return None;
    }
    assert(s@.skip(w as int)[0] == 0x5bu8);
    assert(s@.skip(w as int).drop_first() =~= s@.skip(w + 1));
    let mut out: Vec<usize> = Vec::new();
    proof {
        assert(out@ =~= Seq::<usize>::empty());
    }
    let mut j: usize = w + 1;
    loop
        invariant
            i <= w < s.len(),
            skip_ws(s@.skip(i as int)) == s@.skip(w as int),
            s@.skip(w as int)[0] == 0x5b,
            s@.skip(w as int).drop_first() == s@.skip(w + 1),
            w + 1 <= j <= s.len(),
            parse_relems_usize(s@.skip(w + 1)) == prepend_vals(
                out@,
                parse_relems_usize(s@.skip(j as int)),
            ),
        decreases s.len() - j,
    {
        let jt = scan_rws(s, j);
        proof {
            lemma_skip_ws_len(s@.skip(j as int));
        }
        if jt == s.len() {
            assert(parse_relems_usize(s@.skip(j as int)) is None);
            return None;
        }
        proof {
            assert(s@.skip(jt as int)[0] == s@[jt as int]);
            assert(s@.skip(jt as int).drop_first() =~= s@.skip(jt + 1));
        }
        if s[jt] == 0x5d {
            proof {
                assert(parse_relems_usize(s@.skip(j as int)) == Some(
                    (Seq::<usize>::empty(), s@.skip(jt + 1)),
                ));
                assert(out@ + Seq::<usize>::empty() =~= out@);
            }
            return Some((out, jt + 1));
        }
        match scan_rusize(s, jt) {
            None => {
                assert(parse_relems_usize(s@.skip(j as int)) is None);
                return None;
            },
            Some((v, r)) => {
                let ghost vm = v;
                let ju = scan_rws(s, r);
                proof {
                    lemma_skip_ws_len(s@.skip(r as int));
                }
                if ju == s.len() {
                    assert(parse_relems_usize(s@.skip(j as int)) is None);
                    return None;
                }
                proof {
                    assert(s@.skip(ju as int)[0] == s@[ju as int]);
                    assert(s@.skip(ju as int).drop_first() =~= s@.skip(ju + 1));
                }
                if s[ju] == 0x2c {
                    proof {
                        let inner = parse_relems_usize(s@.skip(ju + 1));
                        assert(parse_relems_usize(s@.skip(j as int)) == prepend_vals(
                            seq![vm],
                            inner,
                        ));
                        match inner {
                            Some((vs2, r2)) => {
                                assert(out@ + (seq![vm] + vs2) =~= out@.push(vm) + vs2);
                            },
                            None => {},
                        }
                    }
                    out.push(v);
                    j = ju + 1;
                } else if s[ju] == 0x5d {
                    proof {
                        assert(parse_relems_usize(s@.skip(j as int)) == Some(
                            (seq![vm], s@.skip(ju + 1)),
                        ));
                        assert(out@ + seq![vm] =~= out@.push(vm));
                    }
                    out.push(v);
                    return Some((out, ju + 1));
                } else {
                    assert(parse_relems_usize(s@.skip(j as int)) is None);
                    return None;
                }
            },
        }
    }
}


pub open spec fn parse_relems_str(s: Seq<u8>) -> Option<(Seq<Seq<char>>, Seq<u8>)>
    decreases s.len(),
{
    let t = skip_ws(s);
    if t.len() == 0 {
        None
    } else if t[0] == 0x5d {
        Some((Seq::empty(), t.drop_first()))
    } else {
        match parse_rstring(t) {
            None => None,
            Some((v, r)) => {
                let u = skip_ws(r);
                if u.len() == 0 {
                    None
                } else if u[0] == 0x2c {
                    if u.drop_first().len() < s.len() {
                        match parse_relems_str(u.drop_first()) {
                            None => None,
                            Some((vs, rest)) => Some((seq![v] + vs, rest)),
                        }
                    } else {
                        None
                    }
                } else if u[0] == 0x5d {
                    Some((seq![v], u.drop_first()))
                } else {
                    None
                }
            },
        }
    }
}

pub open spec fn parse_rarr_str(s: Seq<u8>) -> Option<(Seq<Seq<char>>, Seq<u8>)> {
    let t = skip_ws(s);
    if t.len() > 0 && t[0] == 0x5b {
        parse_relems_str(t.drop_first())
    } else {
        None
    }
}

#[verifier::rlimit(100)]
#[verifier::spinoff_prover]
pub fn scan_rarr_str(s: &Vec<u8>, i: usize) -> (r: Option<(Vec<String>, usize)>)
    requires
        i <= s.len(),
    ensures
        match r {
            Some((v, j)) => {
                &&& i <= j <= s.len()
                &&& parse_rarr_str(s@.skip(i as int)) == Some((v.deep_view(), s@.skip(j as int)))
            },
            None => parse_rarr_str(s@.skip(i as int)) is None,
        },
{
    let w = scan_rws(s, i);
    if w == s.len() || s[w] != 0x5b {
        if w < s.len() {
            assert(s@.skip(w as int)[0] == s@[w as int]);
        }
        return None;
    }
    assert(s@.skip(w as int)[0] == 0x5bu8);
    assert(s@.skip(w as int).drop_first() =~= s@.skip(w + 1));
    let mut out: Vec<String> = Vec::new();
    proof {
        assert(out.deep_view() =~= Seq::<Seq<char>>::empty());
    }
    let mut j: usize = w + 1;
    loop
        invariant
            i <= w < s.len(),
            skip_ws(s@.skip(i as int)) == s@.skip(w as int),
            s@.skip(w as int)[0] == 0x5b,
            s@.skip(w as int).drop_first() == s@.skip(w + 1),
            w + 1 <= j <= s.len(),
            parse_relems_str(s@.skip(w + 1)) == prepend_vals(
                out.deep_view(),
                parse_relems_str(s@.skip(j as int)),
            ),
        decreases s.len() - j,
    {
        let jt = scan_rws(s, j);
        proof {
            lemma_skip_ws_len(s@.skip(j as int));
        }
        if jt == s.len() {
            assert(parse_relems_str(s@.skip(j as int)) is None);
            return None;
        }
        proof {
            assert(s@.skip(jt as int)[0] == s@[jt as int]);
            assert(s@.skip(jt as int).drop_first() =~= s@.skip(jt + 1));
        }
        if s[jt] == 0x5d {
            proof {
                assert(parse_relems_str(s@.skip(j as int)) == Some(
                    (Seq::<Seq<char>>::empty(), s@.skip(jt + 1)),
                ));
                assert(out.deep_view() + Seq::<Seq<char>>::empty() =~= out.deep_view());
            }
            return Some((out, jt + 1));
        }
        match scan_rstring(s, jt) {
            None => {
                assert(parse_relems_str(s@.skip(j as int)) is None);
                return None;
            },
            Some((v, r)) => {
                let ghost vm = v.deep_view();
                let ju = scan_rws(s, r);
                proof {
                    lemma_skip_ws_len(s@.skip(r as int));
                }
                if ju == s.len() {
                    assert(parse_relems_str(s@.skip(j as int)) is None);
                    return None;
                }
                proof {
                    assert(s@.skip(ju as int)[0] == s@[ju as int]);
                    assert(s@.skip(ju as int).drop_first() =~= s@.skip(ju + 1));
                }
                if s[ju] == 0x2c {
                    proof {
                        let inner = parse_relems_str(s@.skip(ju + 1));
                        assert(parse_relems_str(s@.skip(j as int)) == prepend_vals(
                            seq![vm],
                            inner,
                        ));
                        match inner {
                            Some((vs2, r2)) => {
                                assert(out.deep_view() + (seq![vm] + vs2) =~= out.deep_view().push(vm) + vs2);
                            },
                            None => {},
                        }
                    }
                    out.push(v);
                    j = ju + 1;
                } else if s[ju] == 0x5d {
                    proof {
                        assert(parse_relems_str(s@.skip(j as int)) == Some(
                            (seq![vm], s@.skip(ju + 1)),
                        ));
                        assert(out.deep_view() + seq![vm] =~= out.deep_view().push(vm));
                    }
                    out.push(v);
                    return Some((out, ju + 1));
                } else {
                    assert(parse_relems_str(s@.skip(j as int)) is None);
                    return None;
                }
            },
        }
    }
}


pub open spec fn parse_relems_tier(s: Seq<u8>) -> Option<(Seq<AchievementTier>, Seq<u8>)>
    decreases s.len(),
{
    let t = skip_ws(s);
    if t.len() == 0 {
        None
    } else if t[0] == 0x5d {
        Some((Seq::empty(), t.drop_first()))
    } else {
        match parse_rtier(t) {
            None => None,
            Some((v, r)) => {
                let u = skip_ws(r);
                if u.len() == 0 {
                    None
                } else if u[0] == 0x2c {
                    if u.drop_first().len() < s.len() {
                        match parse_relems_tier(u.drop_first()) {
                            None => None,
                            Some((vs, rest)) => Some((seq![v] + vs, rest)),
                        }
                    } else {
                        None
                    }
                } else if u[0] == 0x5d {
                    Some((seq![v], u.drop_first()))
                } else {
                    None
                }
            },
        }
    }
}

pub open spec fn parse_rarr_tier(s: Seq<u8>) -> Option<(Seq<AchievementTier>, Seq<u8>)> {
    let t = skip_ws(s);
    if t.len() > 0 && t[0] == 0x5b {
        parse_relems_tier(t.drop_first())
    } else {
        None
    }
}

#[verifier::rlimit(100)]
#[verifier::spinoff_prover]
pub fn scan_rarr_tier(s: &Vec<u8>, i: usize) -> (r: Option<(Vec<AchievementTier>, usize)>)
    requires
        i <= s.len(),
    ensures
        match r {
            Some((v, j)) => {
                &&& i <= j <= s.len()
                &&& parse_rarr_tier(s@.skip(i as int)) == Some((v@, s@.skip(j as int)))
            },
            None => parse_rarr_tier(s@.skip(i as int)) is None,
        },
{
    let w = scan_rws(s, i);
    if w == s.len() || s[w] != 0x5b {
        if w < s.len() {
            assert(s@.skip(w as int)[0] == s@[w as int]);
        }
        return None;
    }
    assert(s@.skip(w as int)[0] == 0x5bu8);
    assert(s@.skip(w as int).drop_first() =~= s@.skip(w + 1));
    let mut out: Vec<AchievementTier> = Vec::new();
    proof {
        assert(out@ =~= Seq::<AchievementTier>::empty());
    }
    let mut j: usize = w + 1;
    loop
        invariant
            i <= w < s.len(),
            skip_ws(s@.skip(i as int)) == s@.skip(w as int),
            s@.skip(w as int)[0] == 0x5b,
            s@.skip(w as int).drop_first() == s@.skip(w + 1),
            w + 1 <= j <= s.len(),
            parse_relems_tier(s@.skip(w + 1)) == prepend_vals(
                out@,
                parse_relems_tier(s@.skip(j as int)),
            ),
        decreases s.len() - j,
    {
        let jt = scan_rws(s, j);
        proof {
            lemma_skip_ws_len(s@.skip(j as int));
        }
        if jt == s.len() {
            assert(parse_relems_tier(s@.skip(j as int)) is None);
            return None;
        }
        proof {
            assert(s@.skip(jt as int)[0] == s@[jt as int]);
            assert(s@.skip(jt as int).drop_first() =~= s@.skip(jt + 1));
        }
        if s[jt] == 0x5d {
            proof {
                assert(parse_relems_tier(s@.skip(j as int)) == Some(
                    (Seq::<AchievementTier>::empty(), s@.skip(jt + 1)),
                ));
                assert(out@ + Seq::<AchievementTier>::empty() =~= out@);
            }
            return Some((out, jt + 1));
        }
        match scan_rtier(s, jt) {
            None => {
                assert(parse_relems_tier(s@.skip(j as int)) is None);
                return None;
            },
            Some((v, r)) => {
                let ghost vm = v;
                let ju = scan_rws(s, r);
                proof {
                    lemma_skip_ws_len(s@.skip(r as int));
                }
                if ju == s.len() {
                    assert(parse_relems_tier(s@.skip(j as int)) is None);
                    return None;
                }
                proof {
                    assert(s@.skip(ju as int)[0] == s@[ju as int]);
                    assert(s@.skip(ju as int).drop_first() =~= s@.skip(ju + 1));
                }
                if s[ju] == 0x2c {
                    proof {
                        let inner = parse_relems_tier(s@.skip(ju + 1));
                        assert(parse_relems_tier(s@.skip(j as int)) == prepend_vals(
                            seq![vm],
                            inner,
                        ));
                        match inner {
                            Some((vs2, r2)) => {
                                assert(out@ + (seq![vm] + vs2) =~= out@.push(vm) + vs2);
                            },
                            None => {},
                        }
                    }
                    out.push(v);
                    j = ju + 1;
                } else if s[ju] == 0x5d {
                    proof {
                        assert(parse_relems_tier(s@.skip(j as int)) == Some(
                            (seq![vm], s@.skip(ju + 1)),
                        ));
                        assert(out@ + seq![vm] =~= out@.push(vm));
                    }
                    out.push(v);
                    return Some((out, ju + 1));
                } else {
                    assert(parse_relems_tier(s@.skip(j as int)) is None);
                    return None;
                }
            },
        }
    }
}


pub open spec fn ropt_arr_usize(s: Seq<u8>) -> Option<(Option<Seq<usize>>, Seq<u8>)> {
    let t = skip_ws(s);
    if spec_lit(t, null_lit()) is Some {
        Some((None, spec_lit(t, null_lit())->0))
    } else {
        match parse_rarr_usize(t) {
            Some((v, rest)) => Some((Some(v), rest)),
            None => None,
        }
    }
}

fn scan_ropt_arr_usize(s: &Vec<u8>, i: usize) -> (r: Option<(Option<Vec<usize>>, usize)>)
    requires
        i <= s.len(),
    ensures
        match r {
            Some((v, j)) => i <= j <= s.len() && ropt_arr_usize(s@.skip(i as int)) == Some(
                (v.deep_view(), s@.skip(j as int)),
            ),
            None => ropt_arr_usize(s@.skip(i as int)) is None,
        },
{
    let w = scan_rws(s, i);
    match crate::combinators::scan_null(s, w) {
        Some(j) => Some((None, j)),
        None => match scan_rarr_usize(s, w) {
            Some((v, j)) => Some((Some(v), j)),
            None => None,
        },
    }
}


/// What has arrived of one level range while its object is being read.
pub struct LevelSlots {
    pub min: Option<usize>,
    pub max: Option<usize>,
}

struct LevelSlotsBuf {
    min: Option<usize>,
    max: Option<usize>,
}

impl DeepView for LevelSlotsBuf {
    type V = LevelSlots;

    closed spec fn deep_view(&self) -> LevelSlots {
        LevelSlots {
            min: self.min,
            max: self.max,
        }
    }
}

/// One member: a known key and its value, or an unknown member passed over.
#[verifier::opaque]
pub open spec fn parse_rmember_level(t: Seq<u8>, acc: LevelSlots) -> Option<(LevelSlots, Seq<u8>)> {
    if spec_lit(t, tag_lit("min"@)) is Some {
        match after_colon(spec_lit(t, tag_lit("min"@))->0) {
            None => None,
            Some(b) => match parse_rusize(b) {
                None => None,
                Some((v, rest)) => Some((LevelSlots { min: Some(v), ..acc }, rest)),
            },
        }
    } else if spec_lit(t, tag_lit("max"@)) is Some {
        match after_colon(spec_lit(t, tag_lit("max"@))->0) {
            None => None,
            Some(b) => match parse_rusize(b) {
                None => None,
                Some((v, rest)) => Some((LevelSlots { max: Some(v), ..acc }, rest)),
            },
        }
    } else {
        match skip_rmember(t) {
            None => None,
            Some(rest) => Some((acc, rest)),
        }
    }
}

/// The members, read up to and including the brace.
pub open spec fn parse_robj_level(s: Seq<u8>, acc: LevelSlots) -> Option<(LevelSlots, Seq<u8>)>
    decreases s.len(),
{
    let t = skip_ws(s);
    if t.len() == 0 {
        None
    } else if t[0] == 0x7d {
        Some((acc, t.drop_first()))
    } else {
        match parse_rmember_level(t, acc) {
            None => None,
            Some((acc2, r)) => {
                let u = skip_ws(r);
                if u.len() == 0 {
                    None
                } else if u[0] == 0x2c {
                    if u.drop_first().len() < s.len() {
                        parse_robj_level(u.drop_first(), acc2)
                    } else {
                        None
                    }
                } else if u[0] == 0x7d {
                    Some((acc2, u.drop_first()))
                } else {
                    None
                }
            },
        }
    }
}

/// A level range is complete when both bounds arrived.
pub open spec fn build_level(sl: LevelSlots) -> Option<LevelRange> {
    if sl.min is Some && sl.max is Some {
        Some(LevelRange { min: sl.min->0, max: sl.max->0 })
    } else {
        None
    }
}

/// A whole object of this shape.
#[verifier::opaque]
pub open spec fn parse_rlevel(s: Seq<u8>) -> Option<(LevelRange, Seq<u8>)> {
    let t = skip_ws(s);
    if t.len() > 0 && t[0] == 0x7b {
        match parse_robj_level(t.drop_first(), LevelSlots { min: None, max: None }) {
            None => None,
            Some((sl, r)) => match build_level(sl) {
                None => None,
                Some(v) => Some((v, r)),
            },
        }
    } else {
        None
    }
}

#[verifier::rlimit(100)]
#[verifier::spinoff_prover]
fn scan_rmember_level(s: &Vec<u8>, j: usize, sl: &mut LevelSlotsBuf) -> (r: Option<usize>)
    requires
        j <= s.len(),
    ensures
        match r {
            Some(j2) => {
                &&& j <= j2 <= s.len()
                &&& parse_rmember_level(s@.skip(j as int), old(sl).deep_view()) == Some(
                    (final(sl).deep_view(), s@.skip(j2 as int)),
                )
            },
            None => parse_rmember_level(s@.skip(j as int), old(sl).deep_view()) is None && final(sl).deep_view()
                == old(sl).deep_view(),
        },
{
    proof {
        reveal(parse_rmember_level);
    }
    match crate::reader::scan_tag(s, j, "min") {
        Some(a) => {
            let b = match expect_colon(s, a) {
                Some(b) => b,
                None => {
                    return None;
                },
            };
            let (v, r) = match scan_rusize(s, b) {
                Some(x) => x,
                None => {
                    return None;
                },
            };
            sl.min = Some(v);
            return Some(r);
        },
        None => {},
    }
    match crate::reader::scan_tag(s, j, "max") {
        Some(a) => {
            let b = match expect_colon(s, a) {
                Some(b) => b,
                None => {
                    return None;
                },
            };
            let (v, r) = match scan_rusize(s, b) {
                Some(x) => x,
                None => {
                    return None;
                },
            };
            sl.max = Some(v);
            return Some(r);
        },
        None => {},
    }
    match scan_skip_rmember(s, j) {
        Some(rest) => Some(rest),
        None => None,
    }
}

fn build_level_exec(sl: LevelSlotsBuf) -> (r: Option<LevelRange>)
    ensures
        r == build_level(sl.deep_view()),
{
    let LevelSlotsBuf { min, max } = sl;
    if let (Some(min), Some(max)) = (min, max) {
        Some(LevelRange { min, max })
    } else {
        None
    }
}

/// Scan a whole object of this shape at position `i`.
#[verifier::rlimit(100)]
#[verifier::spinoff_prover]
pub fn scan_rlevel(s: &Vec<u8>, i: usize) -> (r: Option<(LevelRange, usize)>)
    requires
        i <= s.len(),
    ensures
        match r {
            Some((v, j)) => i <= j <= s.len() && parse_rlevel(s@.skip(i as int)) == Some(
                (v, s@.skip(j as int)),
            ),
            None => parse_rlevel(s@.skip(i as int)) is None,
        },
{
    proof {
        reveal(parse_rlevel);
    }
    let w = scan_rws(s, i);
    if w == s.len() || s[w] != 0x7b {
        if w < s.len() {
            assert(s@.skip(w as int)[0] == s@[w as int]);
        }
        return None;
    }
    assert(s@.skip(w as int)[0] == 0x7bu8);
    assert(s@.skip(w as int).drop_first() =~= s@.skip(w + 1));
    let mut sl = LevelSlotsBuf { min: None, max: None };
    proof {
        assert(sl.deep_view() == LevelSlots { min: None, max: None });
    }
    let mut j: usize = w + 1;
    loop
        invariant
            i <= w < s.len(),
            skip_ws(s@.skip(i as int)) == s@.skip(w as int),
            s@.skip(w as int)[0] == 0x7b,
            s@.skip(w as int).drop_first() == s@.skip(w + 1),
            w + 1 <= j <= s.len(),
            parse_robj_level(s@.skip(w + 1), LevelSlots { min: None, max: None }) == parse_robj_level(
                s@.skip(j as int),
                sl.deep_view(),
            ),
        decreases s.len() - j,
    {
        proof {
            reveal(parse_rlevel);
        }
        let jt = scan_rws(s, j);
        proof {
            lemma_skip_ws_len(s@.skip(j as int));
        }
        if jt == s.len() {
            assert(parse_robj_level(s@.skip(j as int), sl.deep_view()) is None);
            return None;
        }
        proof {
            assert(s@.skip(jt as int)[0] == s@[jt as int]);
            assert(s@.skip(jt as int).drop_first() =~= s@.skip(jt + 1));
        }
        if s[jt] == 0x7d {
            proof {
                assert(parse_robj_level(s@.skip(j as int), sl.deep_view()) == Some(
                    (sl.deep_view(), s@.skip(jt + 1)),
                ));
            }
            match build_level_exec(sl) {
                Some(v) => {
                    return Some((v, jt + 1));
                },
                None => {
                    return None;
                },
            }
        }
        let ghost slpre = sl.deep_view();
        let jm = match scan_rmember_level(s, jt, &mut sl) {
            Some(jm) => jm,
            None => {
                assert(parse_robj_level(s@.skip(j as int), slpre) is None);
                return None;
            },
        };
        let ju = scan_rws(s, jm);
        proof {
            lemma_skip_ws_len(s@.skip(jm as int));
        }
        if ju == s.len() {
            assert(parse_robj_level(s@.skip(j as int), slpre) is None);
            return None;
        }
        proof {
            assert(s@.skip(ju as int)[0] == s@[ju as int]);
            assert(s@.skip(ju as int).drop_first() =~= s@.skip(ju + 1));
        }
        if s[ju] == 0x2c {
            j = ju + 1;
        } else if s[ju] == 0x7d {
            proof {
                assert(parse_robj_level(s@.skip(j as int), slpre) == Some(
                    (sl.deep_view(), s@.skip(ju + 1)),
                ));
            }
            match build_level_exec(sl) {
                Some(v) => {
                    return Some((v, ju + 1));
                },
                None => {
                    return None;
                },
            }
        } else {
            assert(parse_robj_level(s@.skip(j as int), slpre) is None);
            return None;
        }
    }
}


/// What has arrived of one access requirement while its object is being read.
pub struct RaSlots {
    pub product: Option<Product>,
    pub condition: Option<AccessCondition>,
}

struct RaSlotsBuf {
    product: Option<Product>,
    condition: Option<AccessCondition>,
}

impl DeepView for RaSlotsBuf {
    type V = RaSlots;

    closed spec fn deep_view(&self) -> RaSlots {
        RaSlots {
            product: self.product,
            condition: self.condition,
        }
    }
}

/// One member: a known key and its value, or an unknown member passed over.
#[verifier::opaque]
pub open spec fn parse_rmember_ra(t: Seq<u8>, acc: RaSlots) -> Option<(RaSlots, Seq<u8>)> {
    if spec_lit(t, tag_lit("product"@)) is Some {
        match after_colon(spec_lit(t, tag_lit("product"@))->0) {
            None => None,
            Some(b) => match parse_rproduct(b) {
                None => None,
                Some((v, rest)) => Some((RaSlots { product: Some(v), ..acc }, rest)),
            },
        }
    } else if spec_lit(t, tag_lit("condition"@)) is Some {
        match after_colon(spec_lit(t, tag_lit("condition"@))->0) {
            None => None,
            Some(b) => match parse_raccess(b) {
                None => None,
                Some((v, rest)) => Some((RaSlots { condition: Some(v), ..acc }, rest)),
            },
        }
    } else {
        match skip_rmember(t) {
            None => None,
            Some(rest) => Some((acc, rest)),
        }
    }
}

/// The members, read up to and including the brace.
pub open spec fn parse_robj_ra(s: Seq<u8>, acc: RaSlots) -> Option<(RaSlots, Seq<u8>)>
    decreases s.len(),
{
    let t = skip_ws(s);
    if t.len() == 0 {
        None
    } else if t[0] == 0x7d {
        Some((acc, t.drop_first()))
    } else {
        match parse_rmember_ra(t, acc) {
            None => None,
            Some((acc2, r)) => {
                let u = skip_ws(r);
                if u.len() == 0 {
                    None
                } else if u[0] == 0x2c {
                    if u.drop_first().len() < s.len() {
                        parse_robj_ra(u.drop_first(), acc2)
                    } else {
                        None
                    }
                } else if u[0] == 0x7d {
                    Some((acc2, u.drop_first()))
                } else {
                    None
                }
            },
        }
    }
}

/// An access requirement is complete when both members arrived.
pub open spec fn build_ra(sl: RaSlots) -> Option<RequiredAccess> {
    if sl.product is Some && sl.condition is Some {
        Some(RequiredAccess { product: sl.product->0, condition: sl.condition->0 })
    } else {
        None
    }
}

/// A whole object of this shape.
#[verifier::opaque]
pub open spec fn parse_rra(s: Seq<u8>) -> Option<(RequiredAccess, Seq<u8>)> {
    let t = skip_ws(s);
    if t.len() > 0 && t[0] == 0x7b {
        match parse_robj_ra(t.drop_first(), RaSlots { product: None, condition: None }) {
            None => None,
            Some((sl, r)) => match build_ra(sl) {
                None => None,
                Some(v) => Some((v, r)),
            },
        }
    } else {
        None
    }
}

#[verifier::rlimit(100)]
#[verifier::spinoff_prover]
fn scan_rmember_ra(s: &Vec<u8>, j: usize, sl: &mut RaSlotsBuf) -> (r: Option<usize>)
    requires
        j <= s.len(),
    ensures
        match r {
            Some(j2) => {
                &&& j <= j2 <= s.len()
                &&& parse_rmember_ra(s@.skip(j as int), old(sl).deep_view()) == Some(
                    (final(sl).deep_view(), s@.skip(j2 as int)),
                )
            },
            None => parse_rmember_ra(s@.skip(j as int), old(sl).deep_view()) is None && final(sl).deep_view()
                == old(sl).deep_view(),
        },
{
    proof {
        reveal(parse_rmember_ra);
    }
    match crate::reader::scan_tag(s, j, "product") {
        Some(a) => {
            let b = match expect_colon(s, a) {
                Some(b) => b,
                None => {
                    return None;
                },
            };
            let (v, r) = match scan_rproduct(s, b) {
                Some(x) => x,
                None => {
                    return None;
                },
            };
            sl.product = Some(v);
            return Some(r);
        },
        None => {},
    }
    match crate::reader::scan_tag(s, j, "condition") {
        Some(a) => {
            let b = match expect_colon(s, a) {
                Some(b) => b,
                None => {
                    return None;
                },
            };
            let (v, r) = match scan_raccess(s, b) {
                Some(x) => x,
                None => {
                    return None;
                },
            };
            sl.condition = Some(v);
            return Some(r);
        },
        None => {},
    }
    match scan_skip_rmember(s, j) {
        Some(rest) => Some(rest),
        None => None,
    }
}

fn build_ra_exec(sl: RaSlotsBuf) -> (r: Option<RequiredAccess>)
    ensures
        r == build_ra(sl.deep_view()),
{
    let RaSlotsBuf { product, condition } = sl;
    if let (Some(product), Some(condition)) = (product, condition) {
        Some(RequiredAccess { product, condition })
    } else {
        None
    }
}

/// Scan a whole object of this shape at position `i`.
#[verifier::rlimit(100)]
#[verifier::spinoff_prover]
pub fn scan_rra(s: &Vec<u8>, i: usize) -> (r: Option<(RequiredAccess, usize)>)
    requires
        i <= s.len(),
    ensures
        match r {
            Some((v, j)) => i <= j <= s.len() && parse_rra(s@.skip(i as int)) == Some(
                (v, s@.skip(j as int)),
            ),
            None => parse_rra(s@.skip(i as int)) is None,
        },
{
    proof {
        reveal(parse_rra);
    }
    let w = scan_rws(s, i);
    if w == s.len() || s[w] != 0x7b {
        if w < s.len() {
            assert(s@.skip(w as int)[0] == s@[w as int]);
        }
        return None;
    }
    assert(s@.skip(w as int)[0] == 0x7bu8);
    assert(s@.skip(w as int).drop_first() =~= s@.skip(w + 1));
    let mut sl = RaSlotsBuf { product: None, condition: None };
    proof {
        assert(sl.deep_view() == RaSlots { product: None, condition: None });
    }
    let mut j: usize = w + 1;
    loop
        invariant
            i <= w < s.len(),
            skip_ws(s@.skip(i as int)) == s@.skip(w as int),
            s@.skip(w as int)[0] == 0x7b,
            s@.skip(w as int).drop_first() == s@.skip(w + 1),
            w + 1 <= j <= s.len(),
            parse_robj_ra(s@.skip(w + 1), RaSlots { product: None, condition: None }) == parse_robj_ra(
                s@.skip(j as int),
                sl.deep_view(),
            ),
        decreases s.len() - j,
    {
        proof {
            reveal(parse_rra);
        }
        let jt = scan_rws(s, j);
        proof {
            lemma_skip_ws_len(s@.skip(j as int));
        }
        if jt == s.len() {
            assert(parse_robj_ra(s@.skip(j as int), sl.deep_view()) is None);
            return None;
        }
        proof {
            assert(s@.skip(jt as int)[0] == s@[jt as int]);
            assert(s@.skip(jt as int).drop_first() =~= s@.skip(jt + 1));
        }
        if s[jt] == 0x7d {
            proof {
                assert(parse_robj_ra(s@.skip(j as int), sl.deep_view()) == Some(
                    (sl.deep_view(), s@.skip(jt + 1)),
                ));
            }
            match build_ra_exec(sl) {
                Some(v) => {
                    return Some((v, jt + 1));
                },
                None => {
                    return None;
                },
            }
        }
        let ghost slpre = sl.deep_view();
        let jm = match scan_rmember_ra(s, jt, &mut sl) {
            Some(jm) => jm,
            None => {
                assert(parse_robj_ra(s@.skip(j as int), slpre) is None);
                return None;
            },
        };
        let ju = scan_rws(s, jm);
        proof {
            lemma_skip_ws_len(s@.skip(jm as int));
        }
        if ju == s.len() {
            assert(parse_robj_ra(s@.skip(j as int), slpre) is None);
            return None;
        }
        proof {
            assert(s@.skip(ju as int)[0] == s@[ju as int]);
            assert(s@.skip(ju as int).drop_first() =~= s@.skip(ju + 1));
        }
        if s[ju] == 0x2c {
            j = ju + 1;
        } else if s[ju] == 0x7d {
            proof {
                assert(parse_robj_ra(s@.skip(j as int), slpre) == Some(
                    (sl.deep_view(), s@.skip(ju + 1)),
                ));
            }
            match build_ra_exec(sl) {
                Some(v) => {
                    return Some((v, ju + 1));
                },
                None => {
                    return None;
                },
            }
        } else {
            assert(parse_robj_ra(s@.skip(j as int), slpre) is None);
            return None;
        }
    }
}


/// What has arrived of one daily while its object is being read.
pub struct DailySlots {
    pub id: Option<usize>,
    pub level: Option<LevelRange>,
    pub required_access: Option<RequiredAccess>,
}

struct DailySlotsBuf {
    id: Option<usize>,
    level: Option<LevelRange>,
    required_access: Option<RequiredAccess>,
}

impl DeepView for DailySlotsBuf {
    type V = DailySlots;

    closed spec fn deep_view(&self) -> DailySlots {
        DailySlots {
            id: self.id,
            level: self.level,
            required_access: self.required_access,
        }
    }
}

/// One member: a known key and its value, or an unknown member passed over.
#[verifier::opaque]
pub open spec fn parse_rmember_daily(t: Seq<u8>, acc: DailySlots) -> Option<(DailySlots, Seq<u8>)> {
    if spec_lit(t, tag_lit("id"@)) is Some {
        match after_colon(spec_lit(t, tag_lit("id"@))->0) {
            None => None,
            Some(b) => match parse_rusize(b) {
                None => None,
                Some((v, rest)) => Some((DailySlots { id: Some(v), ..acc }, rest)),
            },
        }
    } else if spec_lit(t, tag_lit("level"@)) is Some {
        match after_colon(spec_lit(t, tag_lit("level"@))->0) {
            None => None,
            Some(b) => match parse_rlevel(b) {
                None => None,
                Some((v, rest)) => Some((DailySlots { level: Some(v), ..acc }, rest)),
            },
        }
    } else if spec_lit(t, tag_lit("required_access"@)) is Some {
        match after_colon(spec_lit(t, tag_lit("required_access"@))->0) {
            None => None,
            Some(b) => match ropt_ra(b) {
                None => None,
                Some((v, rest)) => Some((DailySlots { required_access: v, ..acc }, rest)),
            },
        }
    } else {
        match skip_rmember(t) {
            None => None,
            Some(rest) => Some((acc, rest)),
        }
    }
}

/// The members, read up to and including the brace.
pub open spec fn parse_robj_daily(s: Seq<u8>, acc: DailySlots) -> Option<(DailySlots, Seq<u8>)>
    decreases s.len(),
{
    let t = skip_ws(s);
    if t.len() == 0 {
        None
    } else if t[0] == 0x7d {
        Some((acc, t.drop_first()))
    } else {
        match parse_rmember_daily(t, acc) {
            None => None,
            Some((acc2, r)) => {
                let u = skip_ws(r);
                if u.len() == 0 {
                    None
                } else if u[0] == 0x2c {
                    if u.drop_first().len() < s.len() {
                        parse_robj_daily(u.drop_first(), acc2)
                    } else {
                        None
                    }
                } else if u[0] == 0x7d {
                    Some((acc2, u.drop_first()))
                } else {
                    None
                }
            },
        }
    }
}

/// A daily is complete when its id and level range arrived.
pub open spec fn build_daily(sl: DailySlots) -> Option<Daily> {
    if sl.id is Some && sl.level is Some {
        Some(Daily { id: sl.id->0, level: sl.level->0, required_access: sl.required_access })
    } else {
        None
    }
}

/// A whole object of this shape.
#[verifier::opaque]
pub open spec fn parse_rdaily(s: Seq<u8>) -> Option<(Daily, Seq<u8>)> {
    let t = skip_ws(s);
    if t.len() > 0 && t[0] == 0x7b {
        match parse_robj_daily(t.drop_first(), DailySlots { id: None, level: None, required_access: None }) {
            None => None,
            Some((sl, r)) => match build_daily(sl) {
                None => None,
                Some(v) => Some((v, r)),
            },
        }
    } else {
        None
    }
}

#[verifier::rlimit(100)]
#[verifier::spinoff_prover]
fn scan_rmember_daily(s: &Vec<u8>, j: usize, sl: &mut DailySlotsBuf) -> (r: Option<usize>)
    requires
        j <= s.len(),
    ensures
        match r {
            Some(j2) => {
                &&& j <= j2 <= s.len()
                &&& parse_rmember_daily(s@.skip(j as int), old(sl).deep_view()) == Some(
                    (final(sl).deep_view(), s@.skip(j2 as int)),
                )
            },
            None => parse_rmember_daily(s@.skip(j as int), old(sl).deep_view()) is None
                && final(sl).deep_view() == old(sl).deep_view(),
        },
{
    proof {
        reveal(parse_rmember_daily);
    }
    match crate::reader::scan_tag(s, j, "id") {
        Some(a) => {
            let b = match expect_colon(s, a) {
                Some(b) => b,
                None => {
                    return None;
                },
            };
            let (v, r) = match scan_rusize(s, b) {
                Some(x) => x,
                None => {
                    return None;
                },
            };
            sl.id = Some(v);
            return Some(r);
        },
        None => {},
    }
    match crate::reader::scan_tag(s, j, "level") {
        Some(a) => {
            let b = match expect_colon(s, a) {
                Some(b) => b,
                None => {
                    return None;
                },
            };
            let (v, r) = match scan_rlevel(s, b) {
                Some(x) => x,
                None => {
                    return None;
                },
            };
            sl.level = Some(v);
            return Some(r);
        },
        None => {},
    }
    match crate::reader::scan_tag(s, j, "required_access") {
        Some(a) => {
            let b = match expect_colon(s, a) {
                Some(b) => b,
                None => {
                    return None;
                },
            };
            let (v, r) = match scan_ropt_ra(s, b) {
                Some(x) => x,
                None => {
                    return None;
                },
            };
            sl.required_access = v;
            return Some(r);
        },
        None => {},
    }
    match scan_skip_rmember(s, j) {
        Some(rest) => Some(rest),
        None => None,
    }
}

fn build_daily_exec(sl: DailySlotsBuf) -> (r: Option<Daily>)
    ensures
        r == build_daily(sl.deep_view()),
{
    let DailySlotsBuf { id, level, required_access } = sl;
    if let (Some(id), Some(level)) = (id, level) {
        Some(Daily { id, level, required_access })
    } else {
        None
    }
}

/// Scan a whole object of this shape at position `i`.
#[verifier::rlimit(100)]
#[verifier::spinoff_prover]
pub fn scan_rdaily(s: &Vec<u8>, i: usize) -> (r: Option<(Daily, usize)>)
    requires
        i <= s.len(),
    ensures
        match r {
            Some((v, j)) => i <= j <= s.len() && parse_rdaily(s@.skip(i as int)) == Some(
                (v, s@.skip(j as int)),
            ),
            None => parse_rdaily(s@.skip(i as int)) is None,
        },
{
    proof {
        reveal(parse_rdaily);
    }
    let w = scan_rws(s, i);
    if w == s.len() || s[w] != 0x7b {
        if w < s.len() {
            assert(s@.skip(w as int)[0] == s@[w as int]);
        }
        return None;
    }
    assert(s@.skip(w as int)[0] == 0x7bu8);
    assert(s@.skip(w as int).drop_first() =~= s@.skip(w + 1));
    let mut sl = DailySlotsBuf { id: None, level: None, required_access: None };
    proof {
        assert(sl.deep_view() == DailySlots { id: None, level: None, required_access: None });
    }
    let mut j: usize = w + 1;
    loop
        invariant
            i <= w < s.len(),
            skip_ws(s@.skip(i as int)) == s@.skip(w as int),
            s@.skip(w as int)[0] == 0x7b,
            s@.skip(w as int).drop_first() == s@.skip(w + 1),
            w + 1 <= j <= s.len(),
            parse_robj_daily(s@.skip(w + 1), DailySlots { id: None, level: None, required_access: None }) == parse_robj_daily(
                s@.skip(j as int),
                sl.deep_view(),
            ),
        decreases s.len() - j,
    {
        proof {
            reveal(parse_rdaily);
        }
        let jt = scan_rws(s, j);
        proof {
            lemma_skip_ws_len(s@.skip(j as int));
        }
        if jt == s.len() {
            assert(parse_robj_daily(s@.skip(j as int), sl.deep_view()) is None);
            return None;
        }
        proof {
            assert(s@.skip(jt as int)[0] == s@[jt as int]);
            assert(s@.skip(jt as int).drop_first() =~= s@.skip(jt + 1));
        }
        if s[jt] == 0x7d {
            proof {
                assert(parse_robj_daily(s@.skip(j as int), sl.deep_view()) == Some(
                    (sl.deep_view(), s@.skip(jt + 1)),
                ));
            }
            match build_daily_exec(sl) {
                Some(v) => {
                    return Some((v, jt + 1));
                },
                None => {
                    return None;
                },
            }
        }
        let ghost slpre = sl.deep_view();
        let jm = match scan_rmember_daily(s, jt, &mut sl) {
            Some(jm) => jm,
            None => {
                assert(parse_robj_daily(s@.skip(j as int), slpre) is None);
                return None;
            },
        };
        let ju = scan_rws(s, jm);
        proof {
            lemma_skip_ws_len(s@.skip(jm as int));
        }
        if ju == s.len() {
            assert(parse_robj_daily(s@.skip(j as int), slpre) is None);
            return None;
        }
        proof {
            assert(s@.skip(ju as int)[0] == s@[ju as int]);
            assert(s@.skip(ju as int).drop_first() =~= s@.skip(ju + 1));
        }
        if s[ju] == 0x2c {
            j = ju + 1;
        } else if s[ju] == 0x7d {
            proof {
                assert(parse_robj_daily(s@.skip(j as int), slpre) == Some(
                    (sl.deep_view(), s@.skip(ju + 1)),
                ));
            }
            match build_daily_exec(sl) {
                Some(v) => {
                    return Some((v, ju + 1));
                },
                None => {
                    return None;
                },
            }
        } else {
            assert(parse_robj_daily(s@.skip(j as int), slpre) is None);
            return None;
        }
    }
}


/// What has arrived of one bit while its object is being read.
pub struct BitSlots {
    pub bit_type: Option<Seq<char>>,
    pub id: Option<usize>,
    pub text: Option<Seq<char>>,
}

struct BitSlotsBuf {
    bit_type: Option<String>,
    id: Option<usize>,
    text: Option<String>,
}

impl DeepView for BitSlotsBuf {
    type V = BitSlots;

    closed spec fn deep_view(&self) -> BitSlots {
        BitSlots {
            bit_type: self.bit_type.deep_view(),
            id: self.id,
            text: self.text.deep_view(),
        }
    }
}

/// One member: a known key and its value, or an unknown member passed over.
#[verifier::opaque]
pub open spec fn parse_rmember_bit(t: Seq<u8>, acc: BitSlots) -> Option<(BitSlots, Seq<u8>)> {
    if spec_lit(t, tag_lit("bit_type"@)) is Some {
        match after_colon(spec_lit(t, tag_lit("bit_type"@))->0) {
            None => None,
            Some(b) => match ropt_str(b) {
                None => None,
                Some((v, rest)) => Some((BitSlots { bit_type: v, ..acc }, rest)),
            },
        }
    } else if spec_lit(t, tag_lit("type"@)) is Some {
        match after_colon(spec_lit(t, tag_lit("type"@))->0) {
            None => None,
            Some(b) => match ropt_str(b) {
                None => None,
                Some((v, rest)) => Some((BitSlots { bit_type: v, ..acc }, rest)),
            },
        }
    } else if spec_lit(t, tag_lit("id"@)) is Some {
        match after_colon(spec_lit(t, tag_lit("id"@))->0) {
            None => None,
            Some(b) => match ropt_usize(b) {
                None => None,
                Some((v, rest)) => Some((BitSlots { id: v, ..acc }, rest)),
            },
        }
    } else if spec_lit(t, tag_lit("text"@)) is Some {
        match after_colon(spec_lit(t, tag_lit("text"@))->0) {
            None => None,
            Some(b) => match ropt_str(b) {
                None => None,
                Some((v, rest)) => Some((BitSlots { text: v, ..acc }, rest)),
            },
        }
    } else {
        match skip_rmember(t) {
            None => None,
            Some(rest) => Some((acc, rest)),
        }
    }
}

/// The members, read up to and including the brace.
pub open spec fn parse_robj_bit(s: Seq<u8>, acc: BitSlots) -> Option<(BitSlots, Seq<u8>)>
    decreases s.len(),
{
    let t = skip_ws(s);
    if t.len() == 0 {
        None
    } else if t[0] == 0x7d {
        Some((acc, t.drop_first()))
    } else {
        match parse_rmember_bit(t, acc) {
            None => None,
            Some((acc2, r)) => {
                let u = skip_ws(r);
                if u.len() == 0 {
                    None
                } else if u[0] == 0x2c {
                    if u.drop_first().len() < s.len() {
                        parse_robj_bit(u.drop_first(), acc2)
                    } else {
                        None
                    }
                } else if u[0] == 0x7d {
                    Some((acc2, u.drop_first()))
                } else {
                    None
                }
            },
        }
    }
}

/// Every member of a bit is optional; whatever arrived is the bit.
pub open spec fn build_bit(sl: BitSlots) -> Option<AchievementBitModel> {
    Some(AchievementBitModel { bit_type: sl.bit_type, id: sl.id, text: sl.text })
}

/// A whole object of this shape.
#[verifier::opaque]
pub open spec fn parse_rbit(s: Seq<u8>) -> Option<(AchievementBitModel, Seq<u8>)> {
    let t = skip_ws(s);
    if t.len() > 0 && t[0] == 0x7b {
        match parse_robj_bit(t.drop_first(), BitSlots { bit_type: None, id: None, text: None }) {
            None => None,
            Some((sl, r)) => match build_bit(sl) {
                None => None,
                Some(v) => Some((v, r)),
            },
        }
    } else {
        None
    }
}

#[verifier::rlimit(100)]
#[verifier::spinoff_prover]
fn scan_rmember_bit(s: &Vec<u8>, j: usize, sl: &mut BitSlotsBuf) -> (r: Option<usize>)
    requires
        j <= s.len(),
    ensures
        match r {
            Some(j2) => {
                &&& j <= j2 <= s.len()
                &&& parse_rmember_bit(s@.skip(j as int), old(sl).deep_view()) == Some(
                    (final(sl).deep_view(), s@.skip(j2 as int)),
                )
            },
            None => parse_rmember_bit(s@.skip(j as int), old(sl).deep_view()) is None
                && final(sl).deep_view() == old(sl).deep_view(),
        },
{
    proof {
        reveal(parse_rmember_bit);
    }
    match crate::reader::scan_tag(s, j, "bit_type") {
        Some(a) => {
            let b = match expect_colon(s, a) {
                Some(b) => b,
                None => {
                    return None;
                },
            };
            let (v, r) = match scan_ropt_str(s, b) {
                Some(x) => x,
                None => {
                    return None;
                },
            };
            sl.bit_type = v;
            return Some(r);
        },
        None => {},
    }
    match crate::reader::scan_tag(s, j, "type") {
        Some(a) => {
            let b = match expect_colon(s, a) {
                Some(b) => b,
                None => {
                    return None;
                },
            };
            let (v, r) = match scan_ropt_str(s, b) {
                Some(x) => x,
                None => {
                    return None;
                },
            };
            sl.bit_type = v;
            return Some(r);
        },
        None => {},
    }
    match crate::reader::scan_tag(s, j, "id") {
        Some(a) => {
            let b = match expect_colon(s, a) {
                Some(b) => b,
                None => {
                    return None;
                },
            };
            let (v, r) = match scan_ropt_usize(s, b) {
                Some(x) => x,
                None => {
                    return None;
                },
            };
            sl.id = v;
            return Some(r);
        },
        None => {},
    }
    match crate::reader::scan_tag(s, j, "text") {
        Some(a) => {
            let b = match expect_colon(s, a) {
                Some(b) => b,
                None => {
                    return None;
                },
            };
            let (v, r) = match scan_ropt_str(s, b) {
                Some(x) => x,
                None => {
                    return None;
                },
            };
            sl.text = v;
            return Some(r);
        },
        None => {},
    }
    match scan_skip_rmember(s, j) {
        Some(rest) => Some(rest),
        None => None,
    }
}

fn build_bit_exec(sl: BitSlotsBuf) -> (r: Option<AchievementBit>)
    ensures
        match build_bit(sl.deep_view()) {
            Some(m) => r matches Some(x) && x.deep_view() == m,
            None => r is None,
        },
{
    let BitSlotsBuf { bit_type, id, text } = sl;
    Some(AchievementBit { bit_type, id, text })
}

/// Scan a whole object of this shape at position `i`.
#[verifier::rlimit(100)]
#[verifier::spinoff_prover]
pub fn scan_rbit(s: &Vec<u8>, i: usize) -> (r: Option<(AchievementBit, usize)>)
    requires
        i <= s.len(),
    ensures
        match r {
            Some((v, j)) => i <= j <= s.len() && parse_rbit(s@.skip(i as int)) == Some(
                (v.deep_view(), s@.skip(j as int)),
            ),
            None => parse_rbit(s@.skip(i as int)) is None,
        },
{
    proof {
        reveal(parse_rbit);
    }
    let w = scan_rws(s, i);
    if w == s.len() || s[w] != 0x7b {
        if w < s.len() {
            assert(s@.skip(w as int)[0] == s@[w as int]);
        }
        return None;
    }
    assert(s@.skip(w as int)[0] == 0x7bu8);
    assert(s@.skip(w as int).drop_first() =~= s@.skip(w + 1));
    let mut sl = BitSlotsBuf { bit_type: None, id: None, text: None };
    proof {
        assert(sl.deep_view() == BitSlots { bit_type: None, id: None, text: None });
    }
    let mut j: usize = w + 1;
    loop
        invariant
            i <= w < s.len(),
            skip_ws(s@.skip(i as int)) == s@.skip(w as int),
            s@.skip(w as int)[0] == 0x7b,
            s@.skip(w as int).drop_first() == s@.skip(w + 1),
            w + 1 <= j <= s.len(),
            parse_robj_bit(s@.skip(w + 1), BitSlots { bit_type: None, id: None, text: None }) == parse_robj_bit(
                s@.skip(j as int),
                sl.deep_view(),
            ),
        decreases s.len() - j,
    {
        proof {
            reveal(parse_rbit);
        }
        let jt = scan_rws(s, j);
        proof {
            lemma_skip_ws_len(s@.skip(j as int));
        }
        if jt == s.len() {
            assert(parse_robj_bit(s@.skip(j as int), sl.deep_view()) is None);
            return None;
        }
        proof {
            assert(s@.skip(jt as int)[0] == s@[jt as int]);
            assert(s@.skip(jt as int).drop_first() =~= s@.skip(jt + 1));
        }
        if s[jt] == 0x7d {
            proof {
                assert(parse_robj_bit(s@.skip(j as int), sl.deep_view()) == Some(
                    (sl.deep_view(), s@.skip(jt + 1)),
                ));
            }
            match build_bit_exec(sl) {
                Some(v) => {
                    return Some((v, jt + 1));
                },
                None => {
                    return None;
                },
            }
        }
        let ghost slpre = sl.deep_view();
        let jm = match scan_rmember_bit(s, jt, &mut sl) {
            Some(jm) => jm,
            None => {
                assert(parse_robj_bit(s@.skip(j as int), slpre) is None);
                return None;
            },
        };
        let ju = scan_rws(s, jm);
        proof {
            lemma_skip_ws_len(s@.skip(jm as int));
        }
        if ju == s.len() {
            assert(parse_robj_bit(s@.skip(j as int), slpre) is None);
            return None;
        }
        proof {
            assert(s@.skip(ju as int)[0] == s@[ju as int]);
            assert(s@.skip(ju as int).drop_first() =~= s@.skip(ju + 1));
        }
        if s[ju] == 0x2c {
            j = ju + 1;
        } else if s[ju] == 0x7d {
            proof {
                assert(parse_robj_bit(s@.skip(j as int), slpre) == Some(
                    (sl.deep_view(), s@.skip(ju + 1)),
                ));
            }
            match build_bit_exec(sl) {
                Some(v) => {
                    return Some((v, ju + 1));
                },
                None => {
                    return None;
                },
            }
        } else {
            assert(parse_robj_bit(s@.skip(j as int), slpre) is None);
            return None;
        }
    }
}


/// What has arrived of one reward while its object is being read.
pub struct RewardSlots {
    pub rtag: Option<RTag>,
    pub id: Option<usize>,
    pub count: Option<usize>,
    pub region: Option<Seq<char>>,
}

struct RewardSlotsBuf {
    rtag: Option<RTag>,
    id: Option<usize>,
    count: Option<usize>,
    region: Option<String>,
}

impl DeepView for RewardSlotsBuf {
    type V = RewardSlots;

    closed spec fn deep_view(&self) -> RewardSlots {
        RewardSlots {
            rtag: self.rtag,
            id: self.id,
            count: self.count,
            region: self.region.deep_view(),
        }
    }
}

/// One member: a known key and its value, or an unknown member passed over.
#[verifier::opaque]
pub open spec fn parse_rmember_reward(t: Seq<u8>, acc: RewardSlots) -> Option<(RewardSlots, Seq<u8>)> {
    if spec_lit(t, tag_lit("type"@)) is Some {
        match after_colon(spec_lit(t, tag_lit("type"@))->0) {
            None => None,
            Some(b) => match parse_rrewardtag(b) {
                None => None,
                Some((v, rest)) => Some((RewardSlots { rtag: Some(v), ..acc }, rest)),
            },
        }
    } else if spec_lit(t, tag_lit("id"@)) is Some {
        match after_colon(spec_lit(t, tag_lit("id"@))->0) {
            None => None,
            Some(b) => match ropt_usize(b) {
                None => None,
                Some((v, rest)) => Some((RewardSlots { id: v, ..acc }, rest)),
            },
        }
    } else if spec_lit(t, tag_lit("count"@)) is Some {
        match after_colon(spec_lit(t, tag_lit("count"@))->0) {
            None => None,
            Some(b) => match ropt_usize(b) {
                None => None,
                Some((v, rest)) => Some((RewardSlots { count: v, ..acc }, rest)),
            },
        }
    } else if spec_lit(t, tag_lit("region"@)) is Some {
        match after_colon(spec_lit(t, tag_lit("region"@))->0) {
            None => None,
            Some(b) => match ropt_str(b) {
                None => None,
                Some((v, rest)) => Some((RewardSlots { region: v, ..acc }, rest)),
            },
        }
    } else {
        match skip_rmember(t) {
            None => None,
            Some(rest) => Some((acc, rest)),
        }
    }
}

/// The members, read up to and including the brace.
pub open spec fn parse_robj_reward(s: Seq<u8>, acc: RewardSlots) -> Option<(RewardSlots, Seq<u8>)>
    decreases s.len(),
{
    let t = skip_ws(s);
    if t.len() == 0 {
        None
    } else if t[0] == 0x7d {
        Some((acc, t.drop_first()))
    } else {
        match parse_rmember_reward(t, acc) {
            None => None,
            Some((acc2, r)) => {
                let u = skip_ws(r);
                if u.len() == 0 {
                    None
                } else if u[0] == 0x2c {
                    if u.drop_first().len() < s.len() {
                        parse_robj_reward(u.drop_first(), acc2)
                    } else {
                        None
                    }
                } else if u[0] == 0x7d {
                    Some((acc2, u.drop_first()))
                } else {
                    None
                }
            },
        }
    }
}

/// A reward is complete when its tag arrived together with the members
/// that tag demands.
pub open spec fn build_reward(sl: RewardSlots) -> Option<RewardModel> {
    match sl.rtag {
        None => None,
        Some(t) => match t {
            RTag::Coins => if sl.count is Some {
                Some(RewardModel::Coins { count: sl.count->0 })
            } else {
                None
            },
            RTag::Item => if sl.id is Some && sl.count is Some {
                Some(RewardModel::Item { id: sl.id->0, count: sl.count->0 })
            } else {
                None
            },
            RTag::Mastery => if sl.id is Some && sl.region is Some {
                Some(RewardModel::Mastery { id: sl.id->0, region: sl.region->0 })
            } else {
                None
            },
            RTag::Title => if sl.id is Some {
                Some(RewardModel::Title { id: sl.id->0 })
            } else {
                None
            },
        },
    }
}

/// A whole object of this shape.
#[verifier::opaque]
pub open spec fn parse_rreward(s: Seq<u8>) -> Option<(RewardModel, Seq<u8>)> {
    let t = skip_ws(s);
    if t.len() > 0 && t[0] == 0x7b {
        match parse_robj_reward(t.drop_first(), RewardSlots { rtag: None, id: None, count: None, region: None }) {
            None => None,
            Some((sl, r)) => match build_reward(sl) {
                None => None,
                Some(v) => Some((v, r)),
            },
        }
    } else {
        None
    }
}

#[verifier::rlimit(100)]
#[verifier::spinoff_prover]
fn scan_rmember_reward(s: &Vec<u8>, j: usize, sl: &mut RewardSlotsBuf) -> (r: Option<usize>)
    requires
        j <= s.len(),
    ensures
        match r {
            Some(j2) => {
                &&& j <= j2 <= s.len()
                &&& parse_rmember_reward(s@.skip(j as int), old(sl).deep_view()) == Some(
                    (final(sl).deep_view(), s@.skip(j2 as int)),
                )
            },
            None => parse_rmember_reward(s@.skip(j as int), old(sl).deep_view()) is None
                && final(sl).deep_view() == old(sl).deep_view(),
        },
{
    proof {
        reveal(parse_rmember_reward);
    }
    match crate::reader::scan_tag(s, j, "type") {
        Some(a) => {
            let b = match expect_colon(s, a) {
                Some(b) => b,
                None => {
                    return None;
                },
            };
            let (v, r) = match scan_rrewardtag(s, b) {
                Some(x) => x,
                None => {
                    return None;
                },
            };
            sl.rtag = Some(v);
            return Some(r);
        },
        None => {},
    }
    match crate::reader::scan_tag(s, j, "id") {
        Some(a) => {
            let b = match expect_colon(s, a) {
                Some(b) => b,
                None => {
                    return None;
                },
            };
            let (v, r) = match scan_ropt_usize(s, b) {
                Some(x) => x,
                None => {
                    return None;
                },
            };
            sl.id = v;
            return Some(r);
        },
        None => {},
    }
    match crate::reader::scan_tag(s, j, "count") {
        Some(a) => {
            let b = match expect_colon(s, a) {
                Some(b) => b,
                None => {
                    return None;
                },
            };
            let (v, r) = match scan_ropt_usize(s, b) {
                Some(x) => x,
                None => {
                    return None;
                },
            };
            sl.count = v;
            return Some(r);
        },
        None => {},
    }
    match crate::reader::scan_tag(s, j, "region") {
        Some(a) => {
            let b = match expect_colon(s, a) {
                Some(b) => b,
                None => {
                    return None;
                },
            };
            let (v, r) = match scan_ropt_str(s, b) {
                Some(x) => x,
                None => {
                    return None;
                },
            };
            sl.region = v;
            return Some(r);
        },
        None => {},
    }
    match scan_skip_rmember(s, j) {
        Some(rest) => Some(rest),
        None => None,
    }
}

fn build_reward_exec(sl: RewardSlotsBuf) -> (r: Option<Reward>)
    ensures
        match build_reward(sl.deep_view()) {
            Some(m) => r matches Some(x) && x.deep_view() == m,
            None => r is None,
        },
{
    let RewardSlotsBuf { rtag, id, count, region } = sl;
    match rtag {
        None => None,
        Some(RTag::Coins) => match count {
            Some(count) => Some(Reward::Coins { count }),
            None => None,
        },
        Some(RTag::Item) => match (id, count) {
            (Some(id), Some(count)) => Some(Reward::Item { id, count }),
            _ => None,
        },
        Some(RTag::Mastery) => match (id, region) {
            (Some(id), Some(region)) => Some(Reward::Mastery { id, region }),
            _ => None,
        },
        Some(RTag::Title) => match id {
            Some(id) => Some(Reward::Title { id }),
            None => None,
        },
    }
}

/// Scan a whole object of this shape at position `i`.
#[verifier::rlimit(100)]
#[verifier::spinoff_prover]
pub fn scan_rreward(s: &Vec<u8>, i: usize) -> (r: Option<(Reward, usize)>)
    requires
        i <= s.len(),
    ensures
        match r {
            Some((v, j)) => i <= j <= s.len() && parse_rreward(s@.skip(i as int)) == Some(
                (v.deep_view(), s@.skip(j as int)),
            ),
            None => parse_rreward(s@.skip(i as int)) is None,
        },
{
    proof {
        reveal(parse_rreward);
    }
    let w = scan_rws(s, i);
    if w == s.len() || s[w] != 0x7b {
        if w < s.len() {
            assert(s@.skip(w as int)[0] == s@[w as int]);
        }
        return None;
    }
    assert(s@.skip(w as int)[0] == 0x7bu8);
    assert(s@.skip(w as int).drop_first() =~= s@.skip(w + 1));
    let mut sl = RewardSlotsBuf { rtag: None, id: None, count: None, region: None };
    proof {
        assert(sl.deep_view() == RewardSlots { rtag: None, id: None, count: None, region: None });
    }
    let mut j: usize = w + 1;
    loop
        invariant
            i <= w < s.len(),
            skip_ws(s@.skip(i as int)) == s@.skip(w as int),
            s@.skip(w as int)[0] == 0x7b,
            s@.skip(w as int).drop_first() == s@.skip(w + 1),
            w + 1 <= j <= s.len(),
            parse_robj_reward(s@.skip(w + 1), RewardSlots { rtag: None, id: None, count: None, region: None }) == parse_robj_reward(
                s@.skip(j as int),
                sl.deep_view(),
            ),
        decreases s.len() - j,
    {
        proof {
            reveal(parse_rreward);
        }
        let jt = scan_rws(s, j);
        proof {
            lemma_skip_ws_len(s@.skip(j as int));
        }
        if jt == s.len() {
            assert(parse_robj_reward(s@.skip(j as int), sl.deep_view()) is None);
            return None;
        }
        proof {
            assert(s@.skip(jt as int)[0] == s@[jt as int]);
            assert(s@.skip(jt as int).drop_first() =~= s@.skip(jt + 1));
        }
        if s[jt] == 0x7d {
            proof {
                assert(parse_robj_reward(s@.skip(j as int), sl.deep_view()) == Some(
                    (sl.deep_view(), s@.skip(jt + 1)),
                ));
            }
            match build_reward_exec(sl) {
                Some(v) => {
                    return Some((v, jt + 1));
                },
                None => {
                    return None;
                },
            }
        }
        let ghost slpre = sl.deep_view();
        let jm = match scan_rmember_reward(s, jt, &mut sl) {
            Some(jm) => jm,
            None => {
                assert(parse_robj_reward(s@.skip(j as int), slpre) is None);
                return None;
            },
        };
        let ju = scan_rws(s, jm);
        proof {
            lemma_skip_ws_len(s@.skip(jm as int));
        }
        if ju == s.len() {
            assert(parse_robj_reward(s@.skip(j as int), slpre) is None);
            return None;
        }
        proof {
            assert(s@.skip(ju as int)[0] == s@[ju as int]);
            assert(s@.skip(ju as int).drop_first() =~= s@.skip(ju + 1));
        }
        if s[ju] == 0x2c {
            j = ju + 1;
        } else if s[ju] == 0x7d {
            proof {
                assert(parse_robj_reward(s@.skip(j as int), slpre) == Some(
                    (sl.deep_view(), s@.skip(ju + 1)),
                ));
            }
            match build_reward_exec(sl) {
                Some(v) => {
                    return Some((v, ju + 1));
                },
                None => {
                    return None;
                },
            }
        } else {
            assert(parse_robj_reward(s@.skip(j as int), slpre) is None);
            return None;
        }
    }
}


/// What has arrived of one account record while its object is being read.
pub struct AcctSlots {
    pub id: Option<usize>,
    pub bits: Option<Seq<usize>>,
    pub current: Option<usize>,
    pub max: Option<usize>,
    pub done: Option<bool>,
    pub repeated: Option<usize>,
    pub unlocked: Option<bool>,
}

struct AcctSlotsBuf {
    id: Option<usize>,
    bits: Option<Vec<usize>>,
    current: Option<usize>,
    max: Option<usize>,
    done: Option<bool>,
    repeated: Option<usize>,
    unlocked: Option<bool>,
}

impl DeepView for AcctSlotsBuf {
    type V = AcctSlots;

    closed spec fn deep_view(&self) -> AcctSlots {
        AcctSlots {
            id: self.id,
            bits: self.bits.deep_view(),
            current: self.current,
            max: self.max,
            done: self.done,
            repeated: self.repeated,
            unlocked: self.unlocked,
        }
    }
}

/// One member: a known key and its value, or an unknown member passed over.
#[verifier::opaque]
pub open spec fn parse_rmember_acct(t: Seq<u8>, acc: AcctSlots) -> Option<(AcctSlots, Seq<u8>)> {
    if spec_lit(t, tag_lit("id"@)) is Some {
        match after_colon(spec_lit(t, tag_lit("id"@))->0) {
            None => None,
            Some(b) => match parse_rusize(b) {
                None => None,
                Some((v, rest)) => Some((AcctSlots { id: Some(v), ..acc }, rest)),
            },
        }
    } else if spec_lit(t, tag_lit("bits"@)) is Some {
        match after_colon(spec_lit(t, tag_lit("bits"@))->0) {
            None => None,
            Some(b) => match ropt_arr_usize(b) {
                None => None,
                Some((v, rest)) => Some((AcctSlots { bits: v, ..acc }, rest)),
            },
        }
    } else if spec_lit(t, tag_lit("current"@)) is Some {
        match after_colon(spec_lit(t, tag_lit("current"@))->0) {
            None => None,
            Some(b) => match ropt_usize(b) {
                None => None,
                Some((v, rest)) => Some((AcctSlots { current: v, ..acc }, rest)),
            },
        }
    } else if spec_lit(t, tag_lit("max"@)) is Some {
        match after_colon(spec_lit(t, tag_lit("max"@))->0) {
            None => None,
            Some(b) => match ropt_usize(b) {
                None => None,
                Some((v, rest)) => Some((AcctSlots { max: v, ..acc }, rest)),
            },
        }
    } else if spec_lit(t, tag_lit("done"@)) is Some {
        match after_colon(spec_lit(t, tag_lit("done"@))->0) {
            None => None,
            Some(b) => match parse_rbool(b) {
                None => None,
                Some((v, rest)) => Some((AcctSlots { done: Some(v), ..acc }, rest)),
            },
        }
    } else if spec_lit(t, tag_lit("repeated"@)) is Some {
        match after_colon(spec_lit(t, tag_lit("repeated"@))->0) {
            None => None,
            Some(b) => match ropt_usize(b) {
                None => None,
                Some((v, rest)) => Some((AcctSlots { repeated: v, ..acc }, rest)),
            },
        }
    } else if spec_lit(t, tag_lit("unlocked"@)) is Some {
        match after_colon(spec_lit(t, tag_lit("unlocked"@))->0) {
            None => None,
            Some(b) => match ropt_bool(b) {
                None => None,
                Some((v, rest)) => Some((AcctSlots { unlocked: v, ..acc }, rest)),
            },
        }
    } else {
        match skip_rmember(t) {
            None => None,
            Some(rest) => Some((acc, rest)),
        }
    }
}

/// The members, read up to and including the brace.
pub open spec fn parse_robj_acct(s: Seq<u8>, acc: AcctSlots) -> Option<(AcctSlots, Seq<u8>)>
    decreases s.len(),
{
    let t = skip_ws(s);
    if t.len() == 0 {
        None
    } else if t[0] == 0x7d {
        Some((acc, t.drop_first()))
    } else {
        match parse_rmember_acct(t, acc) {
            None => None,
            Some((acc2, r)) => {
                let u = skip_ws(r);
                if u.len() == 0 {
                    None
                } else if u[0] == 0x2c {
                    if u.drop_first().len() < s.len() {
                        parse_robj_acct(u.drop_first(), acc2)
                    } else {
                        None
                    }
                } else if u[0] == 0x7d {
                    Some((acc2, u.drop_first()))
                } else {
                    None
                }
            },
        }
    }
}

/// An account record is complete when its id and done flag arrived.
pub open spec fn build_acct(sl: AcctSlots) -> Option<AccountAchievementModel> {
    if sl.id is Some && sl.done is Some {
        Some(
            AccountAchievementModel {
                id: sl.id->0,
                bits: sl.bits,
                current: sl.current,
                max: sl.max,
                done: sl.done->0,
                repeated: sl.repeated,
                unlocked: sl.unlocked,
            },
        )
    } else {
        None
    }
}

/// A whole object of this shape.
#[verifier::opaque]
pub open spec fn parse_racct(s: Seq<u8>) -> Option<(AccountAchievementModel, Seq<u8>)> {
    let t = skip_ws(s);
    if t.len() > 0 && t[0] == 0x7b {
        match parse_robj_acct(t.drop_first(), AcctSlots { id: None, bits: None, current: None, max: None, done: None, repeated: None, unlocked: None }) {
            None => None,
            Some((sl, r)) => match build_acct(sl) {
                None => None,
                Some(v) => Some((v, r)),
            },
        }
    } else {
        None
    }
}

#[verifier::rlimit(100)]
#[verifier::spinoff_prover]
fn scan_rmember_acct(s: &Vec<u8>, j: usize, sl: &mut AcctSlotsBuf) -> (r: Option<usize>)
    requires
        j <= s.len(),
    ensures
        match r {
            Some(j2) => {
                &&& j <= j2 <= s.len()
                &&& parse_rmember_acct(s@.skip(j as int), old(sl).deep_view()) == Some(
                    (final(sl).deep_view(), s@.skip(j2 as int)),
                )
            },
            None => parse_rmember_acct(s@.skip(j as int), old(sl).deep_view()) is None
                && final(sl).deep_view() == old(sl).deep_view(),
        },
{
    proof {
        reveal(parse_rmember_acct);
    }
    match crate::reader::scan_tag(s, j, "id") {
        Some(a) => {
            let b = match expect_colon(s, a) {
                Some(b) => b,
                None => {
                    return None;
                },
            };
            let (v, r) = match scan_rusize(s, b) {
                Some(x) => x,
                None => {
                    return None;
                },
            };
            sl.id = Some(v);
            return Some(r);
        },
        None => {},
    }
    match crate::reader::scan_tag(s, j, "bits") {
        Some(a) => {
            let b = match expect_colon(s, a) {
                Some(b) => b,
                None => {
                    return None;
                },
            };
            let (v, r) = match scan_ropt_arr_usize(s, b) {
                Some(x) => x,
                None => {
                    return None;
                },
            };
            sl.bits = v;
            return Some(r);
        },
        None => {},
    }
    match crate::reader::scan_tag(s, j, "current") {
        Some(a) => {
            let b = match expect_colon(s, a) {
                Some(b) => b,
                None => {
                    return None;
                },
            };
            let (v, r) = match scan_ropt_usize(s, b) {
                Some(x) => x,
                None => {
                    return None;
                },
            };
            sl.current = v;
            return Some(r);
        },
        None => {},
    }
    match crate::reader::scan_tag(s, j, "max") {
        Some(a) => {
            let b = match expect_colon(s, a) {
                Some(b) => b,
                None => {
                    return None;
                },
            };
            let (v, r) = match scan_ropt_usize(s, b) {
                Some(x) => x,
                None => {
                    return None;
                },
            };
            sl.max = v;
            return Some(r);
        },
        None => {},
    }
    match crate::reader::scan_tag(s, j, "done") {
        Some(a) => {
            let b = match expect_colon(s, a) {
                Some(b) => b,
                None => {
                    return None;
                },
            };
            let (v, r) = match scan_rbool(s, b) {
                Some(x) => x,
                None => {
                    return None;
                },
            };
            sl.done = Some(v);
            return Some(r);
        },
        None => {},
    }
    match crate::reader::scan_tag(s, j, "repeated") {
        Some(a) => {
            let b = match expect_colon(s, a) {
                Some(b) => b,
                None => {
                    return None;
                },
            };
            let (v, r) = match scan_ropt_usize(s, b) {
                Some(x) => x,
                None => {
                    return None;
                },
            };
            sl.repeated = v;
            return Some(r);
        },
        None => {},
    }
    match crate::reader::scan_tag(s, j, "unlocked") {
        Some(a) => {
            let b = match expect_colon(s, a) {
                Some(b) => b,
                None => {
                    return None;
                },
            };
            let (v, r) = match scan_ropt_bool(s, b) {
                Some(x) => x,
                None => {
                    return None;
                },
            };
            sl.unlocked = v;
            return Some(r);
        },
        None => {},
    }
    match scan_skip_rmember(s, j) {
        Some(rest) => Some(rest),
        None => None,
    }
}

fn build_acct_exec(sl: AcctSlotsBuf) -> (r: Option<AccountAchievement>)
    ensures
        match build_acct(sl.deep_view()) {
            Some(m) => r matches Some(x) && x.deep_view() == m,
            None => r is None,
        },
{
    let AcctSlotsBuf { id, bits, current, max, done, repeated, unlocked } = sl;
    if let (Some(id), Some(done)) = (id, done) {
        Some(AccountAchievement { id, bits, current, max, done, repeated, unlocked })
    } else {
        None
    }
}

/// Scan a whole object of this shape at position `i`.
#[verifier::rlimit(100)]
#[verifier::spinoff_prover]
pub fn scan_racct(s: &Vec<u8>, i: usize) -> (r: Option<(AccountAchievement, usize)>)
    requires
        i <= s.len(),
    ensures
        match r {
            Some((v, j)) => i <= j <= s.len() && parse_racct(s@.skip(i as int)) == Some(
                (v.deep_view(), s@.skip(j as int)),
            ),
            None => parse_racct(s@.skip(i as int)) is None,
        },
{
    proof {
        reveal(parse_racct);
    }
    let w = scan_rws(s, i);
    if w == s.len() || s[w] != 0x7b {
        if w < s.len() {
            assert(s@.skip(w as int)[0] == s@[w as int]);
        }
        return None;
    }
    assert(s@.skip(w as int)[0] == 0x7bu8);
    assert(s@.skip(w as int).drop_first() =~= s@.skip(w + 1));
    let mut sl = AcctSlotsBuf { id: None, bits: None, current: None, max: None, done: None, repeated: None, unlocked: None };
    proof {
        assert(sl.deep_view() == AcctSlots { id: None, bits: None, current: None, max: None, done: None, repeated: None, unlocked: None });
    }
    let mut j: usize = w + 1;
    loop
        invariant
            i <= w < s.len(),
            skip_ws(s@.skip(i as int)) == s@.skip(w as int),
            s@.skip(w as int)[0] == 0x7b,
            s@.skip(w as int).drop_first() == s@.skip(w + 1),
            w + 1 <= j <= s.len(),
            parse_robj_acct(s@.skip(w + 1), AcctSlots { id: None, bits: None, current: None, max: None, done: None, repeated: None, unlocked: None }) == parse_robj_acct(
                s@.skip(j as int),
                sl.deep_view(),
            ),
        decreases s.len() - j,
    {
        proof {
            reveal(parse_racct);
        }
        let jt = scan_rws(s, j);
        proof {
            lemma_skip_ws_len(s@.skip(j as int));
        }
        if jt == s.len() {
            assert(parse_robj_acct(s@.skip(j as int), sl.deep_view()) is None);
            return None;
        }
        proof {
            assert(s@.skip(jt as int)[0] == s@[jt as int]);
            assert(s@.skip(jt as int).drop_first() =~= s@.skip(jt + 1));
        }
        if s[jt] == 0x7d {
            proof {
                assert(parse_robj_acct(s@.skip(j as int), sl.deep_view()) == Some(
                    (sl.deep_view(), s@.skip(jt + 1)),
                ));
            }
            match build_acct_exec(sl) {
                Some(v) => {
                    return Some((v, jt + 1));
                },
                None => {
                    return None;
                },
            }
        }
        let ghost slpre = sl.deep_view();
        let jm = match scan_rmember_acct(s, jt, &mut sl) {
            Some(jm) => jm,
            None => {
                assert(parse_robj_acct(s@.skip(j as int), slpre) is None);
                return None;
            },
        };
        let ju = scan_rws(s, jm);
        proof {
            lemma_skip_ws_len(s@.skip(jm as int));
        }
        if ju == s.len() {
            assert(parse_robj_acct(s@.skip(j as int), slpre) is None);
            return None;
        }
        proof {
            assert(s@.skip(ju as int)[0] == s@[ju as int]);
            assert(s@.skip(ju as int).drop_first() =~= s@.skip(ju + 1));
        }
        if s[ju] == 0x2c {
            j = ju + 1;
        } else if s[ju] == 0x7d {
            proof {
                assert(parse_robj_acct(s@.skip(j as int), slpre) == Some(
                    (sl.deep_view(), s@.skip(ju + 1)),
                ));
            }
            match build_acct_exec(sl) {
                Some(v) => {
                    return Some((v, ju + 1));
                },
                None => {
                    return None;
                },
            }
        } else {
            assert(parse_robj_acct(s@.skip(j as int), slpre) is None);
            return None;
        }
    }
}


pub open spec fn ropt_ra(s: Seq<u8>) -> Option<(Option<RequiredAccess>, Seq<u8>)> {
    let t = skip_ws(s);
    if spec_lit(t, null_lit()) is Some {
        Some((None, spec_lit(t, null_lit())->0))
    } else {
        match parse_rra(t) {
            Some((v, rest)) => Some((Some(v), rest)),
            None => None,
        }
    }
}

fn scan_ropt_ra(s: &Vec<u8>, i: usize) -> (r: Option<(Option<RequiredAccess>, usize)>)
    requires
        i <= s.len(),
    ensures
        match r {
            Some((v, j)) => i <= j <= s.len() && ropt_ra(s@.skip(i as int)) == Some(
                (v, s@.skip(j as int)),
            ),
            None => ropt_ra(s@.skip(i as int)) is None,
        },
{
    let w = scan_rws(s, i);
    match crate::combinators::scan_null(s, w) {
        Some(j) => Some((None, j)),
        None => match scan_rra(s, w) {
            Some((v, j)) => Some((Some(v), j)),
            None => None,
        },
    }
}


pub open spec fn parse_relems_daily(s: Seq<u8>) -> Option<(Seq<Daily>, Seq<u8>)>
    decreases s.len(),
{
    let t = skip_ws(s);
    if t.len() == 0 {
        None
    } else if t[0] == 0x5d {
        Some((Seq::empty(), t.drop_first()))
    } else {
        match parse_rdaily(t) {
            None => None,
            Some((v, r)) => {
                let u = skip_ws(r);
                if u.len() == 0 {
                    None
                } else if u[0] == 0x2c {
                    if u.drop_first().len() < s.len() {
                        match parse_relems_daily(u.drop_first()) {
                            None => None,
                            Some((vs, rest)) => Some((seq![v] + vs, rest)),
                        }
                    } else {
                        None
                    }
                } else if u[0] == 0x5d {
                    Some((seq![v], u.drop_first()))
                } else {
                    None
                }
            },
        }
    }
}

pub open spec fn parse_rarr_daily(s: Seq<u8>) -> Option<(Seq<Daily>, Seq<u8>)> {
    let t = skip_ws(s);
    if t.len() > 0 && t[0] == 0x5b {
        parse_relems_daily(t.drop_first())
    } else {
        None
    }
}

#[verifier::rlimit(100)]
#[verifier::spinoff_prover]
pub fn scan_rarr_daily(s: &Vec<u8>, i: usize) -> (r: Option<(Vec<Daily>, usize)>)
    requires
        i <= s.len(),
    ensures
        match r {
            Some((v, j)) => {
                &&& i <= j <= s.len()
                &&& parse_rarr_daily(s@.skip(i as int)) == Some((v@, s@.skip(j as int)))
            },
            None => parse_rarr_daily(s@.skip(i as int)) is None,
        },
{
    let w = scan_rws(s, i);
    if w == s.len() || s[w] != 0x5b {
        if w < s.len() {
            assert(s@.skip(w as int)[0] == s@[w as int]);
        }
        return None;
    }
    assert(s@.skip(w as int)[0] == 0x5bu8);
    assert(s@.skip(w as int).drop_first() =~= s@.skip(w + 1));
    let mut out: Vec<Daily> = Vec::new();
    proof {
        assert(out@ =~= Seq::<Daily>::empty());
    }
    let mut j: usize = w + 1;
    loop
        invariant
            i <= w < s.len(),
            skip_ws(s@.skip(i as int)) == s@.skip(w as int),
            s@.skip(w as int)[0] == 0x5b,
            s@.skip(w as int).drop_first() == s@.skip(w + 1),
            w + 1 <= j <= s.len(),
            parse_relems_daily(s@.skip(w + 1)) == prepend_vals(
                out@,
                parse_relems_daily(s@.skip(j as int)),
            ),
        decreases s.len() - j,
    {
        let jt = scan_rws(s, j);
        proof {
            lemma_skip_ws_len(s@.skip(j as int));
        }
        if jt == s.len() {
            assert(parse_relems_daily(s@.skip(j as int)) is None);
            return None;
        }
        proof {
            assert(s@.skip(jt as int)[0] == s@[jt as int]);
            assert(s@.skip(jt as int).drop_first() =~= s@.skip(jt + 1));
        }
        if s[jt] == 0x5d {
            proof {
                assert(parse_relems_daily(s@.skip(j as int)) == Some(
                    (Seq::<Daily>::empty(), s@.skip(jt + 1)),
                ));
                assert(out@ + Seq::<Daily>::empty() =~= out@);
            }
            return Some((out, jt + 1));
        }
        match scan_rdaily(s, jt) {
            None => {
                assert(parse_relems_daily(s@.skip(j as int)) is None);
                return None;
            },
            Some((v, r)) => {
                let ghost vm = v;
                let ju = scan_rws(s, r);
                proof {
                    lemma_skip_ws_len(s@.skip(r as int));
                }
                if ju == s.len() {
                    assert(parse_relems_daily(s@.skip(j as int)) is None);
                    return None;
                }
                proof {
                    assert(s@.skip(ju as int)[0] == s@[ju as int]);
                    assert(s@.skip(ju as int).drop_first() =~= s@.skip(ju + 1));
                }
                if s[ju] == 0x2c {
                    proof {
                        let inner = parse_relems_daily(s@.skip(ju + 1));
                        assert(parse_relems_daily(s@.skip(j as int)) == prepend_vals(
                            seq![vm],
                            inner,
                        ));
                        match inner {
                            Some((vs2, r2)) => {
                                assert(out@ + (seq![vm] + vs2) =~= out@.push(vm) + vs2);
                            },
                            None => {},
                        }
                    }
                    out.push(v);
                    j = ju + 1;
                } else if s[ju] == 0x5d {
                    proof {
                        assert(parse_relems_daily(s@.skip(j as int)) == Some(
                            (seq![vm], s@.skip(ju + 1)),
                        ));
                        assert(out@ + seq![vm] =~= out@.push(vm));
                    }
                    out.push(v);
                    return Some((out, ju + 1));
                } else {
                    assert(parse_relems_daily(s@.skip(j as int)) is None);
                    return None;
                }
            },
        }
    }
}


pub open spec fn parse_relems_bit(s: Seq<u8>) -> Option<(Seq<AchievementBitModel>, Seq<u8>)>
    decreases s.len(),
{
    let t = skip_ws(s);
    if t.len() == 0 {
        None
    } else if t[0] == 0x5d {
        Some((Seq::empty(), t.drop_first()))
    } else {
        match parse_rbit(t) {
            None => None,
            Some((v, r)) => {
                let u = skip_ws(r);
                if u.len() == 0 {
                    None
                } else if u[0] == 0x2c {
                    if u.drop_first().len() < s.len() {
                        match parse_relems_bit(u.drop_first()) {
                            None => None,
                            Some((vs, rest)) => Some((seq![v] + vs, rest)),
                        }
                    } else {
                        None
                    }
                } else if u[0] == 0x5d {
                    Some((seq![v], u.drop_first()))
                } else {
                    None
                }
            },
        }
    }
}

pub open spec fn parse_rarr_bit(s: Seq<u8>) -> Option<(Seq<AchievementBitModel>, Seq<u8>)> {
    let t = skip_ws(s);
    if t.len() > 0 && t[0] == 0x5b {
        parse_relems_bit(t.drop_first())
    } else {
        None
    }
}

#[verifier::rlimit(100)]
#[verifier::spinoff_prover]
pub fn scan_rarr_bit(s: &Vec<u8>, i: usize) -> (r: Option<(Vec<AchievementBit>, usize)>)
    requires
        i <= s.len(),
    ensures
        match r {
            Some((v, j)) => {
                &&& i <= j <= s.len()
                &&& parse_rarr_bit(s@.skip(i as int)) == Some((v.deep_view(), s@.skip(j as int)))
            },
            None => parse_rarr_bit(s@.skip(i as int)) is None,
        },
{
    let w = scan_rws(s, i);
    if w == s.len() || s[w] != 0x5b {
        if w < s.len() {
            assert(s@.skip(w as int)[0] == s@[w as int]);
        }
        return None;
    }
    assert(s@.skip(w as int)[0] == 0x5bu8);
    assert(s@.skip(w as int).drop_first() =~= s@.skip(w + 1));
    let mut out: Vec<AchievementBit> = Vec::new();
    proof {
        assert(out.deep_view() =~= Seq::<AchievementBitModel>::empty());
    }
    let mut j: usize = w + 1;
    loop
        invariant
            i <= w < s.len(),
            skip_ws(s@.skip(i as int)) == s@.skip(w as int),
            s@.skip(w as int)[0] == 0x5b,
            s@.skip(w as int).drop_first() == s@.skip(w + 1),
            w + 1 <= j <= s.len(),
            parse_relems_bit(s@.skip(w + 1)) == prepend_vals(
                out.deep_view(),
                parse_relems_bit(s@.skip(j as int)),
            ),
        decreases s.len() - j,
    {
        let jt = scan_rws(s, j);
        proof {
            lemma_skip_ws_len(s@.skip(j as int));
        }
        if jt == s.len() {
            assert(parse_relems_bit(s@.skip(j as int)) is None);
            return None;
        }
        proof {
            assert(s@.skip(jt as int)[0] == s@[jt as int]);
            assert(s@.skip(jt as int).drop_first() =~= s@.skip(jt + 1));
        }
        if s[jt] == 0x5d {
            proof {
                assert(parse_relems_bit(s@.skip(j as int)) == Some(
                    (Seq::<AchievementBitModel>::empty(), s@.skip(jt + 1)),
                ));
                assert(out.deep_view() + Seq::<AchievementBitModel>::empty() =~= out.deep_view());
            }
            return Some((out, jt + 1));
        }
        match scan_rbit(s, jt) {
            None => {
                assert(parse_relems_bit(s@.skip(j as int)) is None);
                return None;
            },
            Some((v, r)) => {
                let ghost vm = v.deep_view();
                let ju = scan_rws(s, r);
                proof {
                    lemma_skip_ws_len(s@.skip(r as int));
                }
                if ju == s.len() {
                    assert(parse_relems_bit(s@.skip(j as int)) is None);
                    return None;
                }
                proof {
                    assert(s@.skip(ju as int)[0] == s@[ju as int]);
                    assert(s@.skip(ju as int).drop_first() =~= s@.skip(ju + 1));
                }
                if s[ju] == 0x2c {
                    proof {
                        let inner = parse_relems_bit(s@.skip(ju + 1));
                        assert(parse_relems_bit(s@.skip(j as int)) == prepend_vals(
                            seq![vm],
                            inner,
                        ));
                        match inner {
                            Some((vs2, r2)) => {
                                assert(out.deep_view() + (seq![vm] + vs2) =~= out.deep_view().push(vm) + vs2);
                            },
                            None => {},
                        }
                    }
                    out.push(v);
                    j = ju + 1;
                } else if s[ju] == 0x5d {
                    proof {
                        assert(parse_relems_bit(s@.skip(j as int)) == Some(
                            (seq![vm], s@.skip(ju + 1)),
                        ));
                        assert(out.deep_view() + seq![vm] =~= out.deep_view().push(vm));
                    }
                    out.push(v);
                    return Some((out, ju + 1));
                } else {
                    assert(parse_relems_bit(s@.skip(j as int)) is None);
                    return None;
                }
            },
        }
    }
}


pub open spec fn ropt_arr_bit(s: Seq<u8>) -> Option<(Option<Seq<AchievementBitModel>>, Seq<u8>)> {
    let t = skip_ws(s);
    if spec_lit(t, null_lit()) is Some {
        Some((None, spec_lit(t, null_lit())->0))
    } else {
        match parse_rarr_bit(t) {
            Some((v, rest)) => Some((Some(v), rest)),
            None => None,
        }
    }
}

fn scan_ropt_arr_bit(s: &Vec<u8>, i: usize) -> (r: Option<(Option<Vec<AchievementBit>>, usize)>)
    requires
        i <= s.len(),
    ensures
        match r {
            Some((v, j)) => i <= j <= s.len() && ropt_arr_bit(s@.skip(i as int)) == Some(
                (v.deep_view(), s@.skip(j as int)),
            ),
            None => ropt_arr_bit(s@.skip(i as int)) is None,
        },
{
    let w = scan_rws(s, i);
    match crate::combinators::scan_null(s, w) {
        Some(j) => Some((None, j)),
        None => match scan_rarr_bit(s, w) {
            Some((v, j)) => Some((Some(v), j)),
            None => None,
        },
    }
}


pub open spec fn parse_relems_reward(s: Seq<u8>) -> Option<(Seq<RewardModel>, Seq<u8>)>
    decreases s.len(),
{
    let t = skip_ws(s);
    if t.len() == 0 {
        None
    } else if t[0] == 0x5d {
        Some((Seq::empty(), t.drop_first()))
    } else {
        match parse_rreward(t) {
            None => None,
            Some((v, r)) => {
                let u = skip_ws(r);
                if u.len() == 0 {
                    None
                } else if u[0] == 0x2c {
                    if u.drop_first().len() < s.len() {
                        match parse_relems_reward(u.drop_first()) {
                            None => None,
                            Some((vs, rest)) => Some((seq![v] + vs, rest)),
                        }
                    } else {
                        None
                    }
                } else if u[0] == 0x5d {
                    Some((seq![v], u.drop_first()))
                } else {
                    None
                }
            },
        }
    }
}

pub open spec fn parse_rarr_reward(s: Seq<u8>) -> Option<(Seq<RewardModel>, Seq<u8>)> {
    let t = skip_ws(s);
    if t.len() > 0 && t[0] == 0x5b {
        parse_relems_reward(t.drop_first())
    } else {
        None
    }
}

#[verifier::rlimit(100)]
#[verifier::spinoff_prover]
pub fn scan_rarr_reward(s: &Vec<u8>, i: usize) -> (r: Option<(Vec<Reward>, usize)>)
    requires
        i <= s.len(),
    ensures
        match r {
            Some((v, j)) => {
                &&& i <= j <= s.len()
                &&& parse_rarr_reward(s@.skip(i as int)) == Some((v.deep_view(), s@.skip(j as int)))
            },
            None => parse_rarr_reward(s@.skip(i as int)) is None,
        },
{
    let w = scan_rws(s, i);
    if w == s.len() || s[w] != 0x5b {
        if w < s.len() {
            assert(s@.skip(w as int)[0] == s@[w as int]);
        }
        return None;
    }
    assert(s@.skip(w as int)[0] == 0x5bu8);
    assert(s@.skip(w as int).drop_first() =~= s@.skip(w + 1));
    let mut out: Vec<Reward> = Vec::new();
    proof {
        assert(out.deep_view() =~= Seq::<RewardModel>::empty());
    }
    let mut j: usize = w + 1;
    loop
        invariant
            i <= w < s.len(),
            skip_ws(s@.skip(i as int)) == s@.skip(w as int),
            s@.skip(w as int)[0] == 0x5b,
            s@.skip(w as int).drop_first() == s@.skip(w + 1),
            w + 1 <= j <= s.len(),
            parse_relems_reward(s@.skip(w + 1)) == prepend_vals(
                out.deep_view(),
                parse_relems_reward(s@.skip(j as int)),
            ),
        decreases s.len() - j,
    {
        let jt = scan_rws(s, j);
        proof {
            lemma_skip_ws_len(s@.skip(j as int));
        }
        if jt == s.len() {
            assert(parse_relems_reward(s@.skip(j as int)) is None);
            return None;
        }
        proof {
            assert(s@.skip(jt as int)[0] == s@[jt as int]);
            assert(s@.skip(jt as int).drop_first() =~= s@.skip(jt + 1));
        }
        if s[jt] == 0x5d {
            proof {
                assert(parse_relems_reward(s@.skip(j as int)) == Some(
                    (Seq::<RewardModel>::empty(), s@.skip(jt + 1)),
                ));
                assert(out.deep_view() + Seq::<RewardModel>::empty() =~= out.deep_view());
            }
            return Some((out, jt + 1));
        }
        match scan_rreward(s, jt) {
            None => {
                assert(parse_relems_reward(s@.skip(j as int)) is None);
                return None;
            },
            Some((v, r)) => {
                let ghost vm = v.deep_view();
                let ju = scan_rws(s, r);
                proof {
                    lemma_skip_ws_len(s@.skip(r as int));
                }
                if ju == s.len() {
                    assert(parse_relems_reward(s@.skip(j as int)) is None);
                    return None;
                }
                proof {
                    assert(s@.skip(ju as int)[0] == s@[ju as int]);
                    assert(s@.skip(ju as int).drop_first() =~= s@.skip(ju + 1));
                }
                if s[ju] == 0x2c {
                    proof {
                        let inner = parse_relems_reward(s@.skip(ju + 1));
                        assert(parse_relems_reward(s@.skip(j as int)) == prepend_vals(
                            seq![vm],
                            inner,
                        ));
                        match inner {
                            Some((vs2, r2)) => {
                                assert(out.deep_view() + (seq![vm] + vs2) =~= out.deep_view().push(vm) + vs2);
                            },
                            None => {},
                        }
                    }
                    out.push(v);
                    j = ju + 1;
                } else if s[ju] == 0x5d {
                    proof {
                        assert(parse_relems_reward(s@.skip(j as int)) == Some(
                            (seq![vm], s@.skip(ju + 1)),
                        ));
                        assert(out.deep_view() + seq![vm] =~= out.deep_view().push(vm));
                    }
                    out.push(v);
                    return Some((out, ju + 1));
                } else {
                    assert(parse_relems_reward(s@.skip(j as int)) is None);
                    return None;
                }
            },
        }
    }
}


pub open spec fn ropt_arr_reward(s: Seq<u8>) -> Option<(Option<Seq<RewardModel>>, Seq<u8>)> {
    let t = skip_ws(s);
    if spec_lit(t, null_lit()) is Some {
        Some((None, spec_lit(t, null_lit())->0))
    } else {
        match parse_rarr_reward(t) {
            Some((v, rest)) => Some((Some(v), rest)),
            None => None,
        }
    }
}

fn scan_ropt_arr_reward(s: &Vec<u8>, i: usize) -> (r: Option<(Option<Vec<Reward>>, usize)>)
    requires
        i <= s.len(),
    ensures
        match r {
            Some((v, j)) => i <= j <= s.len() && ropt_arr_reward(s@.skip(i as int)) == Some(
                (v.deep_view(), s@.skip(j as int)),
            ),
            None => ropt_arr_reward(s@.skip(i as int)) is None,
        },
{
    let w = scan_rws(s, i);
    match crate::combinators::scan_null(s, w) {
        Some(j) => Some((None, j)),
        None => match scan_rarr_reward(s, w) {
            Some((v, j)) => Some((Some(v), j)),
            None => None,
        },
    }
}


/// What has arrived of one achievement while its object is being read.
pub struct AchSlots {
    pub id: Option<usize>,
    pub icon: Option<Seq<char>>,
    pub name: Option<Seq<char>>,
    pub description: Option<Seq<char>>,
    pub requirement: Option<Seq<char>>,
    pub locked_text: Option<Seq<char>>,
    pub achievement_type: Option<Seq<char>>,
    pub flags: Option<Seq<Seq<char>>>,
    pub tiers: Option<Seq<AchievementTier>>,
    pub prerequisites: Option<Seq<usize>>,
    pub rewards: Option<Seq<RewardModel>>,
    pub bits: Option<Seq<AchievementBitModel>>,
    pub point_cap: Option<i32>,
}

struct AchSlotsBuf {
    id: Option<usize>,
    icon: Option<String>,
    name: Option<String>,
    description: Option<String>,
    requirement: Option<String>,
    locked_text: Option<String>,
    achievement_type: Option<String>,
    flags: Option<Vec<String>>,
    tiers: Option<Vec<AchievementTier>>,
    prerequisites: Option<Vec<usize>>,
    rewards: Option<Vec<Reward>>,
    bits: Option<Vec<AchievementBit>>,
    point_cap: Option<i32>,
}

impl DeepView for AchSlotsBuf {
    type V = AchSlots;

    closed spec fn deep_view(&self) -> AchSlots {
        AchSlots {
            id: self.id,
            icon: self.icon.deep_view(),
            name: self.name.deep_view(),
            description: self.description.deep_view(),
            requirement: self.requirement.deep_view(),
            locked_text: self.locked_text.deep_view(),
            achievement_type: self.achievement_type.deep_view(),
            flags: self.flags.deep_view(),
            tiers: self.tiers.deep_view(),
            prerequisites: self.prerequisites.deep_view(),
            rewards: self.rewards.deep_view(),
            bits: self.bits.deep_view(),
            point_cap: self.point_cap,
        }
    }
}

/// One member: a known key and its value, or an unknown member passed over.
#[verifier::opaque]
pub open spec fn parse_rmember_ach(t: Seq<u8>, acc: AchSlots) -> Option<(AchSlots, Seq<u8>)> {
    if spec_lit(t, tag_lit("id"@)) is Some {
        match after_colon(spec_lit(t, tag_lit("id"@))->0) {
            None => None,
            Some(b) => match parse_rusize(b) {
                None => None,
                Some((v, rest)) => Some((AchSlots { id: Some(v), ..acc }, rest)),
            },
        }
    } else if spec_lit(t, tag_lit("icon"@)) is Some {
        match after_colon(spec_lit(t, tag_lit("icon"@))->0) {
            None => None,
            Some(b) => match ropt_str(b) {
                None => None,
                Some((v, rest)) => Some((AchSlots { icon: v, ..acc }, rest)),
            },
        }
    } else if spec_lit(t, tag_lit("name"@)) is Some {
        match after_colon(spec_lit(t, tag_lit("name"@))->0) {
            None => None,
            Some(b) => match parse_rstring(b) {
                None => None,
                Some((v, rest)) => Some((AchSlots { name: Some(v), ..acc }, rest)),
            },
        }
    } else if spec_lit(t, tag_lit("description"@)) is Some {
        match after_colon(spec_lit(t, tag_lit("description"@))->0) {
            None => None,
            Some(b) => match parse_rstring(b) {
                None => None,
                Some((v, rest)) => Some((AchSlots { description: Some(v), ..acc }, rest)),
            },
        }
    } else if spec_lit(t, tag_lit("requirement"@)) is Some {
        match after_colon(spec_lit(t, tag_lit("requirement"@))->0) {
            None => None,
            Some(b) => match parse_rstring(b) {
                None => None,
                Some((v, rest)) => Some((AchSlots { requirement: Some(v), ..acc }, rest)),
            },
        }
    } else if spec_lit(t, tag_lit("locked_text"@)) is Some {
        match after_colon(spec_lit(t, tag_lit("locked_text"@))->0) {
            None => None,
            Some(b) => match parse_rstring(b) {
                None => None,
                Some((v, rest)) => Some((AchSlots { locked_text: Some(v), ..acc }, rest)),
            },
        }
    } else if spec_lit(t, tag_lit("achievement_type"@)) is Some {
        match after_colon(spec_lit(t, tag_lit("achievement_type"@))->0) {
            None => None,
            Some(b) => match parse_rstring(b) {
                None => None,
                Some((v, rest)) => Some((AchSlots { achievement_type: Some(v), ..acc }, rest)),
            },
        }
    } else if spec_lit(t, tag_lit("type"@)) is Some {
        match after_colon(spec_lit(t, tag_lit("type"@))->0) {
            None => None,
            Some(b) => match parse_rstring(b) {
                None => None,
                Some((v, rest)) => Some((AchSlots { achievement_type: Some(v), ..acc }, rest)),
            },
        }
    } else if spec_lit(t, tag_lit("flags"@)) is Some {
        match after_colon(spec_lit(t, tag_lit("flags"@))->0) {
            None => None,
            Some(b) => match parse_rarr_str(b) {
                None => None,
                Some((v, rest)) => Some((AchSlots { flags: Some(v), ..acc }, rest)),
            },
        }
    } else if spec_lit(t, tag_lit("tiers"@)) is Some {
        match after_colon(spec_lit(t, tag_lit("tiers"@))->0) {
            None => None,
            Some(b) => match parse_rarr_tier(b) {
                None => None,
                Some((v, rest)) => Some((AchSlots { tiers: Some(v), ..acc }, rest)),
            },
        }
    } else if spec_lit(t, tag_lit("prerequisites"@)) is Some {
        match after_colon(spec_lit(t, tag_lit("prerequisites"@))->0) {
            None => None,
            Some(b) => match ropt_arr_usize(b) {
                None => None,
                Some((v, rest)) => Some((AchSlots { prerequisites: v, ..acc }, rest)),
            },
        }
    } else if spec_lit(t, tag_lit("rewards"@)) is Some {
        match after_colon(spec_lit(t, tag_lit("rewards"@))->0) {
            None => None,
            Some(b) => match ropt_arr_reward(b) {
                None => None,
                Some((v, rest)) => Some((AchSlots { rewards: v, ..acc }, rest)),
            },
        }
    } else if spec_lit(t, tag_lit("bits"@)) is Some {
        match after_colon(spec_lit(t, tag_lit("bits"@))->0) {
            None => None,
            Some(b) => match ropt_arr_bit(b) {
                None => None,
                Some((v, rest)) => Some((AchSlots { bits: v, ..acc }, rest)),
            },
        }
    } else if spec_lit(t, tag_lit("point_cap"@)) is Some {
        match after_colon(spec_lit(t, tag_lit("point_cap"@))->0) {
            None => None,
            Some(b) => match ropt_i32(b) {
                None => None,
                Some((v, rest)) => Some((AchSlots { point_cap: v, ..acc }, rest)),
            },
        }
    } else {
        match skip_rmember(t) {
            None => None,
            Some(rest) => Some((acc, rest)),
        }
    }
}

/// The members, read up to and including the brace.
pub open spec fn parse_robj_ach(s: Seq<u8>, acc: AchSlots) -> Option<(AchSlots, Seq<u8>)>
    decreases s.len(),
{
    let t = skip_ws(s);
    if t.len() == 0 {
        None
    } else if t[0] == 0x7d {
        Some((acc, t.drop_first()))
    } else {
        match parse_rmember_ach(t, acc) {
            None => None,
            Some((acc2, r)) => {
                let u = skip_ws(r);
                if u.len() == 0 {
                    None
                } else if u[0] == 0x2c {
                    if u.drop_first().len() < s.len() {
                        parse_robj_ach(u.drop_first(), acc2)
                    } else {
                        None
                    }
                } else if u[0] == 0x7d {
                    Some((acc2, u.drop_first()))
                } else {
                    None
                }
            },
        }
    }
}

/// An achievement is complete when every member serde would demand has
/// arrived; the optional ones stand as they came.
pub open spec fn build_ach(sl: AchSlots) -> Option<AchievementModel> {
    if sl.id is Some && sl.name is Some && sl.description is Some && sl.requirement is Some
        && sl.locked_text is Some && sl.achievement_type is Some && sl.flags is Some
        && sl.tiers is Some {
        Some(
            AchievementModel {
                id: sl.id->0,
                icon: sl.icon,
                name: sl.name->0,
                description: sl.description->0,
                requirement: sl.requirement->0,
                locked_text: sl.locked_text->0,
                achievement_type: sl.achievement_type->0,
                flags: sl.flags->0,
                tiers: sl.tiers->0,
                prerequisites: sl.prerequisites,
                rewards: sl.rewards,
                bits: sl.bits,
                point_cap: sl.point_cap,
            },
        )
    } else {
        None
    }
}

/// A whole object of this shape.
#[verifier::opaque]
pub open spec fn parse_rach(s: Seq<u8>) -> Option<(AchievementModel, Seq<u8>)> {
    let t = skip_ws(s);
    if t.len() > 0 && t[0] == 0x7b {
        match parse_robj_ach(t.drop_first(), AchSlots { id: None, icon: None, name: None, description: None, requirement: None, locked_text: None, achievement_type: None, flags: None, tiers: None, prerequisites: None, rewards: None, bits: None, point_cap: None }) {
            None => None,
            Some((sl, r)) => match build_ach(sl) {
                None => None,
                Some(v) => Some((v, r)),
            },
        }
    } else {
        None
    }
}

#[verifier::rlimit(100)]
#[verifier::spinoff_prover]
fn scan_rmember_ach(s: &Vec<u8>, j: usize, sl: &mut AchSlotsBuf) -> (r: Option<usize>)
    requires
        j <= s.len(),
    ensures
        match r {
            Some(j2) => {
                &&& j <= j2 <= s.len()
                &&& parse_rmember_ach(s@.skip(j as int), old(sl).deep_view()) == Some(
                    (final(sl).deep_view(), s@.skip(j2 as int)),
                )
            },
            None => parse_rmember_ach(s@.skip(j as int), old(sl).deep_view()) is None
                && final(sl).deep_view() == old(sl).deep_view(),
        },
{
    proof {
        reveal(parse_rmember_ach);
    }
    match crate::reader::scan_tag(s, j, "id") {
        Some(a) => {
            let b = match expect_colon(s, a) {
                Some(b) => b,
                None => {
                    return None;
                },
            };
            let (v, r) = match scan_rusize(s, b) {
                Some(x) => x,
                None => {
                    return None;
                },
            };
            sl.id = Some(v);
            return Some(r);
        },
        None => {},
    }
    match crate::reader::scan_tag(s, j, "icon") {
        Some(a) => {
            let b = match expect_colon(s, a) {
                Some(b) => b,
                None => {
                    return None;
                },
            };
            let (v, r) = match scan_ropt_str(s, b) {
                Some(x) => x,
                None => {
                    return None;
                },
            };
            sl.icon = v;
            return Some(r);
        },
        None => {},
    }
    match crate::reader::scan_tag(s, j, "name") {
        Some(a) => {
            let b = match expect_colon(s, a) {
                Some(b) => b,
                None => {
                    return None;
                },
            };
            let (v, r) = match scan_rstring(s, b) {
                Some(x) => x,
                None => {
                    return None;
                },
            };
            sl.name = Some(v);
            return Some(r);
        },
        None => {},
    }
    match crate::reader::scan_tag(s, j, "description") {
        Some(a) => {
            let b = match expect_colon(s, a) {
                Some(b) => b,
                None => {
                    return None;
                },
            };
            let (v, r) = match scan_rstring(s, b) {
                Some(x) => x,
                None => {
                    return None;
                },
            };
            sl.description = Some(v);
            return Some(r);
        },
        None => {},
    }
    match crate::reader::scan_tag(s, j, "requirement") {
        Some(a) => {
            let b = match expect_colon(s, a) {
                Some(b) => b,
                None => {
                    return None;
                },
            };
            let (v, r) = match scan_rstring(s, b) {
                Some(x) => x,
                None => {
                    return None;
                },
            };
            sl.requirement = Some(v);
            return Some(r);
        },
        None => {},
    }
    match crate::reader::scan_tag(s, j, "locked_text") {
        Some(a) => {
            let b = match expect_colon(s, a) {
                Some(b) => b,
                None => {
                    return None;
                },
            };
            let (v, r) = match scan_rstring(s, b) {
                Some(x) => x,
                None => {
                    return None;
                },
            };
            sl.locked_text = Some(v);
            return Some(r);
        },
        None => {},
    }
    match crate::reader::scan_tag(s, j, "achievement_type") {
        Some(a) => {
            let b = match expect_colon(s, a) {
                Some(b) => b,
                None => {
                    return None;
                },
            };
            let (v, r) = match scan_rstring(s, b) {
                Some(x) => x,
                None => {
                    return None;
                },
            };
            sl.achievement_type = Some(v);
            return Some(r);
        },
        None => {},
    }
    match crate::reader::scan_tag(s, j, "type") {
        Some(a) => {
            let b = match expect_colon(s, a) {
                Some(b) => b,
                None => {
                    return None;
                },
            };
            let (v, r) = match scan_rstring(s, b) {
                Some(x) => x,
                None => {
                    return None;
                },
            };
            sl.achievement_type = Some(v);
            return Some(r);
        },
        None => {},
    }
    match crate::reader::scan_tag(s, j, "flags") {
        Some(a) => {
            let b = match expect_colon(s, a) {
                Some(b) => b,
                None => {
                    return None;
                },
            };
            let (v, r) = match scan_rarr_str(s, b) {
                Some(x) => x,
                None => {
                    return None;
                },
            };
            sl.flags = Some(v);
            return Some(r);
        },
        None => {},
    }
    match crate::reader::scan_tag(s, j, "tiers") {
        Some(a) => {
            let b = match expect_colon(s, a) {
                Some(b) => b,
                None => {
                    return None;
                },
            };
            let (v, r) = match scan_rarr_tier(s, b) {
                Some(x) => x,
                None => {
                    return None;
                },
            };
            proof {
                assert(v.deep_view() =~= v@);
            }
            sl.tiers = Some(v);
            return Some(r);
        },
        None => {},
    }
    match crate::reader::scan_tag(s, j, "prerequisites") {
        Some(a) => {
            let b = match expect_colon(s, a) {
                Some(b) => b,
                None => {
                    return None;
                },
            };
            let (v, r) = match scan_ropt_arr_usize(s, b) {
                Some(x) => x,
                None => {
                    return None;
                },
            };
            sl.prerequisites = v;
            return Some(r);
        },
        None => {},
    }
    match crate::reader::scan_tag(s, j, "rewards") {
        Some(a) => {
            let b = match expect_colon(s, a) {
                Some(b) => b,
                None => {
                    return None;
                },
            };
            let (v, r) = match scan_ropt_arr_reward(s, b) {
                Some(x) => x,
                None => {
                    return None;
                },
            };
            sl.rewards = v;
            return Some(r);
        },
        None => {},
    }
    match crate::reader::scan_tag(s, j, "bits") {
        Some(a) => {
            let b = match expect_colon(s, a) {
                Some(b) => b,
                None => {
                    return None;
                },
            };
            let (v, r) = match scan_ropt_arr_bit(s, b) {
                Some(x) => x,
                None => {
                    return None;
                },
            };
            sl.bits = v;
            return Some(r);
        },
        None => {},
    }
    match crate::reader::scan_tag(s, j, "point_cap") {
        Some(a) => {
            let b = match expect_colon(s, a) {
                Some(b) => b,
                None => {
                    return None;
                },
            };
            let (v, r) = match scan_ropt_i32(s, b) {
                Some(x) => x,
                None => {
                    return None;
                },
            };
            sl.point_cap = v;
            return Some(r);
        },
        None => {},
    }
    match scan_skip_rmember(s, j) {
        Some(rest) => Some(rest),
        None => None,
    }
}

fn build_ach_exec(sl: AchSlotsBuf) -> (r: Option<Achievement>)
    ensures
        match build_ach(sl.deep_view()) {
            Some(m) => r matches Some(x) && x.deep_view() == m,
            None => r is None,
        },
{
    let AchSlotsBuf {
        id,
        icon,
        name,
        description,
        requirement,
        locked_text,
        achievement_type,
        flags,
        tiers,
        prerequisites,
        rewards,
        bits,
        point_cap,
    } = sl;
    if let (
        Some(id),
        Some(name),
        Some(description),
        Some(requirement),
        Some(locked_text),
        Some(achievement_type),
        Some(flags),
        Some(tiers),
    ) = (id, name, description, requirement, locked_text, achievement_type, flags, tiers) {
        Some(
            Achievement {
                id,
                icon,
                name,
                description,
                requirement,
                locked_text,
                achievement_type,
                flags,
                tiers,
                prerequisites,
                rewards,
                bits,
                point_cap,
            },
        )
    } else {
        None
    }
}

/// Scan a whole object of this shape at position `i`.
#[verifier::rlimit(100)]
#[verifier::spinoff_prover]
pub fn scan_rach(s: &Vec<u8>, i: usize) -> (r: Option<(Achievement, usize)>)
    requires
        i <= s.len(),
    ensures
        match r {
            Some((v, j)) => i <= j <= s.len() && parse_rach(s@.skip(i as int)) == Some(
                (v.deep_view(), s@.skip(j as int)),
            ),
            None => parse_rach(s@.skip(i as int)) is None,
        },
{
    proof {
        reveal(parse_rach);
    }
    let w = scan_rws(s, i);
    if w == s.len() || s[w] != 0x7b {
        if w < s.len() {
            assert(s@.skip(w as int)[0] == s@[w as int]);
        }
        return None;
    }
    assert(s@.skip(w as int)[0] == 0x7bu8);
    assert(s@.skip(w as int).drop_first() =~= s@.skip(w + 1));
    let mut sl = AchSlotsBuf { id: None, icon: None, name: None, description: None, requirement: None, locked_text: None, achievement_type: None, flags: None, tiers: None, prerequisites: None, rewards: None, bits: None, point_cap: None };
    proof {
        assert(sl.deep_view() == AchSlots { id: None, icon: None, name: None, description: None, requirement: None, locked_text: None, achievement_type: None, flags: None, tiers: None, prerequisites: None, rewards: None, bits: None, point_cap: None });
    }
    let mut j: usize = w + 1;
    loop
        invariant
            i <= w < s.len(),
            skip_ws(s@.skip(i as int)) == s@.skip(w as int),
            s@.skip(w as int)[0] == 0x7b,
            s@.skip(w as int).drop_first() == s@.skip(w + 1),
            w + 1 <= j <= s.len(),
            parse_robj_ach(s@.skip(w + 1), AchSlots { id: None, icon: None, name: None, description: None, requirement: None, locked_text: None, achievement_type: None, flags: None, tiers: None, prerequisites: None, rewards: None, bits: None, point_cap: None }) == parse_robj_ach(
                s@.skip(j as int),
                sl.deep_view(),
            ),
        decreases s.len() - j,
    {
        proof {
            reveal(parse_rach);
        }
        let jt = scan_rws(s, j);
        proof {
            lemma_skip_ws_len(s@.skip(j as int));
        }
        if jt == s.len() {
            assert(parse_robj_ach(s@.skip(j as int), sl.deep_view()) is None);
            return None;
        }
        proof {
            assert(s@.skip(jt as int)[0] == s@[jt as int]);
            assert(s@.skip(jt as int).drop_first() =~= s@.skip(jt + 1));
        }
        if s[jt] == 0x7d {
            proof {
                assert(parse_robj_ach(s@.skip(j as int), sl.deep_view()) == Some(
                    (sl.deep_view(), s@.skip(jt + 1)),
                ));
            }
            match build_ach_exec(sl) {
                Some(v) => {
                    return Some((v, jt + 1));
                },
                None => {
                    return None;
                },
            }
        }
        let ghost slpre = sl.deep_view();
        let jm = match scan_rmember_ach(s, jt, &mut sl) {
            Some(jm) => jm,
            None => {
                assert(parse_robj_ach(s@.skip(j as int), slpre) is None);
                return None;
            },
        };
        let ju = scan_rws(s, jm);
        proof {
            lemma_skip_ws_len(s@.skip(jm as int));
        }
        if ju == s.len() {
            assert(parse_robj_ach(s@.skip(j as int), slpre) is None);
            return None;
        }
        proof {
            assert(s@.skip(ju as int)[0] == s@[ju as int]);
            assert(s@.skip(ju as int).drop_first() =~= s@.skip(ju + 1));
        }
        if s[ju] == 0x2c {
            j = ju + 1;
        } else if s[ju] == 0x7d {
            proof {
                assert(parse_robj_ach(s@.skip(j as int), slpre) == Some(
                    (sl.deep_view(), s@.skip(ju + 1)),
                ));
            }
            match build_ach_exec(sl) {
                Some(v) => {
                    return Some((v, ju + 1));
                },
                None => {
                    return None;
                },
            }
        } else {
            assert(parse_robj_ach(s@.skip(j as int), slpre) is None);
            return None;
        }
    }
}


/// What has arrived of one daily-set document while its object is being read.
pub struct DlsSlots {
    pub pve: Option<Seq<Daily>>,
    pub pvp: Option<Seq<Daily>>,
    pub wvw: Option<Seq<Daily>>,
    pub fractals: Option<Seq<Daily>>,
    pub special: Option<Seq<Daily>>,
}

struct DlsSlotsBuf {
    pve: Option<Vec<Daily>>,
    pvp: Option<Vec<Daily>>,
    wvw: Option<Vec<Daily>>,
    fractals: Option<Vec<Daily>>,
    special: Option<Vec<Daily>>,
}

impl DeepView for DlsSlotsBuf {
    type V = DlsSlots;

    closed spec fn deep_view(&self) -> DlsSlots {
        DlsSlots {
            pve: self.pve.deep_view(),
            pvp: self.pvp.deep_view(),
            wvw: self.wvw.deep_view(),
            fractals: self.fractals.deep_view(),
            special: self.special.deep_view(),
        }
    }
}

/// One member: a known key and its value, or an unknown member passed over.
#[verifier::opaque]
pub open spec fn parse_rmember_dls(t: Seq<u8>, acc: DlsSlots) -> Option<(DlsSlots, Seq<u8>)> {
    if spec_lit(t, tag_lit("pve"@)) is Some {
        match after_colon(spec_lit(t, tag_lit("pve"@))->0) {
            None => None,
            Some(b) => match parse_rarr_daily(b) {
                None => None,
                Some((v, rest)) => Some((DlsSlots { pve: Some(v), ..acc }, rest)),
            },
        }
    } else if spec_lit(t, tag_lit("pvp"@)) is Some {
        match after_colon(spec_lit(t, tag_lit("pvp"@))->0) {
            None => None,
            Some(b) => match parse_rarr_daily(b) {
                None => None,
                Some((v, rest)) => Some((DlsSlots { pvp: Some(v), ..acc }, rest)),
            },
        }
    } else if spec_lit(t, tag_lit("wvw"@)) is Some {
        match after_colon(spec_lit(t, tag_lit("wvw"@))->0) {
            None => None,
            Some(b) => match parse_rarr_daily(b) {
                None => None,
                Some((v, rest)) => Some((DlsSlots { wvw: Some(v), ..acc }, rest)),
            },
        }
    } else if spec_lit(t, tag_lit("fractals"@)) is Some {
        match after_colon(spec_lit(t, tag_lit("fractals"@))->0) {
            None => None,
            Some(b) => match parse_rarr_daily(b) {
                None => None,
                Some((v, rest)) => Some((DlsSlots { fractals: Some(v), ..acc }, rest)),
            },
        }
    } else if spec_lit(t, tag_lit("special"@)) is Some {
        match after_colon(spec_lit(t, tag_lit("special"@))->0) {
            None => None,
            Some(b) => match parse_rarr_daily(b) {
                None => None,
                Some((v, rest)) => Some((DlsSlots { special: Some(v), ..acc }, rest)),
            },
        }
    } else {
        match skip_rmember(t) {
            None => None,
            Some(rest) => Some((acc, rest)),
        }
    }
}

/// The members, read up to and including the brace.
pub open spec fn parse_robj_dls(s: Seq<u8>, acc: DlsSlots) -> Option<(DlsSlots, Seq<u8>)>
    decreases s.len(),
{
    let t = skip_ws(s);
    if t.len() == 0 {
        None
    } else if t[0] == 0x7d {
        Some((acc, t.drop_first()))
    } else {
        match parse_rmember_dls(t, acc) {
            None => None,
            Some((acc2, r)) => {
                let u = skip_ws(r);
                if u.len() == 0 {
                    None
                } else if u[0] == 0x2c {
                    if u.drop_first().len() < s.len() {
                        parse_robj_dls(u.drop_first(), acc2)
                    } else {
                        None
                    }
                } else if u[0] == 0x7d {
                    Some((acc2, u.drop_first()))
                } else {
                    None
                }
            },
        }
    }
}

/// The daily sets are complete when all five categories arrived.
pub open spec fn build_dls(sl: DlsSlots) -> Option<DailiesModel> {
    if sl.pve is Some && sl.pvp is Some && sl.wvw is Some && sl.fractals is Some
        && sl.special is Some {
        Some(
            DailiesModel {
                pve: sl.pve->0,
                pvp: sl.pvp->0,
                wvw: sl.wvw->0,
                fractals: sl.fractals->0,
                special: sl.special->0,
            },
        )
    } else {
        None
    }
}

/// A whole object of this shape.
#[verifier::opaque]
pub open spec fn parse_rdls(s: Seq<u8>) -> Option<(DailiesModel, Seq<u8>)> {
    let t = skip_ws(s);
    if t.len() > 0 && t[0] == 0x7b {
        match parse_robj_dls(t.drop_first(), DlsSlots { pve: None, pvp: None, wvw: None, fractals: None, special: None }) {
            None => None,
            Some((sl, r)) => match build_dls(sl) {
                None => None,
                Some(v) => Some((v, r)),
            },
        }
    } else {
        None
    }
}

#[verifier::rlimit(100)]
#[verifier::spinoff_prover]
fn scan_rmember_dls(s: &Vec<u8>, j: usize, sl: &mut DlsSlotsBuf) -> (r: Option<usize>)
    requires
        j <= s.len(),
    ensures
        match r {
            Some(j2) => {
                &&& j <= j2 <= s.len()
                &&& parse_rmember_dls(s@.skip(j as int), old(sl).deep_view()) == Some(
                    (final(sl).deep_view(), s@.skip(j2 as int)),
                )
            },
            None => parse_rmember_dls(s@.skip(j as int), old(sl).deep_view()) is None
                && final(sl).deep_view() == old(sl).deep_view(),
        },
{
    proof {
        reveal(parse_rmember_dls);
    }
    match crate::reader::scan_tag(s, j, "pve") {
        Some(a) => {
            let b = match expect_colon(s, a) {
                Some(b) => b,
                None => {
                    return None;
                },
            };
            let (v, r) = match scan_rarr_daily(s, b) {
                Some(x) => x,
                None => {
                    return None;
                },
            };
            proof {
                assert(v.deep_view() =~= v@);
            }
            sl.pve = Some(v);
            return Some(r);
        },
        None => {},
    }
    match crate::reader::scan_tag(s, j, "pvp") {
        Some(a) => {
            let b = match expect_colon(s, a) {
                Some(b) => b,
                None => {
                    return None;
                },
            };
            let (v, r) = match scan_rarr_daily(s, b) {
                Some(x) => x,
                None => {
                    return None;
                },
            };
            proof {
                assert(v.deep_view() =~= v@);
            }
            sl.pvp = Some(v);
            return Some(r);
        },
        None => {},
    }
    match crate::reader::scan_tag(s, j, "wvw") {
        Some(a) => {
            let b = match expect_colon(s, a) {
                Some(b) => b,
                None => {
                    return None;
                },
            };
            let (v, r) = match scan_rarr_daily(s, b) {
                Some(x) => x,
                None => {
                    return None;
                },
            };
            proof {
                assert(v.deep_view() =~= v@);
            }
            sl.wvw = Some(v);
            return Some(r);
        },
        None => {},
    }
    match crate::reader::scan_tag(s, j, "fractals") {
        Some(a) => {
            let b = match expect_colon(s, a) {
                Some(b) => b,
                None => {
                    return None;
                },
            };
            let (v, r) = match scan_rarr_daily(s, b) {
                Some(x) => x,
                None => {
                    return None;
                },
            };
            proof {
                assert(v.deep_view() =~= v@);
            }
            sl.fractals = Some(v);
            return Some(r);
        },
        None => {},
    }
    match crate::reader::scan_tag(s, j, "special") {
        Some(a) => {
            let b = match expect_colon(s, a) {
                Some(b) => b,
                None => {
                    return None;
                },
            };
            let (v, r) = match scan_rarr_daily(s, b) {
                Some(x) => x,
                None => {
                    return None;
                },
            };
            proof {
                assert(v.deep_view() =~= v@);
            }
            sl.special = Some(v);
            return Some(r);
        },
        None => {},
    }
    match scan_skip_rmember(s, j) {
        Some(rest) => Some(rest),
        None => None,
    }
}

fn build_dls_exec(sl: DlsSlotsBuf) -> (r: Option<Dailies>)
    ensures
        match build_dls(sl.deep_view()) {
            Some(m) => r matches Some(x) && x.deep_view() == m,
            None => r is None,
        },
{
    let DlsSlotsBuf { pve, pvp, wvw, fractals, special } = sl;
    if let (Some(pve), Some(pvp), Some(wvw), Some(fractals), Some(special)) = (
        pve,
        pvp,
        wvw,
        fractals,
        special,
    ) {
        Some(Dailies { pve, pvp, wvw, fractals, special })
    } else {
        None
    }
}

/// Scan a whole object of this shape at position `i`.
#[verifier::rlimit(100)]
#[verifier::spinoff_prover]
pub fn scan_rdls(s: &Vec<u8>, i: usize) -> (r: Option<(Dailies, usize)>)
    requires
        i <= s.len(),
    ensures
        match r {
            Some((v, j)) => i <= j <= s.len() && parse_rdls(s@.skip(i as int)) == Some(
                (v.deep_view(), s@.skip(j as int)),
            ),
            None => parse_rdls(s@.skip(i as int)) is None,
        },
{
    proof {
        reveal(parse_rdls);
    }
    let w = scan_rws(s, i);
    if w == s.len() || s[w] != 0x7b {
        if w < s.len() {
            assert(s@.skip(w as int)[0] == s@[w as int]);
        }
        return None;
    }
    assert(s@.skip(w as int)[0] == 0x7bu8);
    assert(s@.skip(w as int).drop_first() =~= s@.skip(w + 1));
    let mut sl = DlsSlotsBuf { pve: None, pvp: None, wvw: None, fractals: None, special: None };
    proof {
        assert(sl.deep_view() == DlsSlots { pve: None, pvp: None, wvw: None, fractals: None, special: None });
    }
    let mut j: usize = w + 1;
    loop
        invariant
            i <= w < s.len(),
            skip_ws(s@.skip(i as int)) == s@.skip(w as int),
            s@.skip(w as int)[0] == 0x7b,
            s@.skip(w as int).drop_first() == s@.skip(w + 1),
            w + 1 <= j <= s.len(),
            parse_robj_dls(s@.skip(w + 1), DlsSlots { pve: None, pvp: None, wvw: None, fractals: None, special: None }) == parse_robj_dls(
                s@.skip(j as int),
                sl.deep_view(),
            ),
        decreases s.len() - j,
    {
        proof {
            reveal(parse_rdls);
        }
        let jt = scan_rws(s, j);
        proof {
            lemma_skip_ws_len(s@.skip(j as int));
        }
        if jt == s.len() {
            assert(parse_robj_dls(s@.skip(j as int), sl.deep_view()) is None);
            return None;
        }
        proof {
            assert(s@.skip(jt as int)[0] == s@[jt as int]);
            assert(s@.skip(jt as int).drop_first() =~= s@.skip(jt + 1));
        }
        if s[jt] == 0x7d {
            proof {
                assert(parse_robj_dls(s@.skip(j as int), sl.deep_view()) == Some(
                    (sl.deep_view(), s@.skip(jt + 1)),
                ));
            }
            match build_dls_exec(sl) {
                Some(v) => {
                    return Some((v, jt + 1));
                },
                None => {
                    return None;
                },
            }
        }
        let ghost slpre = sl.deep_view();
        let jm = match scan_rmember_dls(s, jt, &mut sl) {
            Some(jm) => jm,
            None => {
                assert(parse_robj_dls(s@.skip(j as int), slpre) is None);
                return None;
            },
        };
        let ju = scan_rws(s, jm);
        proof {
            lemma_skip_ws_len(s@.skip(jm as int));
        }
        if ju == s.len() {
            assert(parse_robj_dls(s@.skip(j as int), slpre) is None);
            return None;
        }
        proof {
            assert(s@.skip(ju as int)[0] == s@[ju as int]);
            assert(s@.skip(ju as int).drop_first() =~= s@.skip(ju + 1));
        }
        if s[ju] == 0x2c {
            j = ju + 1;
        } else if s[ju] == 0x7d {
            proof {
                assert(parse_robj_dls(s@.skip(j as int), slpre) == Some(
                    (sl.deep_view(), s@.skip(ju + 1)),
                ));
            }
            match build_dls_exec(sl) {
                Some(v) => {
                    return Some((v, ju + 1));
                },
                None => {
                    return None;
                },
            }
        } else {
            assert(parse_robj_dls(s@.skip(j as int), slpre) is None);
            return None;
        }
    }
}


pub open spec fn parse_relems_acct(s: Seq<u8>) -> Option<(Seq<AccountAchievementModel>, Seq<u8>)>
    decreases s.len(),
{
    let t = skip_ws(s);
    if t.len() == 0 {
        None
    } else if t[0] == 0x5d {
        Some((Seq::empty(), t.drop_first()))
    } else {
        match parse_racct(t) {
            None => None,
            Some((v, r)) => {
                let u = skip_ws(r);
                if u.len() == 0 {
                    None
                } else if u[0] == 0x2c {
                    if u.drop_first().len() < s.len() {
                        match parse_relems_acct(u.drop_first()) {
                            None => None,
                            Some((vs, rest)) => Some((seq![v] + vs, rest)),
                        }
                    } else {
                        None
                    }
                } else if u[0] == 0x5d {
                    Some((seq![v], u.drop_first()))
                } else {
                    None
                }
            },
        }
    }
}

pub open spec fn parse_rarr_acct(s: Seq<u8>) -> Option<(Seq<AccountAchievementModel>, Seq<u8>)> {
    let t = skip_ws(s);
    if t.len() > 0 && t[0] == 0x5b {
        parse_relems_acct(t.drop_first())
    } else {
        None
    }
}

#[verifier::rlimit(100)]
#[verifier::spinoff_prover]
pub fn scan_rarr_acct(s: &Vec<u8>, i: usize) -> (r: Option<(Vec<AccountAchievement>, usize)>)
    requires
        i <= s.len(),
    ensures
        match r {
            Some((v, j)) => {
                &&& i <= j <= s.len()
                &&& parse_rarr_acct(s@.skip(i as int)) == Some((v.deep_view(), s@.skip(j as int)))
            },
            None => parse_rarr_acct(s@.skip(i as int)) is None,
        },
{
    let w = scan_rws(s, i);
    if w == s.len() || s[w] != 0x5b {
        if w < s.len() {
            assert(s@.skip(w as int)[0] == s@[w as int]);
        }
        return None;
    }
    assert(s@.skip(w as int)[0] == 0x5bu8);
    assert(s@.skip(w as int).drop_first() =~= s@.skip(w + 1));
    let mut out: Vec<AccountAchievement> = Vec::new();
    proof {
        assert(out.deep_view() =~= Seq::<AccountAchievementModel>::empty());
    }
    let mut j: usize = w + 1;
    loop
        invariant
            i <= w < s.len(),
            skip_ws(s@.skip(i as int)) == s@.skip(w as int),
            s@.skip(w as int)[0] == 0x5b,
            s@.skip(w as int).drop_first() == s@.skip(w + 1),
            w + 1 <= j <= s.len(),
            parse_relems_acct(s@.skip(w + 1)) == prepend_vals(
                out.deep_view(),
                parse_relems_acct(s@.skip(j as int)),
            ),
        decreases s.len() - j,
    {
        let jt = scan_rws(s, j);
        proof {
            lemma_skip_ws_len(s@.skip(j as int));
        }
        if jt == s.len() {
            assert(parse_relems_acct(s@.skip(j as int)) is None);
            return None;
        }
        proof {
            assert(s@.skip(jt as int)[0] == s@[jt as int]);
            assert(s@.skip(jt as int).drop_first() =~= s@.skip(jt + 1));
        }
        if s[jt] == 0x5d {
            proof {
                assert(parse_relems_acct(s@.skip(j as int)) == Some(
                    (Seq::<AccountAchievementModel>::empty(), s@.skip(jt + 1)),
                ));
                assert(out.deep_view() + Seq::<AccountAchievementModel>::empty() =~= out.deep_view());
            }
            return Some((out, jt + 1));
        }
        match scan_racct(s, jt) {
            None => {
                assert(parse_relems_acct(s@.skip(j as int)) is None);
                return None;
            },
            Some((v, r)) => {
                let ghost vm = v.deep_view();
                let ju = scan_rws(s, r);
                proof {
                    lemma_skip_ws_len(s@.skip(r as int));
                }
                if ju == s.len() {
                    assert(parse_relems_acct(s@.skip(j as int)) is None);
                    return None;
                }
                proof {
                    assert(s@.skip(ju as int)[0] == s@[ju as int]);
                    assert(s@.skip(ju as int).drop_first() =~= s@.skip(ju + 1));
                }
                if s[ju] == 0x2c {
                    proof {
                        let inner = parse_relems_acct(s@.skip(ju + 1));
                        assert(parse_relems_acct(s@.skip(j as int)) == prepend_vals(
                            seq![vm],
                            inner,
                        ));
                        match inner {
                            Some((vs2, r2)) => {
                                assert(out.deep_view() + (seq![vm] + vs2) =~= out.deep_view().push(vm) + vs2);
                            },
                            None => {},
                        }
                    }
                    out.push(v);
                    j = ju + 1;
                } else if s[ju] == 0x5d {
                    proof {
                        assert(parse_relems_acct(s@.skip(j as int)) == Some(
                            (seq![vm], s@.skip(ju + 1)),
                        ));
                        assert(out.deep_view() + seq![vm] =~= out.deep_view().push(vm));
                    }
                    out.push(v);
                    return Some((out, ju + 1));
                } else {
                    assert(parse_relems_acct(s@.skip(j as int)) is None);
                    return None;
                }
            },
        }
    }
}


pub open spec fn parse_relems_ach(s: Seq<u8>) -> Option<(Seq<AchievementModel>, Seq<u8>)>
    decreases s.len(),
{
    let t = skip_ws(s);
    if t.len() == 0 {
        None
    } else if t[0] == 0x5d {
        Some((Seq::empty(), t.drop_first()))
    } else {
        match parse_rach(t) {
            None => None,
            Some((v, r)) => {
                let u = skip_ws(r);
                if u.len() == 0 {
                    None
                } else if u[0] == 0x2c {
                    if u.drop_first().len() < s.len() {
                        match parse_relems_ach(u.drop_first()) {
                            None => None,
                            Some((vs, rest)) => Some((seq![v] + vs, rest)),
                        }
                    } else {
                        None
                    }
                } else if u[0] == 0x5d {
                    Some((seq![v], u.drop_first()))
                } else {
                    None
                }
            },
        }
    }
}

pub open spec fn parse_rarr_ach(s: Seq<u8>) -> Option<(Seq<AchievementModel>, Seq<u8>)> {
    let t = skip_ws(s);
    if t.len() > 0 && t[0] == 0x5b {
        parse_relems_ach(t.drop_first())
    } else {
        None
    }
}

#[verifier::rlimit(100)]
#[verifier::spinoff_prover]
pub fn scan_rarr_ach(s: &Vec<u8>, i: usize) -> (r: Option<(Vec<Achievement>, usize)>)
    requires
        i <= s.len(),
    ensures
        match r {
            Some((v, j)) => {
                &&& i <= j <= s.len()
                &&& parse_rarr_ach(s@.skip(i as int)) == Some((v.deep_view(), s@.skip(j as int)))
            },
            None => parse_rarr_ach(s@.skip(i as int)) is None,
        },
{
    let w = scan_rws(s, i);
    if w == s.len() || s[w] != 0x5b {
        if w < s.len() {
            assert(s@.skip(w as int)[0] == s@[w as int]);
        }
        return None;
    }
    assert(s@.skip(w as int)[0] == 0x5bu8);
    assert(s@.skip(w as int).drop_first() =~= s@.skip(w + 1));
    let mut out: Vec<Achievement> = Vec::new();
    proof {
        assert(out.deep_view() =~= Seq::<AchievementModel>::empty());
    }
    let mut j: usize = w + 1;
    loop
        invariant
            i <= w < s.len(),
            skip_ws(s@.skip(i as int)) == s@.skip(w as int),
            s@.skip(w as int)[0] == 0x5b,
            s@.skip(w as int).drop_first() == s@.skip(w + 1),
            w + 1 <= j <= s.len(),
            parse_relems_ach(s@.skip(w + 1)) == prepend_vals(
                out.deep_view(),
                parse_relems_ach(s@.skip(j as int)),
            ),
        decreases s.len() - j,
    {
        let jt = scan_rws(s, j);
        proof {
            lemma_skip_ws_len(s@.skip(j as int));
        }
        if jt == s.len() {
            assert(parse_relems_ach(s@.skip(j as int)) is None);
            return None;
        }
        proof {
            assert(s@.skip(jt as int)[0] == s@[jt as int]);
            assert(s@.skip(jt as int).drop_first() =~= s@.skip(jt + 1));
        }
        if s[jt] == 0x5d {
            proof {
                assert(parse_relems_ach(s@.skip(j as int)) == Some(
                    (Seq::<AchievementModel>::empty(), s@.skip(jt + 1)),
                ));
                assert(out.deep_view() + Seq::<AchievementModel>::empty() =~= out.deep_view());
            }
            return Some((out, jt + 1));
        }
        match scan_rach(s, jt) {
            None => {
                assert(parse_relems_ach(s@.skip(j as int)) is None);
                return None;
            },
            Some((v, r)) => {
                let ghost vm = v.deep_view();
                let ju = scan_rws(s, r);
                proof {
                    lemma_skip_ws_len(s@.skip(r as int));
                }
                if ju == s.len() {
                    assert(parse_relems_ach(s@.skip(j as int)) is None);
                    return None;
                }
                proof {
                    assert(s@.skip(ju as int)[0] == s@[ju as int]);
                    assert(s@.skip(ju as int).drop_first() =~= s@.skip(ju + 1));
                }
                if s[ju] == 0x2c {
                    proof {
                        let inner = parse_relems_ach(s@.skip(ju + 1));
                        assert(parse_relems_ach(s@.skip(j as int)) == prepend_vals(
                            seq![vm],
                            inner,
                        ));
                        match inner {
                            Some((vs2, r2)) => {
                                assert(out.deep_view() + (seq![vm] + vs2) =~= out.deep_view().push(vm) + vs2);
                            },
                            None => {},
                        }
                    }
                    out.push(v);
                    j = ju + 1;
                } else if s[ju] == 0x5d {
                    proof {
                        assert(parse_relems_ach(s@.skip(j as int)) == Some(
                            (seq![vm], s@.skip(ju + 1)),
                        ));
                        assert(out.deep_view() + seq![vm] =~= out.deep_view().push(vm));
                    }
                    out.push(v);
                    return Some((out, ju + 1));
                } else {
                    assert(parse_relems_ach(s@.skip(j as int)) is None);
                    return None;
                }
            },
        }
    }
}


// ---------------------------------------------------------------------------
// Whole response bodies
// ---------------------------------------------------------------------------

/// A catalog response: an array of ids and nothing else.
pub open spec fn response_ids(b: Seq<u8>) -> Option<Seq<usize>> {
    match parse_rarr_usize(b) {
        Some((v, rest)) => if skip_ws(rest).len() == 0 {
            Some(v)
        } else {
            None
        },
        None => None,
    }
}

/// A detail-batch response: an array of achievements and nothing else.
pub open spec fn response_achievements(b: Seq<u8>) -> Option<Seq<AchievementModel>> {
    match parse_rarr_ach(b) {
        Some((v, rest)) => if skip_ws(rest).len() == 0 {
            Some(v)
        } else {
            None
        },
        None => None,
    }
}

/// An account-progress response: an array of records and nothing else.
pub open spec fn response_accounts(b: Seq<u8>) -> Option<Seq<AccountAchievementModel>> {
    match parse_rarr_acct(b) {
        Some((v, rest)) => if skip_ws(rest).len() == 0 {
            Some(v)
        } else {
            None
        },
        None => None,
    }
}

/// A daily-set response: one object and nothing else.
pub open spec fn response_dailies(b: Seq<u8>) -> Option<DailiesModel> {
    match parse_rdls(b) {
        Some((v, rest)) => if skip_ws(rest).len() == 0 {
            Some(v)
        } else {
            None
        },
        None => None,
    }
}

/// Scan a whole catalog response.
pub fn scan_response_ids(b: &Vec<u8>) -> (r: Option<Vec<usize>>)
    ensures
        match r {
            Some(v) => response_ids(b@) == Some(v@),
            None => response_ids(b@) is None,
        },
{
    assert(b@.skip(0) =~= b@);
    match scan_rarr_usize(b, 0) {
        Some((v, j)) => {
            let e = scan_rws(b, j);
            if e == b.len() {
                assert(skip_ws(b@.skip(j as int)).len() == 0);
                Some(v)
            } else {
                None
            }
        },
        None => None,
    }
}

/// Scan a whole detail-batch response.
pub fn scan_response_achievements(b: &Vec<u8>) -> (r: Option<Vec<Achievement>>)
    ensures
        match r {
            Some(v) => response_achievements(b@) == Some(v.deep_view()),
            None => response_achievements(b@) is None,
        },
{
    assert(b@.skip(0) =~= b@);
    match scan_rarr_ach(b, 0) {
        Some((v, j)) => {
            let e = scan_rws(b, j);
            if e == b.len() {
                assert(skip_ws(b@.skip(j as int)).len() == 0);
                Some(v)
            } else {
                None
            }
        },
        None => None,
    }
}

/// Scan a whole account-progress response.
pub fn scan_response_accounts(b: &Vec<u8>) -> (r: Option<Vec<AccountAchievement>>)
    ensures
        match r {
            Some(v) => response_accounts(b@) == Some(v.deep_view()),
            None => response_accounts(b@) is None,
        },
{
    assert(b@.skip(0) =~= b@);
    match scan_rarr_acct(b, 0) {
        Some((v, j)) => {
            let e = scan_rws(b, j);
            if e == b.len() {
                assert(skip_ws(b@.skip(j as int)).len() == 0);
                Some(v)
            } else {
                None
            }
        },
        None => None,
    }
}

/// Scan a whole daily-set response.
pub fn scan_response_dailies(b: &Vec<u8>) -> (r: Option<Dailies>)
    ensures
        match r {
            Some(v) => response_dailies(b@) == Some(v.deep_view()),
            None => response_dailies(b@) is None,
        },
{
    assert(b@.skip(0) =~= b@);
    match scan_rdls(b, 0) {
        Some((v, j)) => {
            let e = scan_rws(b, j);
            if e == b.len() {
                assert(skip_ws(b@.skip(j as int)).len() == 0);
                Some(v)
            } else {
                None
            }
        },
        None => None,
    }
}

} // verus!
