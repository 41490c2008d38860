//! The grammar of each resource type as it stands in the cache file: one
//! canonical shape, with a parse spec per type, a serializer spec, and the
//! round-trip lemmas tying them together. The gateway's responses speak a
//! looser grammar, read elsewhere.

use vstd::prelude::*;
use vstd::utf8::is_ascii_chars;
use vstd::utf8::is_ascii_chars_encode_utf8;

use crate::api::AccessCondition;
use crate::api::AccountAchievementModel;
use crate::api::AchievementBitModel;
use crate::api::AchievementModel;
use crate::api::AchievementTier;
use crate::api::DailiesModel;
use crate::api::Daily;
use crate::api::LevelRange;
use crate::api::Product;
use crate::api::RequiredAccess;
use crate::api::RewardModel;
use crate::cache::CachedItem;
use crate::combinators::good_parser;
use crate::combinators::lemma_array_round_trip;
use crate::combinators::lemma_cached_round_trip;
use crate::combinators::lemma_opt_round_trip;
use crate::combinators::lemma_opt_len;
use crate::combinators::lemma_parse_array_len;
use crate::combinators::lemma_parse_cached_len;
use crate::combinators::lemma_parse_jstring_len;
use crate::combinators::lemma_parse_u64_len;
use crate::combinators::parse_array;
use crate::combinators::parse_cached;
use crate::combinators::parse_opt;
use crate::combinators::rest_of;
use crate::combinators::ser_array;
use crate::combinators::ser_cached;
use crate::combinators::ser_opt;
use crate::combinators::value_delim;
use crate::json::dec_digits;
use crate::json::first_key_lit;
use crate::json::is_digit;
use crate::json::key_lit;
use crate::json::lit_bytes;
use crate::json::lemma_dec_digits_props;
use crate::json::lemma_jstring_round_trip;
use crate::json::lemma_lit_round_trip;
use crate::json::lemma_u64_round_trip;
use crate::json::parse_bool;
use crate::json::parse_jstring;
use crate::json::parse_u64;
use crate::json::ser_bool;
use crate::json::ser_jstring;
use crate::json::spec_lit;

verus! {

// ---------------------------------------------------------------------------
// Leaf values
// ---------------------------------------------------------------------------

pub open spec fn ser_usize(v: usize) -> Seq<u8> {
    dec_digits(v as u64)
}

pub open spec fn parse_usize(s: Seq<u8>) -> Option<(usize, Seq<u8>)> {
    match parse_u64(s) {
        Some((n, rest)) => if n <= usize::MAX as u64 {
            Some((n as usize, rest))
        } else {
            None
        },
        None => None,
    }
}

pub open spec fn ser_i32(v: i32) -> Seq<u8> {
    if v >= 0 {
        dec_digits(v as u64)
    } else {
        seq![0x2du8] + dec_digits((-(v as int)) as u64)
    }
}

pub open spec fn parse_i32(s: Seq<u8>) -> Option<(i32, Seq<u8>)> {
    if s.len() > 0 && s[0] == 0x2d {
        match parse_u64(s.drop_first()) {
            Some((n, rest)) => if 0 < n && n <= 0x8000_0000u64 {
                Some(((-(n as int)) as i32, rest))
            } else {
                None
            },
            None => None,
        }
    } else {
        match parse_u64(s) {
            Some((n, rest)) => if n <= 0x7fff_ffffu64 {
                Some((n as i32, rest))
            } else {
                None
            },
            None => None,
        }
    }
}

/// A tag: a bare JSON string holding a fixed name, as serde writes a unit
/// enum variant or the tag of a tagged one.
pub open spec fn tag_lit(t: Seq<char>) -> Seq<u8> {
    seq![0x22u8] + lit_bytes(t) + seq![0x22u8]
}

// Named parser/serializer pairs, so that every mention of a grammar denotes
// the same function value.

pub open spec fn usize_p() -> spec_fn(Seq<u8>) -> Option<(usize, Seq<u8>)> {
    |s: Seq<u8>| parse_usize(s)
}

pub open spec fn usize_s() -> spec_fn(usize) -> Seq<u8> {
    |v: usize| ser_usize(v)
}

pub open spec fn i32_p() -> spec_fn(Seq<u8>) -> Option<(i32, Seq<u8>)> {
    |s: Seq<u8>| parse_i32(s)
}

pub open spec fn i32_s() -> spec_fn(i32) -> Seq<u8> {
    |v: i32| ser_i32(v)
}

pub open spec fn bool_p() -> spec_fn(Seq<u8>) -> Option<(bool, Seq<u8>)> {
    |s: Seq<u8>| parse_bool(s)
}

pub open spec fn bool_s() -> spec_fn(bool) -> Seq<u8> {
    |v: bool| ser_bool(v)
}

pub open spec fn jstr_p() -> spec_fn(Seq<u8>) -> Option<(Seq<char>, Seq<u8>)> {
    |s: Seq<u8>| parse_jstring(s)
}

pub open spec fn jstr_s() -> spec_fn(Seq<char>) -> Seq<u8> {
    |v: Seq<char>| ser_jstring(v)
}

pub proof fn lemma_usize_good()
    ensures
        good_parser(usize_p(), usize_s()),
{
    assert forall|v: usize, rest: Seq<u8>| value_delim(rest) implies #[trigger] usize_p()(
        usize_s()(v) + rest,
    ) == Some((v, rest)) by {
        lemma_u64_round_trip(v as u64, rest);
    }
    assert forall|v: usize| (#[trigger] usize_s()(v)).len() > 0 && usize_s()(v)[0] != 0x6e
        && usize_s()(v)[0] != 0x5d by {
        lemma_dec_digits_props(v as u64);
        assert(is_digit(dec_digits(v as u64)[0]));
    }
    assert forall|s: Seq<u8>| (#[trigger] usize_p()(s)) is Some implies rest_of(
        usize_p()(s),
    ).len() < s.len() by {
        lemma_parse_u64_len(s);
    }
}

pub proof fn lemma_i32_good()
    ensures
        good_parser(i32_p(), i32_s()),
{
    assert forall|v: i32, rest: Seq<u8>| value_delim(rest) implies #[trigger] i32_p()(
        i32_s()(v) + rest,
    ) == Some((v, rest)) by {
        if v >= 0 {
            lemma_u64_round_trip(v as u64, rest);
            let s = i32_s()(v) + rest;
            lemma_dec_digits_props(v as u64);
            assert(s[0] == dec_digits(v as u64)[0]);
            assert(is_digit(s[0]));
            assert(s[0] != 0x2d);
        } else {
            let m = (-(v as int)) as u64;
            let s = i32_s()(v) + rest;
            assert(s[0] == 0x2du8);
            assert(s.drop_first() =~= dec_digits(m) + rest);
            lemma_u64_round_trip(m, rest);
            assert(0 < m && m <= 0x8000_0000u64);
            assert((-(m as int)) as i32 == v);
        }
    }
    assert forall|v: i32| (#[trigger] i32_s()(v)).len() > 0 && i32_s()(v)[0] != 0x6e && i32_s()(
        v,
    )[0] != 0x5d by {
        if v >= 0 {
            lemma_dec_digits_props(v as u64);
            assert(is_digit(dec_digits(v as u64)[0]));
        } else {
            assert(i32_s()(v)[0] == 0x2du8);
        }
    }
    assert forall|s: Seq<u8>| (#[trigger] i32_p()(s)) is Some implies rest_of(i32_p()(s)).len()
        < s.len() by {
        if s.len() > 0 && s[0] == 0x2d {
            lemma_parse_u64_len(s.drop_first());
        } else {
            lemma_parse_u64_len(s);
        }
    }
}

pub proof fn lemma_bool_good()
    ensures
        good_parser(bool_p(), bool_s()),
{
    assert forall|v: bool, rest: Seq<u8>| value_delim(rest) implies #[trigger] bool_p()(
        bool_s()(v) + rest,
    ) == Some((v, rest)) by {
        crate::json::lemma_bool_round_trip(v, rest);
    }
    assert forall|v: bool| (#[trigger] bool_s()(v)).len() > 0 && bool_s()(v)[0] != 0x6e
        && bool_s()(v)[0] != 0x5d by {}
    assert forall|s: Seq<u8>| (#[trigger] bool_p()(s)) is Some implies rest_of(bool_p()(s)).len()
        < s.len() by {}
}

pub proof fn lemma_jstr_good()
    ensures
        good_parser(jstr_p(), jstr_s()),
{
    assert forall|v: Seq<char>, rest: Seq<u8>| value_delim(rest) implies #[trigger] jstr_p()(
        jstr_s()(v) + rest,
    ) == Some((v, rest)) by {
        lemma_jstring_round_trip(v, rest);
    }
    assert forall|v: Seq<char>| (#[trigger] jstr_s()(v)).len() > 0 && jstr_s()(v)[0] != 0x6e
        && jstr_s()(v)[0] != 0x5d by {
        crate::json::lemma_ser_jstring_first(v);
    }
    assert forall|s: Seq<u8>| (#[trigger] jstr_p()(s)) is Some implies rest_of(jstr_p()(s)).len()
        < s.len() by {
        lemma_parse_jstring_len(s);
    }
}

/// The byte-level shape of an ASCII tag name.
pub proof fn lemma_tag_bytes(t: Seq<char>)
    requires
        is_ascii_chars(t),
        t.len() > 0,
    ensures
        lit_bytes(t).len() == t.len(),
        lit_bytes(t)[0] == t[0] as u8,
        tag_lit(t).len() == t.len() + 2,
        tag_lit(t)[0] == 0x22u8,
        tag_lit(t)[1] == t[0] as u8,
{
    reveal(lit_bytes);
    is_ascii_chars_encode_utf8(t);
}

/// Matching one tag against the serialization of another fails when their
/// names begin with different letters.
pub proof fn lemma_tag_mismatch(want: Seq<char>, have: Seq<char>, rest: Seq<u8>)
    requires
        is_ascii_chars(want),
        is_ascii_chars(have),
        want.len() > 0,
        have.len() > 0,
        want[0] != have[0],
    ensures
        spec_lit(tag_lit(have) + rest, tag_lit(want)) is None,
{
    lemma_tag_bytes(want);
    lemma_tag_bytes(have);
    let s = tag_lit(have) + rest;
    if spec_lit(s, tag_lit(want)) is Some {
        assert(s.take(tag_lit(want).len() as int)[1] == tag_lit(want)[1]);
        assert(s[1] == tag_lit(have)[1]);
        assert(want[0] as u8 == have[0] as u8);
        assert(((want[0] as u8) as char) == ((have[0] as u8) as char));
    }
}

// ---------------------------------------------------------------------------
// The daily-set types
// ---------------------------------------------------------------------------

#[verifier::opaque]
pub open spec fn ser_product(v: Product) -> Seq<u8> {
    match v {
        Product::HeartOfThorns => tag_lit("HeartOfThorns"@),
        Product::PathOfFire => tag_lit("PathOfFire"@),
    }
}

#[verifier::opaque]
pub open spec fn parse_product(s: Seq<u8>) -> Option<(Product, Seq<u8>)> {
    if spec_lit(s, tag_lit("HeartOfThorns"@)) is Some {
        Some((Product::HeartOfThorns, spec_lit(s, tag_lit("HeartOfThorns"@))->0))
    } else if spec_lit(s, tag_lit("PathOfFire"@)) is Some {
        Some((Product::PathOfFire, spec_lit(s, tag_lit("PathOfFire"@))->0))
    } else {
        None
    }
}

#[verifier::opaque]
pub open spec fn ser_access(v: AccessCondition) -> Seq<u8> {
    match v {
        AccessCondition::HasAccess => tag_lit("HasAccess"@),
        AccessCondition::NoAccess => tag_lit("NoAccess"@),
    }
}

#[verifier::opaque]
pub open spec fn parse_access(s: Seq<u8>) -> Option<(AccessCondition, Seq<u8>)> {
    if spec_lit(s, tag_lit("HasAccess"@)) is Some {
        Some((AccessCondition::HasAccess, spec_lit(s, tag_lit("HasAccess"@))->0))
    } else if spec_lit(s, tag_lit("NoAccess"@)) is Some {
        Some((AccessCondition::NoAccess, spec_lit(s, tag_lit("NoAccess"@))->0))
    } else {
        None
    }
}

proof fn lemma_daily_tag_names()
    ensures
        is_ascii_chars("HeartOfThorns"@) && "HeartOfThorns"@.len() == 13 && "HeartOfThorns"@[0]
            == 'H',
        is_ascii_chars("PathOfFire"@) && "PathOfFire"@.len() == 10 && "PathOfFire"@[0] == 'P',
        is_ascii_chars("HasAccess"@) && "HasAccess"@.len() == 9 && "HasAccess"@[0] == 'H',
        is_ascii_chars("NoAccess"@) && "NoAccess"@.len() == 8 && "NoAccess"@[0] == 'N',
{
    reveal_strlit("HeartOfThorns");
    reveal_strlit("PathOfFire");
    reveal_strlit("HasAccess");
    reveal_strlit("NoAccess");
}

pub proof fn lemma_product_round_trip(v: Product, rest: Seq<u8>)
    ensures
        parse_product(ser_product(v) + rest) == Some((v, rest)),
{
    reveal(parse_product);
    reveal(ser_product);
    lemma_daily_tag_names();
    match v {
        Product::HeartOfThorns => {
            lemma_lit_round_trip(tag_lit("HeartOfThorns"@), rest);
        },
        Product::PathOfFire => {
            lemma_tag_mismatch("HeartOfThorns"@, "PathOfFire"@, rest);
            lemma_lit_round_trip(tag_lit("PathOfFire"@), rest);
        },
    }
}

pub proof fn lemma_access_round_trip(v: AccessCondition, rest: Seq<u8>)
    ensures
        parse_access(ser_access(v) + rest) == Some((v, rest)),
{
    reveal(parse_access);
    reveal(ser_access);
    lemma_daily_tag_names();
    match v {
        AccessCondition::HasAccess => {
            lemma_lit_round_trip(tag_lit("HasAccess"@), rest);
        },
        AccessCondition::NoAccess => {
            lemma_tag_mismatch("HasAccess"@, "NoAccess"@, rest);
            lemma_lit_round_trip(tag_lit("NoAccess"@), rest);
        },
    }
}

#[verifier::opaque]
pub open spec fn ser_required_access(v: RequiredAccess) -> Seq<u8> {
    first_key_lit("product"@) + ser_product(v.product) + key_lit("condition"@) + ser_access(
        v.condition,
    ) + seq![0x7du8]
}

#[verifier::opaque]
pub open spec fn parse_required_access(s: Seq<u8>) -> Option<(RequiredAccess, Seq<u8>)> {
    match spec_lit(s, first_key_lit("product"@)) {
        None => None,
        Some(s1) => match parse_product(s1) {
            None => None,
            Some((product, s2)) => match spec_lit(s2, key_lit("condition"@)) {
                None => None,
                Some(s3) => match parse_access(s3) {
                    None => None,
                    Some((condition, s4)) => if s4.len() > 0 && s4[0] == 0x7d {
                        Some((RequiredAccess { product, condition }, s4.drop_first()))
                    } else {
                        None
                    },
                },
            },
        },
    }
}

pub open spec fn ra_p() -> spec_fn(Seq<u8>) -> Option<(RequiredAccess, Seq<u8>)> {
    |s: Seq<u8>| parse_required_access(s)
}

pub open spec fn ra_s() -> spec_fn(RequiredAccess) -> Seq<u8> {
    |v: RequiredAccess| ser_required_access(v)
}

pub proof fn lemma_required_access_round_trip(v: RequiredAccess, rest: Seq<u8>)
    ensures
        parse_required_access(ser_required_access(v) + rest) == Some((v, rest)),
{
    reveal(parse_required_access);
    reveal(ser_required_access);
    let t4 = seq![0x7du8] + rest;
    let t3 = ser_access(v.condition) + t4;
    let t2 = key_lit("condition"@) + t3;
    let t1 = ser_product(v.product) + t2;
    assert(ser_required_access(v) + rest =~= first_key_lit("product"@) + t1);
    lemma_lit_round_trip(first_key_lit("product"@), t1);
    lemma_product_round_trip(v.product, t2);
    lemma_lit_round_trip(key_lit("condition"@), t3);
    lemma_access_round_trip(v.condition, t4);
    assert(t4[0] == 0x7du8);
    assert(t4.drop_first() =~= rest);
}

proof fn lemma_parse_ra_len(s: Seq<u8>)
    requires
        parse_required_access(s) is Some,
    ensures
        rest_of(parse_required_access(s)).len() < s.len(),
{
    reveal(parse_required_access);
    reveal(parse_product);
    reveal(parse_access);
}

pub proof fn lemma_ra_good()
    ensures
        good_parser(ra_p(), ra_s()),
{
    assert forall|v: RequiredAccess, rest: Seq<u8>| value_delim(rest) implies #[trigger] ra_p()(
        ra_s()(v) + rest,
    ) == Some((v, rest)) by {
        lemma_required_access_round_trip(v, rest);
    }
    assert forall|v: RequiredAccess| (#[trigger] ra_s()(v)).len() > 0 && ra_s()(v)[0] != 0x6e
        && ra_s()(v)[0] != 0x5d by {
        reveal(ser_required_access);
        assert(ra_s()(v)[0] == 0x7bu8);
    }
    assert forall|s: Seq<u8>| (#[trigger] ra_p()(s)) is Some implies rest_of(ra_p()(s)).len()
        < s.len() by {
        lemma_parse_ra_len(s);
    }
}

#[verifier::opaque]
pub open spec fn ser_level_range(v: LevelRange) -> Seq<u8> {
    first_key_lit("min"@) + dec_digits(v.min as u64) + key_lit("max"@) + dec_digits(v.max as u64)
        + seq![0x7du8]
}

#[verifier::opaque]
pub open spec fn parse_level_range(s: Seq<u8>) -> Option<(LevelRange, Seq<u8>)> {
    match spec_lit(s, first_key_lit("min"@)) {
        None => None,
        Some(s1) => match parse_usize(s1) {
            None => None,
            Some((min, s2)) => match spec_lit(s2, key_lit("max"@)) {
                None => None,
                Some(s3) => match parse_usize(s3) {
                    None => None,
                    Some((max, s4)) => if s4.len() > 0 && s4[0] == 0x7d {
                        Some((LevelRange { min, max }, s4.drop_first()))
                    } else {
                        None
                    },
                },
            },
        },
    }
}

pub proof fn lemma_level_range_round_trip(v: LevelRange, rest: Seq<u8>)
    ensures
        parse_level_range(ser_level_range(v) + rest) == Some((v, rest)),
{
    reveal(parse_level_range);
    reveal(ser_level_range);
    let t4 = seq![0x7du8] + rest;
    let t3 = dec_digits(v.max as u64) + t4;
    let t2 = key_lit("max"@) + t3;
    let t1 = dec_digits(v.min as u64) + t2;
    assert(ser_level_range(v) + rest =~= first_key_lit("min"@) + t1);
    lemma_lit_round_trip(first_key_lit("min"@), t1);
    assert(t2[0] == 0x2cu8);
    lemma_u64_round_trip(v.min as u64, t2);
    lemma_lit_round_trip(key_lit("max"@), t3);
    assert(t4[0] == 0x7du8);
    lemma_u64_round_trip(v.max as u64, t4);
    assert(t4.drop_first() =~= rest);
}

#[verifier::opaque]
pub open spec fn ser_daily(v: Daily) -> Seq<u8> {
    first_key_lit("id"@) + dec_digits(v.id as u64) + key_lit("level"@) + ser_level_range(v.level)
        + key_lit("required_access"@) + ser_opt(ra_s(), v.required_access) + seq![0x7du8]
}

#[verifier::opaque]
pub open spec fn parse_daily(s: Seq<u8>) -> Option<(Daily, Seq<u8>)> {
    match spec_lit(s, first_key_lit("id"@)) {
        None => None,
        Some(s1) => match parse_usize(s1) {
            None => None,
            Some((id, s2)) => match spec_lit(s2, key_lit("level"@)) {
                None => None,
                Some(s3) => match parse_level_range(s3) {
                    None => None,
                    Some((level, s4)) => match spec_lit(s4, key_lit("required_access"@)) {
                        None => None,
                        Some(s5) => match parse_opt(ra_p(), s5) {
                            None => None,
                            Some((required_access, s6)) => if s6.len() > 0 && s6[0] == 0x7d {
                                Some((Daily { id, level, required_access }, s6.drop_first()))
                            } else {
                                None
                            },
                        },
                    },
                },
            },
        },
    }
}

pub open spec fn daily_p() -> spec_fn(Seq<u8>) -> Option<(Daily, Seq<u8>)> {
    |s: Seq<u8>| parse_daily(s)
}

pub open spec fn daily_s() -> spec_fn(Daily) -> Seq<u8> {
    |v: Daily| ser_daily(v)
}

pub proof fn lemma_daily_round_trip(v: Daily, rest: Seq<u8>)
    ensures
        parse_daily(ser_daily(v) + rest) == Some((v, rest)),
{
    reveal(parse_daily);
    reveal(ser_daily);
    let t6 = seq![0x7du8] + rest;
    let t5 = ser_opt(ra_s(), v.required_access) + t6;
    let t4 = key_lit("required_access"@) + t5;
    let t3 = ser_level_range(v.level) + t4;
    let t2 = key_lit("level"@) + t3;
    let t1 = dec_digits(v.id as u64) + t2;
    assert(ser_daily(v) + rest =~= first_key_lit("id"@) + t1);
    lemma_lit_round_trip(first_key_lit("id"@), t1);
    assert(t2[0] == 0x2cu8);
    lemma_u64_round_trip(v.id as u64, t2);
    lemma_lit_round_trip(key_lit("level"@), t3);
    lemma_level_range_round_trip(v.level, t4);
    lemma_lit_round_trip(key_lit("required_access"@), t5);
    assert(t6[0] == 0x7du8);
    assert(parse_opt(ra_p(), t5) == Some((v.required_access, t6))) by {
        lemma_ra_good();
        lemma_opt_round_trip(ra_p(), ra_s(), v.required_access, t6);
    }
    assert(t6.drop_first() =~= rest);
}

pub proof fn lemma_parse_level_range_len(s: Seq<u8>)
    requires
        parse_level_range(s) is Some,
    ensures
        rest_of(parse_level_range(s)).len() < s.len(),
{
    reveal(parse_level_range);
    let s1 = spec_lit(s, first_key_lit("min"@))->0;
    lemma_parse_u64_len(s1);
    let s2 = rest_of(parse_usize(s1));
    let s3 = spec_lit(s2, key_lit("max"@))->0;
    lemma_parse_u64_len(s3);
}

pub proof fn lemma_parse_daily_len(s: Seq<u8>)
    requires
        parse_daily(s) is Some,
    ensures
        rest_of(parse_daily(s)).len() < s.len(),
{
    reveal(parse_daily);
    let s1 = spec_lit(s, first_key_lit("id"@))->0;
    assert(s1.len() <= s.len());
    lemma_parse_u64_len(s1);
    let s2 = rest_of(parse_usize(s1));
    let s3 = spec_lit(s2, key_lit("level"@))->0;
    lemma_parse_level_range_len(s3);
    let s4 = rest_of(parse_level_range(s3));
    let s5 = spec_lit(s4, key_lit("required_access"@))->0;
    assert forall|t: Seq<u8>| (#[trigger] ra_p()(t)) is Some implies rest_of(ra_p()(t)).len()
        < t.len() by {
        lemma_parse_ra_len(t);
    }
    lemma_opt_len(ra_p(), s5);
}

pub proof fn lemma_daily_good()
    ensures
        good_parser(daily_p(), daily_s()),
{
    assert forall|v: Daily, rest: Seq<u8>| value_delim(rest) implies #[trigger] daily_p()(
        daily_s()(v) + rest,
    ) == Some((v, rest)) by {
        lemma_daily_round_trip(v, rest);
    }
    assert forall|v: Daily| (#[trigger] daily_s()(v)).len() > 0 && daily_s()(v)[0] != 0x6e
        && daily_s()(v)[0] != 0x5d by {
        reveal(ser_daily);
        assert(daily_s()(v)[0] == 0x7bu8);
    }
    assert forall|s: Seq<u8>| (#[trigger] daily_p()(s)) is Some implies rest_of(daily_p()(s)).len()
        < s.len() by {
        lemma_parse_daily_len(s);
    }
}

#[verifier::opaque]
pub open spec fn ser_dailies_rest4(special: Seq<Daily>) -> Seq<u8> {
    key_lit("special"@) + (ser_array(daily_s(), special) + seq![0x7du8])
}

#[verifier::opaque]
pub open spec fn parse_dailies_rest4(s: Seq<u8>) -> Option<(Seq<Daily>, Seq<u8>)> {
    match spec_lit(s, key_lit("special"@)) {
        None => None,
        Some(s1) => match parse_array(daily_p(), s1) {
            None => None,
            Some((special, s2)) => if s2.len() > 0 && s2[0] == 0x7d {
                Some((special, s2.drop_first()))
            } else {
                None
            },
        },
    }
}

#[verifier::opaque]
pub open spec fn ser_dailies_rest3(fractals: Seq<Daily>, special: Seq<Daily>) -> Seq<u8> {
    key_lit("fractals"@) + (ser_array(daily_s(), fractals) + ser_dailies_rest4(special))
}

#[verifier::opaque]
pub open spec fn parse_dailies_rest3(s: Seq<u8>) -> Option<((Seq<Daily>, Seq<Daily>), Seq<u8>)> {
    match spec_lit(s, key_lit("fractals"@)) {
        None => None,
        Some(s1) => match parse_array(daily_p(), s1) {
            None => None,
            Some((fractals, s2)) => match parse_dailies_rest4(s2) {
                None => None,
                Some((special, s3)) => Some(((fractals, special), s3)),
            },
        },
    }
}

#[verifier::opaque]
pub open spec fn ser_dailies_rest2(
    wvw: Seq<Daily>,
    fractals: Seq<Daily>,
    special: Seq<Daily>,
) -> Seq<u8> {
    key_lit("wvw"@) + (ser_array(daily_s(), wvw) + ser_dailies_rest3(fractals, special))
}

#[verifier::opaque]
pub open spec fn parse_dailies_rest2(s: Seq<u8>) -> Option<
    ((Seq<Daily>, Seq<Daily>, Seq<Daily>), Seq<u8>),
> {
    match spec_lit(s, key_lit("wvw"@)) {
        None => None,
        Some(s1) => match parse_array(daily_p(), s1) {
            None => None,
            Some((wvw, s2)) => match parse_dailies_rest3(s2) {
                None => None,
                Some(((fractals, special), s3)) => Some(((wvw, fractals, special), s3)),
            },
        },
    }
}

#[verifier::opaque]
pub open spec fn ser_dailies_rest1(
    pvp: Seq<Daily>,
    wvw: Seq<Daily>,
    fractals: Seq<Daily>,
    special: Seq<Daily>,
) -> Seq<u8> {
    key_lit("pvp"@) + (ser_array(daily_s(), pvp) + ser_dailies_rest2(wvw, fractals, special))
}

#[verifier::opaque]
pub open spec fn parse_dailies_rest1(s: Seq<u8>) -> Option<
    ((Seq<Daily>, Seq<Daily>, Seq<Daily>, Seq<Daily>), Seq<u8>),
> {
    match spec_lit(s, key_lit("pvp"@)) {
        None => None,
        Some(s1) => match parse_array(daily_p(), s1) {
            None => None,
            Some((pvp, s2)) => match parse_dailies_rest2(s2) {
                None => None,
                Some(((wvw, fractals, special), s3)) => Some(((pvp, wvw, fractals, special), s3)),
            },
        },
    }
}

#[verifier::opaque]
pub open spec fn ser_dailies(v: DailiesModel) -> Seq<u8> {
    first_key_lit("pve"@) + (ser_array(daily_s(), v.pve) + ser_dailies_rest1(
        v.pvp,
        v.wvw,
        v.fractals,
        v.special,
    ))
}

#[verifier::opaque]
pub open spec fn parse_dailies(s: Seq<u8>) -> Option<(DailiesModel, Seq<u8>)> {
    match spec_lit(s, first_key_lit("pve"@)) {
        None => None,
        Some(s1) => match parse_array(daily_p(), s1) {
            None => None,
            Some((pve, s2)) => match parse_dailies_rest1(s2) {
                None => None,
                Some(((pvp, wvw, fractals, special), s3)) => Some(
                    (DailiesModel { pve, pvp, wvw, fractals, special }, s3),
                ),
            },
        },
    }
}

pub open spec fn dailies_p() -> spec_fn(Seq<u8>) -> Option<(DailiesModel, Seq<u8>)> {
    |s: Seq<u8>| parse_dailies(s)
}

pub open spec fn dailies_s() -> spec_fn(DailiesModel) -> Seq<u8> {
    |v: DailiesModel| ser_dailies(v)
}

proof fn lemma_dailies_rest4_round_trip(special: Seq<Daily>, rest: Seq<u8>)

    ensures
        parse_dailies_rest4(ser_dailies_rest4(special) + rest) == Some((special, rest)),
{
    reveal(parse_dailies_rest4);
    reveal(ser_dailies_rest4);
    let t2 = seq![0x7du8] + rest;
    let t1 = ser_array(daily_s(), special) + t2;
    let s = ser_dailies_rest4(special) + rest;
    assert(s =~= key_lit("special"@) + t1);
    lemma_lit_round_trip(key_lit("special"@), t1);
    assert(parse_array(daily_p(), t1) == Some((special, t2))) by {
        lemma_daily_good();
        lemma_array_round_trip(daily_p(), daily_s(), special, t2);
    }
    assert(t2[0] == 0x7du8);
    assert(t2.drop_first() =~= rest);
}

proof fn lemma_dailies_rest3_round_trip(fractals: Seq<Daily>, special: Seq<Daily>, rest: Seq<u8>)
    ensures
        parse_dailies_rest3(ser_dailies_rest3(fractals, special) + rest) == Some(
            ((fractals, special), rest),
        ),
{
    reveal(parse_dailies_rest3);
    reveal(ser_dailies_rest3);
    let t2 = ser_dailies_rest4(special) + rest;
    let t1 = ser_array(daily_s(), fractals) + t2;
    let s = ser_dailies_rest3(fractals, special) + rest;
    assert(s =~= key_lit("fractals"@) + t1);
    lemma_lit_round_trip(key_lit("fractals"@), t1);
    assert(parse_array(daily_p(), t1) == Some((fractals, t2))) by {
        lemma_daily_good();
        lemma_array_round_trip(daily_p(), daily_s(), fractals, t2);
    }
    lemma_dailies_rest4_round_trip(special, rest);
}

proof fn lemma_dailies_rest2_round_trip(
    wvw: Seq<Daily>,
    fractals: Seq<Daily>,
    special: Seq<Daily>,
    rest: Seq<u8>,
)
    ensures
        parse_dailies_rest2(ser_dailies_rest2(wvw, fractals, special) + rest) == Some(
            ((wvw, fractals, special), rest),
        ),
{
    reveal(parse_dailies_rest2);
    reveal(ser_dailies_rest2);
    let t2 = ser_dailies_rest3(fractals, special) + rest;
    let t1 = ser_array(daily_s(), wvw) + t2;
    let s = ser_dailies_rest2(wvw, fractals, special) + rest;
    assert(s =~= key_lit("wvw"@) + t1);
    lemma_lit_round_trip(key_lit("wvw"@), t1);
    assert(parse_array(daily_p(), t1) == Some((wvw, t2))) by {
        lemma_daily_good();
        lemma_array_round_trip(daily_p(), daily_s(), wvw, t2);
    }
    lemma_dailies_rest3_round_trip(fractals, special, rest);
}

proof fn lemma_dailies_rest1_round_trip(
    pvp: Seq<Daily>,
    wvw: Seq<Daily>,
    fractals: Seq<Daily>,
    special: Seq<Daily>,
    rest: Seq<u8>,
)
    ensures
        parse_dailies_rest1(ser_dailies_rest1(pvp, wvw, fractals, special) + rest) == Some(
            ((pvp, wvw, fractals, special), rest),
        ),
{
    reveal(parse_dailies_rest1);
    reveal(ser_dailies_rest1);
    let t2 = ser_dailies_rest2(wvw, fractals, special) + rest;
    let t1 = ser_array(daily_s(), pvp) + t2;
    let s = ser_dailies_rest1(pvp, wvw, fractals, special) + rest;
    assert(s =~= key_lit("pvp"@) + t1);
    lemma_lit_round_trip(key_lit("pvp"@), t1);
    assert(parse_array(daily_p(), t1) == Some((pvp, t2))) by {
        lemma_daily_good();
        lemma_array_round_trip(daily_p(), daily_s(), pvp, t2);
    }
    lemma_dailies_rest2_round_trip(wvw, fractals, special, rest);
}

pub proof fn lemma_dailies_round_trip(v: DailiesModel, rest: Seq<u8>)
    ensures
        parse_dailies(ser_dailies(v) + rest) == Some((v, rest)),
{
    reveal(parse_dailies);
    reveal(ser_dailies);
    let t2 = ser_dailies_rest1(v.pvp, v.wvw, v.fractals, v.special) + rest;
    let t1 = ser_array(daily_s(), v.pve) + t2;
    let s = ser_dailies(v) + rest;
    assert(s =~= first_key_lit("pve"@) + t1);
    lemma_lit_round_trip(first_key_lit("pve"@), t1);
    assert(parse_array(daily_p(), t1) == Some((v.pve, t2))) by {
        lemma_daily_good();
        lemma_array_round_trip(daily_p(), daily_s(), v.pve, t2);
    }
    lemma_dailies_rest1_round_trip(v.pvp, v.wvw, v.fractals, v.special, rest);
}

proof fn lemma_parse_dailies_rest4_len(s: Seq<u8>)
    requires
        parse_dailies_rest4(s) is Some,
    ensures
        rest_of(parse_dailies_rest4(s)).len() < s.len(),
{
    reveal(parse_dailies_rest4);
    let s1 = spec_lit(s, key_lit("special"@))->0;
    lemma_parse_array_len(daily_p(), s1);
}

proof fn lemma_parse_dailies_rest3_len(s: Seq<u8>)
    requires
        parse_dailies_rest3(s) is Some,
    ensures
        rest_of(parse_dailies_rest3(s)).len() < s.len(),
{
    reveal(parse_dailies_rest3);
    let s1 = spec_lit(s, key_lit("fractals"@))->0;
    lemma_parse_array_len(daily_p(), s1);
    let s2 = rest_of(parse_array(daily_p(), s1));
    lemma_parse_dailies_rest4_len(s2);
}

proof fn lemma_parse_dailies_rest2_len(s: Seq<u8>)
    requires
        parse_dailies_rest2(s) is Some,
    ensures
        rest_of(parse_dailies_rest2(s)).len() < s.len(),
{
    reveal(parse_dailies_rest2);
    let s1 = spec_lit(s, key_lit("wvw"@))->0;
    lemma_parse_array_len(daily_p(), s1);
    let s2 = rest_of(parse_array(daily_p(), s1));
    lemma_parse_dailies_rest3_len(s2);
}

proof fn lemma_parse_dailies_rest1_len(s: Seq<u8>)
    requires
        parse_dailies_rest1(s) is Some,
    ensures
        rest_of(parse_dailies_rest1(s)).len() < s.len(),
{
    reveal(parse_dailies_rest1);
    let s1 = spec_lit(s, key_lit("pvp"@))->0;
    lemma_parse_array_len(daily_p(), s1);
    let s2 = rest_of(parse_array(daily_p(), s1));
    lemma_parse_dailies_rest2_len(s2);
}

pub proof fn lemma_parse_dailies_len(s: Seq<u8>)
    requires
        parse_dailies(s) is Some,
    ensures
        rest_of(parse_dailies(s)).len() < s.len(),
{
    reveal(parse_dailies);
    let s1 = spec_lit(s, first_key_lit("pve"@))->0;
    lemma_parse_array_len(daily_p(), s1);
    let s2 = rest_of(parse_array(daily_p(), s1));
    lemma_parse_dailies_rest1_len(s2);
}

pub proof fn lemma_dailies_good()
    ensures
        good_parser(dailies_p(), dailies_s()),
{
    assert forall|v: DailiesModel, rest: Seq<u8>| value_delim(rest) implies #[trigger] dailies_p()(
        dailies_s()(v) + rest,
    ) == Some((v, rest)) by {
        lemma_dailies_round_trip(v, rest);
    }
    assert forall|v: DailiesModel| (#[trigger] dailies_s()(v)).len() > 0 && dailies_s()(v)[0]
        != 0x6e && dailies_s()(v)[0] != 0x5d by {
        reveal(ser_dailies);
        assert(dailies_s()(v)[0] == 0x7bu8);
    }
    assert forall|s: Seq<u8>| (#[trigger] dailies_p()(s)) is Some implies rest_of(
        dailies_p()(s),
    ).len() < s.len() by {
        lemma_parse_dailies_len(s);
    }
}

// ---------------------------------------------------------------------------
// Achievement tiers, rewards and bits
// ---------------------------------------------------------------------------

#[verifier::opaque]
pub open spec fn ser_tier(v: AchievementTier) -> Seq<u8> {
    first_key_lit("count"@) + (dec_digits(v.count as u64) + (key_lit("points"@) + (dec_digits(
        v.points as u64,
    ) + seq![0x7du8])))
}

#[verifier::opaque]
pub open spec fn parse_tier(s: Seq<u8>) -> Option<(AchievementTier, Seq<u8>)> {
    match spec_lit(s, first_key_lit("count"@)) {
        None => None,
        Some(s1) => match parse_usize(s1) {
            None => None,
            Some((count, s2)) => match spec_lit(s2, key_lit("points"@)) {
                None => None,
                Some(s3) => match parse_usize(s3) {
                    None => None,
                    Some((points, s4)) => if s4.len() > 0 && s4[0] == 0x7d {
                        Some((AchievementTier { count, points }, s4.drop_first()))
                    } else {
                        None
                    },
                },
            },
        },
    }
}

pub open spec fn tier_p() -> spec_fn(Seq<u8>) -> Option<(AchievementTier, Seq<u8>)> {
    |s: Seq<u8>| parse_tier(s)
}

pub open spec fn tier_s() -> spec_fn(AchievementTier) -> Seq<u8> {
    |v: AchievementTier| ser_tier(v)
}

pub proof fn lemma_tier_round_trip(v: AchievementTier, rest: Seq<u8>)
    ensures
        parse_tier(ser_tier(v) + rest) == Some((v, rest)),
{
    reveal(parse_tier);
    reveal(ser_tier);
    let t4 = seq![0x7du8] + rest;
    let t3 = dec_digits(v.points as u64) + t4;
    let t2 = key_lit("points"@) + t3;
    let t1 = dec_digits(v.count as u64) + t2;
    let s = ser_tier(v) + rest;
    assert(s =~= first_key_lit("count"@) + t1);
    lemma_lit_round_trip(first_key_lit("count"@), t1);
    assert(t2[0] == 0x2cu8);
    lemma_u64_round_trip(v.count as u64, t2);
    lemma_lit_round_trip(key_lit("points"@), t3);
    assert(t4[0] == 0x7du8);
    lemma_u64_round_trip(v.points as u64, t4);
    assert(t4.drop_first() =~= rest);
}

pub proof fn lemma_parse_tier_len(s: Seq<u8>)
    requires
        parse_tier(s) is Some,
    ensures
        rest_of(parse_tier(s)).len() < s.len(),
{
    reveal(parse_tier);
    let s1 = spec_lit(s, first_key_lit("count"@))->0;
    lemma_parse_u64_len(s1);
    let s2 = rest_of(parse_usize(s1));
    let s3 = spec_lit(s2, key_lit("points"@))->0;
    lemma_parse_u64_len(s3);
}

pub proof fn lemma_tier_good()
    ensures
        good_parser(tier_p(), tier_s()),
{
    assert forall|v: AchievementTier, rest: Seq<u8>| value_delim(rest) implies #[trigger] tier_p()(
        tier_s()(v) + rest,
    ) == Some((v, rest)) by {
        lemma_tier_round_trip(v, rest);
    }
    assert forall|v: AchievementTier| (#[trigger] tier_s()(v)).len() > 0 && tier_s()(v)[0] != 0x6e
        && tier_s()(v)[0] != 0x5d by {
        reveal(ser_tier);
        assert(tier_s()(v)[0] == 0x7bu8);
    }
    assert forall|s: Seq<u8>| (#[trigger] tier_p()(s)) is Some implies rest_of(tier_p()(s)).len()
        < s.len() by {
        lemma_parse_tier_len(s);
    }
}

#[verifier::opaque]
pub open spec fn ser_reward(v: RewardModel) -> Seq<u8> {
    match v {
        RewardModel::Coins { count } => first_key_lit("type"@) + (tag_lit("Coins"@) + (key_lit(
            "count"@,
        ) + (dec_digits(count as u64) + seq![0x7du8]))),
        RewardModel::Item { id, count } => first_key_lit("type"@) + (tag_lit("Item"@) + (key_lit(
            "id"@,
        ) + (dec_digits(id as u64) + (key_lit("count"@) + (dec_digits(count as u64)
            + seq![0x7du8]))))),
        RewardModel::Mastery { id, region } => first_key_lit("type"@) + (tag_lit("Mastery"@) + (
        key_lit("id"@) + (dec_digits(id as u64) + (key_lit("region"@) + (ser_jstring(region)
            + seq![0x7du8]))))),
        RewardModel::Title { id } => first_key_lit("type"@) + (tag_lit("Title"@) + (key_lit("id"@)
            + (dec_digits(id as u64) + seq![0x7du8]))),
    }
}

#[verifier::opaque]
pub open spec fn parse_reward_coins(s1: Seq<u8>) -> Option<(RewardModel, Seq<u8>)> {
    match spec_lit(s1, key_lit("count"@)) {
        None => None,
        Some(s2) => match parse_usize(s2) {
            None => None,
            Some((count, s3)) => if s3.len() > 0 && s3[0] == 0x7d {
                Some((RewardModel::Coins { count }, s3.drop_first()))
            } else {
                None
            },
        },
    }
}

#[verifier::opaque]
pub open spec fn parse_reward_item(s1: Seq<u8>) -> Option<(RewardModel, Seq<u8>)> {
    match spec_lit(s1, key_lit("id"@)) {
        None => None,
        Some(s2) => match parse_usize(s2) {
            None => None,
            Some((id, s3)) => match spec_lit(s3, key_lit("count"@)) {
                None => None,
                Some(s4) => match parse_usize(s4) {
                    None => None,
                    Some((count, s5)) => if s5.len() > 0 && s5[0] == 0x7d {
                        Some((RewardModel::Item { id, count }, s5.drop_first()))
                    } else {
                        None
                    },
                },
            },
        },
    }
}

#[verifier::opaque]
pub open spec fn parse_reward_mastery(s1: Seq<u8>) -> Option<(RewardModel, Seq<u8>)> {
    match spec_lit(s1, key_lit("id"@)) {
        None => None,
        Some(s2) => match parse_usize(s2) {
            None => None,
            Some((id, s3)) => match spec_lit(s3, key_lit("region"@)) {
                None => None,
                Some(s4) => match parse_jstring(s4) {
                    None => None,
                    Some((region, s5)) => if s5.len() > 0 && s5[0] == 0x7d {
                        Some((RewardModel::Mastery { id, region }, s5.drop_first()))
                    } else {
                        None
                    },
                },
            },
        },
    }
}

#[verifier::opaque]
pub open spec fn parse_reward_title(s1: Seq<u8>) -> Option<(RewardModel, Seq<u8>)> {
    match spec_lit(s1, key_lit("id"@)) {
        None => None,
        Some(s2) => match parse_usize(s2) {
            None => None,
            Some((id, s3)) => if s3.len() > 0 && s3[0] == 0x7d {
                Some((RewardModel::Title { id }, s3.drop_first()))
            } else {
                None
            },
        },
    }
}

#[verifier::opaque]
pub open spec fn parse_reward(s: Seq<u8>) -> Option<(RewardModel, Seq<u8>)> {
    match spec_lit(s, first_key_lit("type"@)) {
        None => None,
        Some(s1) => if spec_lit(s1, tag_lit("Coins"@)) is Some {
            parse_reward_coins(spec_lit(s1, tag_lit("Coins"@))->0)
        } else if spec_lit(s1, tag_lit("Item"@)) is Some {
            parse_reward_item(spec_lit(s1, tag_lit("Item"@))->0)
        } else if spec_lit(s1, tag_lit("Mastery"@)) is Some {
            parse_reward_mastery(spec_lit(s1, tag_lit("Mastery"@))->0)
        } else if spec_lit(s1, tag_lit("Title"@)) is Some {
            parse_reward_title(spec_lit(s1, tag_lit("Title"@))->0)
        } else {
            None
        },
    }
}

pub open spec fn reward_p() -> spec_fn(Seq<u8>) -> Option<(RewardModel, Seq<u8>)> {
    |s: Seq<u8>| parse_reward(s)
}

pub open spec fn reward_s() -> spec_fn(RewardModel) -> Seq<u8> {
    |v: RewardModel| ser_reward(v)
}

proof fn lemma_reward_tag_names()
    ensures
        is_ascii_chars("Coins"@) && "Coins"@.len() == 5 && "Coins"@[0] == 'C',
        is_ascii_chars("Item"@) && "Item"@.len() == 4 && "Item"@[0] == 'I',
        is_ascii_chars("Mastery"@) && "Mastery"@.len() == 7 && "Mastery"@[0] == 'M',
        is_ascii_chars("Title"@) && "Title"@.len() == 5 && "Title"@[0] == 'T',
{
    reveal_strlit("Coins");
    reveal_strlit("Item");
    reveal_strlit("Mastery");
    reveal_strlit("Title");
}

proof fn lemma_reward_rt_coins(count: usize, rest: Seq<u8>)
    ensures
        parse_reward(ser_reward(RewardModel::Coins { count }) + rest) == Some(
            (RewardModel::Coins { count }, rest),
        ),
{
    reveal(parse_reward);
    reveal(ser_reward);
    reveal(parse_reward_coins);
    lemma_reward_tag_names();
    let s = ser_reward(RewardModel::Coins { count }) + rest;
    let t4 = seq![0x7du8] + rest;
    let t3 = dec_digits(count as u64) + t4;
    let t2 = key_lit("count"@) + t3;
    let t1 = tag_lit("Coins"@) + t2;
    assert(s =~= first_key_lit("type"@) + t1);
    lemma_lit_round_trip(first_key_lit("type"@), t1);
    lemma_lit_round_trip(tag_lit("Coins"@), t2);
    lemma_lit_round_trip(key_lit("count"@), t3);
    assert(t4[0] == 0x7du8);
    lemma_u64_round_trip(count as u64, t4);
    assert(t4.drop_first() =~= rest);
}

proof fn lemma_reward_rt_item(id: usize, count: usize, rest: Seq<u8>)
    ensures
        parse_reward(ser_reward(RewardModel::Item { id, count }) + rest) == Some(
            (RewardModel::Item { id, count }, rest),
        ),
{
    reveal(parse_reward);
    reveal(ser_reward);
    reveal(parse_reward_item);
    lemma_reward_tag_names();
    let s = ser_reward(RewardModel::Item { id, count }) + rest;
    let t6 = seq![0x7du8] + rest;
    let t5 = dec_digits(count as u64) + t6;
    let t4 = key_lit("count"@) + t5;
    let t3 = dec_digits(id as u64) + t4;
    let t2 = key_lit("id"@) + t3;
    let t1 = tag_lit("Item"@) + t2;
    assert(s =~= first_key_lit("type"@) + t1);
    lemma_lit_round_trip(first_key_lit("type"@), t1);
    lemma_tag_mismatch("Coins"@, "Item"@, t2);
    lemma_lit_round_trip(tag_lit("Item"@), t2);
    lemma_lit_round_trip(key_lit("id"@), t3);
    assert(t4[0] == 0x2cu8);
    lemma_u64_round_trip(id as u64, t4);
    lemma_lit_round_trip(key_lit("count"@), t5);
    assert(t6[0] == 0x7du8);
    lemma_u64_round_trip(count as u64, t6);
    assert(t6.drop_first() =~= rest);
}

proof fn lemma_reward_rt_mastery(id: usize, region: Seq<char>, rest: Seq<u8>)
    ensures
        parse_reward(ser_reward(RewardModel::Mastery { id, region }) + rest) == Some(
            (RewardModel::Mastery { id, region }, rest),
        ),
{
    reveal(parse_reward);
    reveal(ser_reward);
    reveal(parse_reward_mastery);
    lemma_reward_tag_names();
    let s = ser_reward(RewardModel::Mastery { id, region }) + rest;
    let t6 = seq![0x7du8] + rest;
    let t5 = ser_jstring(region) + t6;
    let t4 = key_lit("region"@) + t5;
    let t3 = dec_digits(id as u64) + t4;
    let t2 = key_lit("id"@) + t3;
    let t1 = tag_lit("Mastery"@) + t2;
    assert(s =~= first_key_lit("type"@) + t1);
    lemma_lit_round_trip(first_key_lit("type"@), t1);
    lemma_tag_mismatch("Coins"@, "Mastery"@, t2);
    lemma_tag_mismatch("Item"@, "Mastery"@, t2);
    lemma_lit_round_trip(tag_lit("Mastery"@), t2);
    lemma_lit_round_trip(key_lit("id"@), t3);
    assert(t4[0] == 0x2cu8);
    lemma_u64_round_trip(id as u64, t4);
    lemma_lit_round_trip(key_lit("region"@), t5);
    assert(parse_jstring(t5) == Some((region, t6))) by {
        lemma_jstring_round_trip(region, t6);
    }
    assert(t6[0] == 0x7du8);
    assert(t6.drop_first() =~= rest);
}

proof fn lemma_reward_rt_title(id: usize, rest: Seq<u8>)
    ensures
        parse_reward(ser_reward(RewardModel::Title { id }) + rest) == Some(
            (RewardModel::Title { id }, rest),
        ),
{
    reveal(parse_reward);
    reveal(ser_reward);
    reveal(parse_reward_title);
    lemma_reward_tag_names();
    let s = ser_reward(RewardModel::Title { id }) + rest;
    let t4 = seq![0x7du8] + rest;
    let t3 = dec_digits(id as u64) + t4;
    let t2 = key_lit("id"@) + t3;
    let t1 = tag_lit("Title"@) + t2;
    assert(s =~= first_key_lit("type"@) + t1);
    lemma_lit_round_trip(first_key_lit("type"@), t1);
    lemma_tag_mismatch("Coins"@, "Title"@, t2);
    lemma_tag_mismatch("Item"@, "Title"@, t2);
    lemma_tag_mismatch("Mastery"@, "Title"@, t2);
    lemma_lit_round_trip(tag_lit("Title"@), t2);
    lemma_lit_round_trip(key_lit("id"@), t3);
    assert(t4[0] == 0x7du8);
    lemma_u64_round_trip(id as u64, t4);
    assert(t4.drop_first() =~= rest);
}

pub proof fn lemma_reward_round_trip(v: RewardModel, rest: Seq<u8>)
    ensures
        parse_reward(ser_reward(v) + rest) == Some((v, rest)),
{
    match v {
        RewardModel::Coins { count } => lemma_reward_rt_coins(count, rest),
        RewardModel::Item { id, count } => lemma_reward_rt_item(id, count, rest),
        RewardModel::Mastery { id, region } => lemma_reward_rt_mastery(id, region, rest),
        RewardModel::Title { id } => lemma_reward_rt_title(id, rest),
    }
}

pub proof fn lemma_parse_reward_len(s: Seq<u8>)
    requires
        parse_reward(s) is Some,
    ensures
        rest_of(parse_reward(s)).len() < s.len(),
{
    reveal(parse_reward);
    reveal(parse_reward_coins);
    reveal(parse_reward_item);
    reveal(parse_reward_mastery);
    reveal(parse_reward_title);
    let s1 = spec_lit(s, first_key_lit("type"@))->0;
    if spec_lit(s1, tag_lit("Coins"@)) is Some {
        let s2 = spec_lit(s1, tag_lit("Coins"@))->0;
        let s3 = spec_lit(s2, key_lit("count"@))->0;
        lemma_parse_u64_len(s3);
    } else if spec_lit(s1, tag_lit("Item"@)) is Some {
        let s2 = spec_lit(s1, tag_lit("Item"@))->0;
        let s3 = spec_lit(s2, key_lit("id"@))->0;
        lemma_parse_u64_len(s3);
        let s4 = rest_of(parse_usize(s3));
        let s5 = spec_lit(s4, key_lit("count"@))->0;
        lemma_parse_u64_len(s5);
    } else if spec_lit(s1, tag_lit("Mastery"@)) is Some {
        let s2 = spec_lit(s1, tag_lit("Mastery"@))->0;
        let s3 = spec_lit(s2, key_lit("id"@))->0;
        lemma_parse_u64_len(s3);
        let s4 = rest_of(parse_usize(s3));
        let s5 = spec_lit(s4, key_lit("region"@))->0;
        lemma_parse_jstring_len(s5);
    } else {
        let s2 = spec_lit(s1, tag_lit("Title"@))->0;
        let s3 = spec_lit(s2, key_lit("id"@))->0;
        lemma_parse_u64_len(s3);
    }
}

pub proof fn lemma_reward_good()
    ensures
        good_parser(reward_p(), reward_s()),
{
    assert forall|v: RewardModel, rest: Seq<u8>| value_delim(rest) implies #[trigger] reward_p()(
        reward_s()(v) + rest,
    ) == Some((v, rest)) by {
        lemma_reward_round_trip(v, rest);
    }
    assert forall|v: RewardModel| (#[trigger] reward_s()(v)).len() > 0 && reward_s()(v)[0] != 0x6e
        && reward_s()(v)[0] != 0x5d by {
        reveal(ser_reward);
        assert(reward_s()(v)[0] == 0x7bu8);
    }
    assert forall|s: Seq<u8>| (#[trigger] reward_p()(s)) is Some implies rest_of(
        reward_p()(s),
    ).len() < s.len() by {
        lemma_parse_reward_len(s);
    }
}

pub open spec fn arr_usize_p() -> spec_fn(Seq<u8>) -> Option<(Seq<usize>, Seq<u8>)> {
    |s: Seq<u8>| parse_array(usize_p(), s)
}

pub open spec fn arr_usize_s() -> spec_fn(Seq<usize>) -> Seq<u8> {
    |v: Seq<usize>| ser_array(usize_s(), v)
}

pub proof fn lemma_arr_usize_good()
    ensures
        good_parser(arr_usize_p(), arr_usize_s()),
{
    assert forall|v: Seq<usize>, rest: Seq<u8>| value_delim(rest) implies #[trigger] arr_usize_p()(
        arr_usize_s()(v) + rest,
    ) == Some((v, rest)) by {
        lemma_usize_good();
        lemma_array_round_trip(usize_p(), usize_s(), v, rest);
    }
    assert forall|v: Seq<usize>| (#[trigger] arr_usize_s()(v)).len() > 0 && arr_usize_s()(v)[0]
        != 0x6e && arr_usize_s()(v)[0] != 0x5d by {
        assert(arr_usize_s()(v)[0] == 0x5bu8);
    }
    assert forall|s: Seq<u8>| (#[trigger] arr_usize_p()(s)) is Some implies rest_of(
        arr_usize_p()(s),
    ).len() < s.len() by {
        lemma_parse_array_len(usize_p(), s);
    }
}

// ---------------------------------------------------------------------------
// Achievement bits
// ---------------------------------------------------------------------------

#[verifier::opaque]
pub open spec fn ser_bit(v: AchievementBitModel) -> Seq<u8> {
    first_key_lit("bit_type"@) + (ser_opt(jstr_s(), v.bit_type) + (key_lit("id"@) + (ser_opt(
        usize_s(),
        v.id,
    ) + (key_lit("text"@) + (ser_opt(jstr_s(), v.text) + seq![0x7du8])))))
}

#[verifier::opaque]
pub open spec fn parse_bit(s: Seq<u8>) -> Option<(AchievementBitModel, Seq<u8>)> {
    match spec_lit(s, first_key_lit("bit_type"@)) {
        None => None,
        Some(s1) => match parse_opt(jstr_p(), s1) {
            None => None,
            Some((bit_type, s2)) => match spec_lit(s2, key_lit("id"@)) {
                None => None,
                Some(s3) => match parse_opt(usize_p(), s3) {
                    None => None,
                    Some((id, s4)) => match spec_lit(s4, key_lit("text"@)) {
                        None => None,
                        Some(s5) => match parse_opt(jstr_p(), s5) {
                            None => None,
                            Some((text, s6)) => if s6.len() > 0 && s6[0] == 0x7d {
                                Some((AchievementBitModel { bit_type, id, text }, s6.drop_first()))
                            } else {
                                None
                            },
                        },
                    },
                },
            },
        },
    }
}

pub open spec fn bit_p() -> spec_fn(Seq<u8>) -> Option<(AchievementBitModel, Seq<u8>)> {
    |s: Seq<u8>| parse_bit(s)
}

pub open spec fn bit_s() -> spec_fn(AchievementBitModel) -> Seq<u8> {
    |v: AchievementBitModel| ser_bit(v)
}

pub proof fn lemma_bit_round_trip(v: AchievementBitModel, rest: Seq<u8>)
    ensures
        parse_bit(ser_bit(v) + rest) == Some((v, rest)),
{
    reveal(parse_bit);
    reveal(ser_bit);
    let t6 = seq![0x7du8] + rest;
    let t5 = ser_opt(jstr_s(), v.text) + t6;
    let t4 = key_lit("text"@) + t5;
    let t3 = ser_opt(usize_s(), v.id) + t4;
    let t2 = key_lit("id"@) + t3;
    let t1 = ser_opt(jstr_s(), v.bit_type) + t2;
    let s = ser_bit(v) + rest;
    assert(s =~= first_key_lit("bit_type"@) + t1);
    lemma_lit_round_trip(first_key_lit("bit_type"@), t1);
    assert(t2[0] == 0x2cu8);
    assert(parse_opt(jstr_p(), t1) == Some((v.bit_type, t2))) by {
        lemma_jstr_good();
        lemma_opt_round_trip(jstr_p(), jstr_s(), v.bit_type, t2);
    }
    lemma_lit_round_trip(key_lit("id"@), t3);
    assert(t4[0] == 0x2cu8);
    assert(parse_opt(usize_p(), t3) == Some((v.id, t4))) by {
        lemma_usize_good();
        lemma_opt_round_trip(usize_p(), usize_s(), v.id, t4);
    }
    lemma_lit_round_trip(key_lit("text"@), t5);
    assert(t6[0] == 0x7du8);
    assert(parse_opt(jstr_p(), t5) == Some((v.text, t6))) by {
        lemma_jstr_good();
        lemma_opt_round_trip(jstr_p(), jstr_s(), v.text, t6);
    }
    assert(t6.drop_first() =~= rest);
}

pub proof fn lemma_parse_bit_len(s: Seq<u8>)
    requires
        parse_bit(s) is Some,
    ensures
        rest_of(parse_bit(s)).len() < s.len(),
{
    reveal(parse_bit);
    let s1 = spec_lit(s, first_key_lit("bit_type"@))->0;
    assert(rest_of(parse_opt(jstr_p(), s1)).len() < s1.len()) by {
        assert forall|t: Seq<u8>| (#[trigger] jstr_p()(t)) is Some implies rest_of(
            jstr_p()(t),
        ).len() < t.len() by {
            lemma_parse_jstring_len(t);
        }
        lemma_opt_len(jstr_p(), s1);
    }
    let s2 = rest_of(parse_opt(jstr_p(), s1));
    let s3 = spec_lit(s2, key_lit("id"@))->0;
    assert(rest_of(parse_opt(usize_p(), s3)).len() < s3.len()) by {
        assert forall|t: Seq<u8>| (#[trigger] usize_p()(t)) is Some implies rest_of(
            usize_p()(t),
        ).len() < t.len() by {
            lemma_parse_u64_len(t);
        }
        lemma_opt_len(usize_p(), s3);
    }
    let s4 = rest_of(parse_opt(usize_p(), s3));
    let s5 = spec_lit(s4, key_lit("text"@))->0;
    assert(rest_of(parse_opt(jstr_p(), s5)).len() < s5.len()) by {
        assert forall|t: Seq<u8>| (#[trigger] jstr_p()(t)) is Some implies rest_of(
            jstr_p()(t),
        ).len() < t.len() by {
            lemma_parse_jstring_len(t);
        }
        lemma_opt_len(jstr_p(), s5);
    }
}

pub proof fn lemma_bit_good()
    ensures
        good_parser(bit_p(), bit_s()),
{
    assert forall|v: AchievementBitModel, rest: Seq<u8>| value_delim(rest) implies #[trigger] bit_p()(
        bit_s()(v) + rest,
    ) == Some((v, rest)) by {
        lemma_bit_round_trip(v, rest);
    }
    assert forall|v: AchievementBitModel| (#[trigger] bit_s()(v)).len() > 0 && bit_s()(v)[0]
        != 0x6e && bit_s()(v)[0] != 0x5d by {
        reveal(ser_bit);
        assert(bit_s()(v)[0] == 0x7bu8);
    }
    assert forall|s: Seq<u8>| (#[trigger] bit_p()(s)) is Some implies rest_of(bit_p()(s)).len()
        < s.len() by {
        lemma_parse_bit_len(s);
    }
}

// ---------------------------------------------------------------------------
// Account achievements
// ---------------------------------------------------------------------------

#[verifier::opaque]
pub open spec fn ser_acct_rest3(repeated: Option<usize>, unlocked: Option<bool>) -> Seq<u8> {
    key_lit("repeated"@) + (ser_opt(usize_s(), repeated) + (key_lit("unlocked"@) + (ser_opt(
        bool_s(),
        unlocked,
    ) + seq![0x7du8])))
}

#[verifier::opaque]
pub open spec fn parse_acct_rest3(s: Seq<u8>) -> Option<
    ((Option<usize>, Option<bool>), Seq<u8>),
> {
    match spec_lit(s, key_lit("repeated"@)) {
        None => None,
        Some(s1) => match parse_opt(usize_p(), s1) {
            None => None,
            Some((repeated, s2)) => match spec_lit(s2, key_lit("unlocked"@)) {
                None => None,
                Some(s3) => match parse_opt(bool_p(), s3) {
                    None => None,
                    Some((unlocked, s4)) => if s4.len() > 0 && s4[0] == 0x7d {
                        Some(((repeated, unlocked), s4.drop_first()))
                    } else {
                        None
                    },
                },
            },
        },
    }
}

#[verifier::opaque]
pub open spec fn ser_acct_rest2(
    max: Option<usize>,
    done: bool,
    repeated: Option<usize>,
    unlocked: Option<bool>,
) -> Seq<u8> {
    key_lit("max"@) + (ser_opt(usize_s(), max) + (key_lit("done"@) + (ser_bool(done)
        + ser_acct_rest3(repeated, unlocked))))
}

#[verifier::opaque]
pub open spec fn parse_acct_rest2(s: Seq<u8>) -> Option<
    ((Option<usize>, bool, (Option<usize>, Option<bool>)), Seq<u8>),
> {
    match spec_lit(s, key_lit("max"@)) {
        None => None,
        Some(s1) => match parse_opt(usize_p(), s1) {
            None => None,
            Some((max, s2)) => match spec_lit(s2, key_lit("done"@)) {
                None => None,
                Some(s3) => match parse_bool(s3) {
                    None => None,
                    Some((done, s4)) => match parse_acct_rest3(s4) {
                        None => None,
                        Some((tail, s5)) => Some(((max, done, tail), s5)),
                    },
                },
            },
        },
    }
}

#[verifier::opaque]
pub open spec fn ser_account(v: AccountAchievementModel) -> Seq<u8> {
    first_key_lit("id"@) + (dec_digits(v.id as u64) + (key_lit("bits"@) + (ser_opt(
        arr_usize_s(),
        v.bits,
    ) + (key_lit("current"@) + (ser_opt(usize_s(), v.current) + ser_acct_rest2(
        v.max,
        v.done,
        v.repeated,
        v.unlocked,
    ))))))
}

#[verifier::opaque]
pub open spec fn parse_account(s: Seq<u8>) -> Option<(AccountAchievementModel, Seq<u8>)> {
    match spec_lit(s, first_key_lit("id"@)) {
        None => None,
        Some(s1) => match parse_usize(s1) {
            None => None,
            Some((id, s2)) => match spec_lit(s2, key_lit("bits"@)) {
                None => None,
                Some(s3) => match parse_opt(arr_usize_p(), s3) {
                    None => None,
                    Some((bits, s4)) => match spec_lit(s4, key_lit("current"@)) {
                        None => None,
                        Some(s5) => match parse_opt(usize_p(), s5) {
                            None => None,
                            Some((current, s6)) => match parse_acct_rest2(s6) {
                                None => None,
                                Some(((max, done, (repeated, unlocked)), s7)) => Some(
                                    (
                                        AccountAchievementModel {
                                            id,
                                            bits,
                                            current,
                                            max,
                                            done,
                                            repeated,
                                            unlocked,
                                        },
                                        s7,
                                    ),
                                ),
                            },
                        },
                    },
                },
            },
        },
    }
}

pub open spec fn acct_p() -> spec_fn(Seq<u8>) -> Option<(AccountAchievementModel, Seq<u8>)> {
    |s: Seq<u8>| parse_account(s)
}

pub open spec fn acct_s() -> spec_fn(AccountAchievementModel) -> Seq<u8> {
    |v: AccountAchievementModel| ser_account(v)
}

proof fn lemma_acct_rest3_round_trip(
    repeated: Option<usize>,
    unlocked: Option<bool>,
    rest: Seq<u8>,
)
    ensures
        parse_acct_rest3(ser_acct_rest3(repeated, unlocked) + rest) == Some(
            ((repeated, unlocked), rest),
        ),
{
    reveal(parse_acct_rest3);
    reveal(ser_acct_rest3);
    let t4 = seq![0x7du8] + rest;
    let t3 = ser_opt(bool_s(), unlocked) + t4;
    let t2 = key_lit("unlocked"@) + t3;
    let t1 = ser_opt(usize_s(), repeated) + t2;
    let s = ser_acct_rest3(repeated, unlocked) + rest;
    assert(s =~= key_lit("repeated"@) + t1);
    lemma_lit_round_trip(key_lit("repeated"@), t1);
    assert(t2[0] == 0x2cu8);
    assert(parse_opt(usize_p(), t1) == Some((repeated, t2))) by {
        lemma_usize_good();
        lemma_opt_round_trip(usize_p(), usize_s(), repeated, t2);
    }
    lemma_lit_round_trip(key_lit("unlocked"@), t3);
    assert(t4[0] == 0x7du8);
    assert(parse_opt(bool_p(), t3) == Some((unlocked, t4))) by {
        lemma_bool_good();
        lemma_opt_round_trip(bool_p(), bool_s(), unlocked, t4);
    }
    assert(t4.drop_first() =~= rest);
}

proof fn lemma_acct_rest2_round_trip(
    max: Option<usize>,
    done: bool,
    repeated: Option<usize>,
    unlocked: Option<bool>,
    rest: Seq<u8>,
)
    ensures
        parse_acct_rest2(ser_acct_rest2(max, done, repeated, unlocked) + rest) == Some(
            ((max, done, (repeated, unlocked)), rest),
        ),
{
    reveal(parse_acct_rest2);
    reveal(ser_acct_rest2);
    let t4 = ser_acct_rest3(repeated, unlocked) + rest;
    let t3 = ser_bool(done) + t4;
    let t2 = key_lit("done"@) + t3;
    let t1 = ser_opt(usize_s(), max) + t2;
    let s = ser_acct_rest2(max, done, repeated, unlocked) + rest;
    assert(s =~= key_lit("max"@) + t1);
    lemma_lit_round_trip(key_lit("max"@), t1);
    assert(t2[0] == 0x2cu8);
    assert(parse_opt(usize_p(), t1) == Some((max, t2))) by {
        lemma_usize_good();
        lemma_opt_round_trip(usize_p(), usize_s(), max, t2);
    }
    lemma_lit_round_trip(key_lit("done"@), t3);
    assert(parse_bool(t3) == Some((done, t4))) by {
        crate::json::lemma_bool_round_trip(done, t4);
    }
    lemma_acct_rest3_round_trip(repeated, unlocked, rest);
}

pub proof fn lemma_account_round_trip(v: AccountAchievementModel, rest: Seq<u8>)
    ensures
        parse_account(ser_account(v) + rest) == Some((v, rest)),
{
    reveal(ser_acct_rest2);
    reveal(parse_account);
    reveal(ser_account);
    let t5 = ser_acct_rest2(v.max, v.done, v.repeated, v.unlocked) + rest;
    let t4 = ser_opt(usize_s(), v.current) + t5;
    let t3 = key_lit("current"@) + t4;
    let t2 = ser_opt(arr_usize_s(), v.bits) + t3;
    let t1 = dec_digits(v.id as u64) + (key_lit("bits"@) + t2);
    let tk = key_lit("bits"@) + t2;
    let s = ser_account(v) + rest;
    assert(s =~= first_key_lit("id"@) + t1);
    lemma_lit_round_trip(first_key_lit("id"@), t1);
    assert(tk[0] == 0x2cu8);
    lemma_u64_round_trip(v.id as u64, tk);
    lemma_lit_round_trip(key_lit("bits"@), t2);
    assert(t3[0] == 0x2cu8);
    assert(parse_opt(arr_usize_p(), t2) == Some((v.bits, t3))) by {
        lemma_arr_usize_good();
        lemma_opt_round_trip(arr_usize_p(), arr_usize_s(), v.bits, t3);
    }
    lemma_lit_round_trip(key_lit("current"@), t4);
    assert(t5[0] == 0x2cu8);
    assert(parse_opt(usize_p(), t4) == Some((v.current, t5))) by {
        lemma_usize_good();
        lemma_opt_round_trip(usize_p(), usize_s(), v.current, t5);
    }
    lemma_acct_rest2_round_trip(v.max, v.done, v.repeated, v.unlocked, rest);
}

proof fn lemma_parse_acct_rest3_len(s: Seq<u8>)
    requires
        parse_acct_rest3(s) is Some,
    ensures
        rest_of(parse_acct_rest3(s)).len() < s.len(),
{
    reveal(parse_acct_rest3);
    let s1 = spec_lit(s, key_lit("repeated"@))->0;
    assert(rest_of(parse_opt(usize_p(), s1)).len() < s1.len()) by {
        assert forall|t: Seq<u8>| (#[trigger] usize_p()(t)) is Some implies rest_of(
            usize_p()(t),
        ).len() < t.len() by {
            lemma_parse_u64_len(t);
        }
        lemma_opt_len(usize_p(), s1);
    }
}

proof fn lemma_parse_acct_rest2_len(s: Seq<u8>)
    requires
        parse_acct_rest2(s) is Some,
    ensures
        rest_of(parse_acct_rest2(s)).len() < s.len(),
{
    reveal(parse_acct_rest2);
    let s1 = spec_lit(s, key_lit("max"@))->0;
    assert(rest_of(parse_opt(usize_p(), s1)).len() < s1.len()) by {
        assert forall|t: Seq<u8>| (#[trigger] usize_p()(t)) is Some implies rest_of(
            usize_p()(t),
        ).len() < t.len() by {
            lemma_parse_u64_len(t);
        }
        lemma_opt_len(usize_p(), s1);
    }
    let s2 = rest_of(parse_opt(usize_p(), s1));
    let s3 = spec_lit(s2, key_lit("done"@))->0;
    let s4 = rest_of(parse_bool(s3));
    lemma_parse_acct_rest3_len(s4);
}

pub proof fn lemma_parse_account_len(s: Seq<u8>)
    requires
        parse_account(s) is Some,
    ensures
        rest_of(parse_account(s)).len() < s.len(),
{
    reveal(parse_account);
    let s1 = spec_lit(s, first_key_lit("id"@))->0;
    lemma_parse_u64_len(s1);
    let s2 = rest_of(parse_usize(s1));
    let s3 = spec_lit(s2, key_lit("bits"@))->0;
    assert(rest_of(parse_opt(arr_usize_p(), s3)).len() < s3.len()) by {
        assert forall|t: Seq<u8>| (#[trigger] arr_usize_p()(t)) is Some implies rest_of(
            arr_usize_p()(t),
        ).len() < t.len() by {
            lemma_parse_array_len(usize_p(), t);
        }
        lemma_opt_len(arr_usize_p(), s3);
    }
    let s4 = rest_of(parse_opt(arr_usize_p(), s3));
    let s5 = spec_lit(s4, key_lit("current"@))->0;
    assert(rest_of(parse_opt(usize_p(), s5)).len() < s5.len()) by {
        assert forall|t: Seq<u8>| (#[trigger] usize_p()(t)) is Some implies rest_of(
            usize_p()(t),
        ).len() < t.len() by {
            lemma_parse_u64_len(t);
        }
        lemma_opt_len(usize_p(), s5);
    }
    let s6 = rest_of(parse_opt(usize_p(), s5));
    lemma_parse_acct_rest2_len(s6);
}

pub proof fn lemma_acct_good()
    ensures
        good_parser(acct_p(), acct_s()),
{
    assert forall|v: AccountAchievementModel, rest: Seq<u8>| value_delim(rest) implies #[trigger] acct_p()(
        acct_s()(v) + rest,
    ) == Some((v, rest)) by {
        lemma_account_round_trip(v, rest);
    }
    assert forall|v: AccountAchievementModel| (#[trigger] acct_s()(v)).len() > 0 && acct_s()(v)[0]
        != 0x6e && acct_s()(v)[0] != 0x5d by {
        reveal(ser_account);
        assert(acct_s()(v)[0] == 0x7bu8);
    }
    assert forall|s: Seq<u8>| (#[trigger] acct_p()(s)) is Some implies rest_of(acct_p()(s)).len()
        < s.len() by {
        lemma_parse_account_len(s);
    }
}

pub open spec fn arr_acct_p() -> spec_fn(Seq<u8>) -> Option<
    (Seq<AccountAchievementModel>, Seq<u8>),
> {
    |s: Seq<u8>| parse_array(acct_p(), s)
}

pub open spec fn arr_acct_s() -> spec_fn(Seq<AccountAchievementModel>) -> Seq<u8> {
    |v: Seq<AccountAchievementModel>| ser_array(acct_s(), v)
}

pub proof fn lemma_arr_acct_good()
    ensures
        good_parser(arr_acct_p(), arr_acct_s()),
{
    assert forall|v: Seq<AccountAchievementModel>, rest: Seq<u8>| value_delim(rest)
        implies #[trigger] arr_acct_p()(arr_acct_s()(v) + rest) == Some((v, rest)) by {
        lemma_acct_good();
        lemma_array_round_trip(acct_p(), acct_s(), v, rest);
    }
    assert forall|v: Seq<AccountAchievementModel>| (#[trigger] arr_acct_s()(v)).len() > 0
        && arr_acct_s()(v)[0] != 0x6e && arr_acct_s()(v)[0] != 0x5d by {
        assert(arr_acct_s()(v)[0] == 0x5bu8);
    }
    assert forall|s: Seq<u8>| (#[trigger] arr_acct_p()(s)) is Some implies rest_of(
        arr_acct_p()(s),
    ).len() < s.len() by {
        lemma_parse_array_len(acct_p(), s);
    }
}

// ---------------------------------------------------------------------------
// Achievements
// ---------------------------------------------------------------------------

pub open spec fn arr_reward_p() -> spec_fn(Seq<u8>) -> Option<(Seq<RewardModel>, Seq<u8>)> {
    |s: Seq<u8>| parse_array(reward_p(), s)
}

pub open spec fn arr_reward_s() -> spec_fn(Seq<RewardModel>) -> Seq<u8> {
    |v: Seq<RewardModel>| ser_array(reward_s(), v)
}

pub proof fn lemma_arr_reward_good()
    ensures
        good_parser(arr_reward_p(), arr_reward_s()),
{
    assert forall|v: Seq<RewardModel>, rest: Seq<u8>| value_delim(rest)
        implies #[trigger] arr_reward_p()(arr_reward_s()(v) + rest) == Some((v, rest)) by {
        lemma_reward_good();
        lemma_array_round_trip(reward_p(), reward_s(), v, rest);
    }
    assert forall|v: Seq<RewardModel>| (#[trigger] arr_reward_s()(v)).len() > 0 && arr_reward_s()(
        v,
    )[0] != 0x6e && arr_reward_s()(v)[0] != 0x5d by {
        assert(arr_reward_s()(v)[0] == 0x5bu8);
    }
    assert forall|s: Seq<u8>| (#[trigger] arr_reward_p()(s)) is Some implies rest_of(
        arr_reward_p()(s),
    ).len() < s.len() by {
        lemma_parse_array_len(reward_p(), s);
    }
}

pub open spec fn arr_bit_p() -> spec_fn(Seq<u8>) -> Option<(Seq<AchievementBitModel>, Seq<u8>)> {
    |s: Seq<u8>| parse_array(bit_p(), s)
}

pub open spec fn arr_bit_s() -> spec_fn(Seq<AchievementBitModel>) -> Seq<u8> {
    |v: Seq<AchievementBitModel>| ser_array(bit_s(), v)
}

pub proof fn lemma_arr_bit_good()
    ensures
        good_parser(arr_bit_p(), arr_bit_s()),
{
    assert forall|v: Seq<AchievementBitModel>, rest: Seq<u8>| value_delim(rest)
        implies #[trigger] arr_bit_p()(arr_bit_s()(v) + rest) == Some((v, rest)) by {
        lemma_bit_good();
        lemma_array_round_trip(bit_p(), bit_s(), v, rest);
    }
    assert forall|v: Seq<AchievementBitModel>| (#[trigger] arr_bit_s()(v)).len() > 0
        && arr_bit_s()(v)[0] != 0x6e && arr_bit_s()(v)[0] != 0x5d by {
        assert(arr_bit_s()(v)[0] == 0x5bu8);
    }
    assert forall|s: Seq<u8>| (#[trigger] arr_bit_p()(s)) is Some implies rest_of(
        arr_bit_p()(s),
    ).len() < s.len() by {
        lemma_parse_array_len(bit_p(), s);
    }
}

#[verifier::opaque]
pub open spec fn ser_ach_c7(point_cap: Option<i32>) -> Seq<u8> {
    key_lit("point_cap"@) + (ser_opt(i32_s(), point_cap) + seq![0x7du8])
}

#[verifier::opaque]
pub open spec fn parse_ach_c7(s: Seq<u8>) -> Option<(Option<i32>, Seq<u8>)> {
    match spec_lit(s, key_lit("point_cap"@)) {
        None => None,
        Some(s1) => match parse_opt(i32_p(), s1) {
            None => None,
            Some((point_cap, s2)) => if s2.len() > 0 && s2[0] == 0x7d {
                Some((point_cap, s2.drop_first()))
            } else {
                None
            },
        },
    }
}

#[verifier::opaque]
pub open spec fn ser_ach_c6(
    rewards: Option<Seq<RewardModel>>,
    bits: Option<Seq<AchievementBitModel>>,
    point_cap: Option<i32>,
) -> Seq<u8> {
    key_lit("rewards"@) + (ser_opt(arr_reward_s(), rewards) + (key_lit("bits"@) + (ser_opt(
        arr_bit_s(),
        bits,
    ) + ser_ach_c7(point_cap))))
}

#[verifier::opaque]
pub open spec fn parse_ach_c6(s: Seq<u8>) -> Option<
    ((Option<Seq<RewardModel>>, Option<Seq<AchievementBitModel>>, Option<i32>), Seq<u8>),
> {
    match spec_lit(s, key_lit("rewards"@)) {
        None => None,
        Some(s1) => match parse_opt(arr_reward_p(), s1) {
            None => None,
            Some((rewards, s2)) => match spec_lit(s2, key_lit("bits"@)) {
                None => None,
                Some(s3) => match parse_opt(arr_bit_p(), s3) {
                    None => None,
                    Some((bits, s4)) => match parse_ach_c7(s4) {
                        None => None,
                        Some((point_cap, s5)) => Some(((rewards, bits, point_cap), s5)),
                    },
                },
            },
        },
    }
}

#[verifier::opaque]
pub open spec fn ser_ach_c5(
    tiers: Seq<AchievementTier>,
    prerequisites: Option<Seq<usize>>,
    rewards: Option<Seq<RewardModel>>,
    bits: Option<Seq<AchievementBitModel>>,
    point_cap: Option<i32>,
) -> Seq<u8> {
    key_lit("tiers"@) + (ser_array(tier_s(), tiers) + (key_lit("prerequisites"@) + (ser_opt(
        arr_usize_s(),
        prerequisites,
    ) + ser_ach_c6(rewards, bits, point_cap))))
}

#[verifier::opaque]
pub open spec fn parse_ach_c5(s: Seq<u8>) -> Option<
    (
        (
            Seq<AchievementTier>,
            Option<Seq<usize>>,
            (Option<Seq<RewardModel>>, Option<Seq<AchievementBitModel>>, Option<i32>),
        ),
        Seq<u8>,
    ),
> {
    match spec_lit(s, key_lit("tiers"@)) {
        None => None,
        Some(s1) => match parse_array(tier_p(), s1) {
            None => None,
            Some((tiers, s2)) => match spec_lit(s2, key_lit("prerequisites"@)) {
                None => None,
                Some(s3) => match parse_opt(arr_usize_p(), s3) {
                    None => None,
                    Some((prerequisites, s4)) => match parse_ach_c6(s4) {
                        None => None,
                        Some((tail, s5)) => Some(((tiers, prerequisites, tail), s5)),
                    },
                },
            },
        },
    }
}

#[verifier::opaque]
pub open spec fn ser_ach_c4(
    achievement_type: Seq<char>,
    flags: Seq<Seq<char>>,
    tiers: Seq<AchievementTier>,
    prerequisites: Option<Seq<usize>>,
    rewards: Option<Seq<RewardModel>>,
    bits: Option<Seq<AchievementBitModel>>,
    point_cap: Option<i32>,
) -> Seq<u8> {
    key_lit("achievement_type"@) + (ser_jstring(achievement_type) + (key_lit("flags"@) + (
    ser_array(jstr_s(), flags) + ser_ach_c5(tiers, prerequisites, rewards, bits, point_cap))))
}

#[verifier::opaque]
pub open spec fn parse_ach_c4(s: Seq<u8>) -> Option<
    (
        (
            Seq<char>,
            Seq<Seq<char>>,
            (
                Seq<AchievementTier>,
                Option<Seq<usize>>,
                (Option<Seq<RewardModel>>, Option<Seq<AchievementBitModel>>, Option<i32>),
            ),
        ),
        Seq<u8>,
    ),
> {
    match spec_lit(s, key_lit("achievement_type"@)) {
        None => None,
        Some(s1) => match parse_jstring(s1) {
            None => None,
            Some((achievement_type, s2)) => match spec_lit(s2, key_lit("flags"@)) {
                None => None,
                Some(s3) => match parse_array(jstr_p(), s3) {
                    None => None,
                    Some((flags, s4)) => match parse_ach_c5(s4) {
                        None => None,
                        Some((tail, s5)) => Some(((achievement_type, flags, tail), s5)),
                    },
                },
            },
        },
    }
}

#[verifier::opaque]
pub open spec fn ser_ach_c3(
    requirement: Seq<char>,
    locked_text: Seq<char>,
    achievement_type: Seq<char>,
    flags: Seq<Seq<char>>,
    tiers: Seq<AchievementTier>,
    prerequisites: Option<Seq<usize>>,
    rewards: Option<Seq<RewardModel>>,
    bits: Option<Seq<AchievementBitModel>>,
    point_cap: Option<i32>,
) -> Seq<u8> {
    key_lit("requirement"@) + (ser_jstring(requirement) + (key_lit("locked_text"@) + (ser_jstring(
        locked_text,
    ) + ser_ach_c4(achievement_type, flags, tiers, prerequisites, rewards, bits, point_cap))))
}

#[verifier::opaque]
pub open spec fn parse_ach_c3(s: Seq<u8>) -> Option<
    (
        (
            Seq<char>,
            Seq<char>,
            (
                Seq<char>,
                Seq<Seq<char>>,
                (
                    Seq<AchievementTier>,
                    Option<Seq<usize>>,
                    (Option<Seq<RewardModel>>, Option<Seq<AchievementBitModel>>, Option<i32>),
                ),
            ),
        ),
        Seq<u8>,
    ),
> {
    match spec_lit(s, key_lit("requirement"@)) {
        None => None,
        Some(s1) => match parse_jstring(s1) {
            None => None,
            Some((requirement, s2)) => match spec_lit(s2, key_lit("locked_text"@)) {
                None => None,
                Some(s3) => match parse_jstring(s3) {
                    None => None,
                    Some((locked_text, s4)) => match parse_ach_c4(s4) {
                        None => None,
                        Some((tail, s5)) => Some(((requirement, locked_text, tail), s5)),
                    },
                },
            },
        },
    }
}

#[verifier::opaque]
pub open spec fn ser_ach_c2(
    name: Seq<char>,
    description: Seq<char>,
    requirement: Seq<char>,
    locked_text: Seq<char>,
    achievement_type: Seq<char>,
    flags: Seq<Seq<char>>,
    tiers: Seq<AchievementTier>,
    prerequisites: Option<Seq<usize>>,
    rewards: Option<Seq<RewardModel>>,
    bits: Option<Seq<AchievementBitModel>>,
    point_cap: Option<i32>,
) -> Seq<u8> {
    key_lit("name"@) + (ser_jstring(name) + (key_lit("description"@) + (ser_jstring(description)
        + ser_ach_c3(
        requirement,
        locked_text,
        achievement_type,
        flags,
        tiers,
        prerequisites,
        rewards,
        bits,
        point_cap,
    ))))
}

#[verifier::opaque]
pub open spec fn parse_ach_c2(s: Seq<u8>) -> Option<
    (
        (
            Seq<char>,
            Seq<char>,
            (
                Seq<char>,
                Seq<char>,
                (
                    Seq<char>,
                    Seq<Seq<char>>,
                    (
                        Seq<AchievementTier>,
                        Option<Seq<usize>>,
                        (
                            Option<Seq<RewardModel>>,
                            Option<Seq<AchievementBitModel>>,
                            Option<i32>,
                        ),
                    ),
                ),
            ),
        ),
        Seq<u8>,
    ),
> {
    match spec_lit(s, key_lit("name"@)) {
        None => None,
        Some(s1) => match parse_jstring(s1) {
            None => None,
            Some((name, s2)) => match spec_lit(s2, key_lit("description"@)) {
                None => None,
                Some(s3) => match parse_jstring(s3) {
                    None => None,
                    Some((description, s4)) => match parse_ach_c3(s4) {
                        None => None,
                        Some((tail, s5)) => Some(((name, description, tail), s5)),
                    },
                },
            },
        },
    }
}

#[verifier::opaque]
pub open spec fn ser_achievement(m: AchievementModel) -> Seq<u8> {
    first_key_lit("id"@) + (dec_digits(m.id as u64) + (key_lit("icon"@) + (ser_opt(
        jstr_s(),
        m.icon,
    ) + ser_ach_c2(
        m.name,
        m.description,
        m.requirement,
        m.locked_text,
        m.achievement_type,
        m.flags,
        m.tiers,
        m.prerequisites,
        m.rewards,
        m.bits,
        m.point_cap,
    ))))
}

#[verifier::opaque]
pub open spec fn parse_achievement(s: Seq<u8>) -> Option<(AchievementModel, Seq<u8>)> {
    match spec_lit(s, first_key_lit("id"@)) {
        None => None,
        Some(s1) => match parse_usize(s1) {
            None => None,
            Some((id, s2)) => match spec_lit(s2, key_lit("icon"@)) {
                None => None,
                Some(s3) => match parse_opt(jstr_p(), s3) {
                    None => None,
                    Some((icon, s4)) => match parse_ach_c2(s4) {
                        None => None,
                        Some(
                            (
                                (
                                    name,
                                    description,
                                    (
                                        requirement,
                                        locked_text,
                                        (
                                            achievement_type,
                                            flags,
                                            (tiers, prerequisites, (rewards, bits, point_cap)),
                                        ),
                                    ),
                                ),
                                s5,
                            ),
                        ) => Some(
                            (
                                AchievementModel {
                                    id,
                                    icon,
                                    name,
                                    description,
                                    requirement,
                                    locked_text,
                                    achievement_type,
                                    flags,
                                    tiers,
                                    prerequisites,
                                    rewards,
                                    bits,
                                    point_cap,
                                },
                                s5,
                            ),
                        ),
                    },
                },
            },
        },
    }
}

pub open spec fn ach_p() -> spec_fn(Seq<u8>) -> Option<(AchievementModel, Seq<u8>)> {
    |s: Seq<u8>| parse_achievement(s)
}

pub open spec fn ach_s() -> spec_fn(AchievementModel) -> Seq<u8> {
    |m: AchievementModel| ser_achievement(m)
}

proof fn lemma_ach_c7_round_trip(point_cap: Option<i32>, rest: Seq<u8>)
    ensures
        parse_ach_c7(ser_ach_c7(point_cap) + rest) == Some((point_cap, rest)),
{
    reveal(parse_ach_c7);
    reveal(ser_ach_c7);
    let t2 = seq![0x7du8] + rest;
    let t1 = ser_opt(i32_s(), point_cap) + t2;
    let s = ser_ach_c7(point_cap) + rest;
    assert(s =~= key_lit("point_cap"@) + t1);
    lemma_lit_round_trip(key_lit("point_cap"@), t1);
    assert(t2[0] == 0x7du8);
    assert(parse_opt(i32_p(), t1) == Some((point_cap, t2))) by {
        lemma_i32_good();
        lemma_opt_round_trip(i32_p(), i32_s(), point_cap, t2);
    }
    assert(t2.drop_first() =~= rest);
}

proof fn lemma_ach_c6_round_trip(
    rewards: Option<Seq<RewardModel>>,
    bits: Option<Seq<AchievementBitModel>>,
    point_cap: Option<i32>,
    rest: Seq<u8>,
)
    ensures
        parse_ach_c6(ser_ach_c6(rewards, bits, point_cap) + rest) == Some(
            ((rewards, bits, point_cap), rest),
        ),
{
    reveal(ser_ach_c7);
    reveal(parse_ach_c6);
    reveal(ser_ach_c6);
    let t4 = ser_ach_c7(point_cap) + rest;
    let t3 = ser_opt(arr_bit_s(), bits) + t4;
    let t2 = key_lit("bits"@) + t3;
    let t1 = ser_opt(arr_reward_s(), rewards) + t2;
    let s = ser_ach_c6(rewards, bits, point_cap) + rest;
    assert(s =~= key_lit("rewards"@) + t1);
    lemma_lit_round_trip(key_lit("rewards"@), t1);
    assert(t2[0] == 0x2cu8);
    assert(parse_opt(arr_reward_p(), t1) == Some((rewards, t2))) by {
        lemma_arr_reward_good();
        lemma_opt_round_trip(arr_reward_p(), arr_reward_s(), rewards, t2);
    }
    lemma_lit_round_trip(key_lit("bits"@), t3);
    assert(t4[0] == 0x2cu8);
    assert(parse_opt(arr_bit_p(), t3) == Some((bits, t4))) by {
        lemma_arr_bit_good();
        lemma_opt_round_trip(arr_bit_p(), arr_bit_s(), bits, t4);
    }
    lemma_ach_c7_round_trip(point_cap, rest);
}

proof fn lemma_ach_c5_round_trip(
    tiers: Seq<AchievementTier>,
    prerequisites: Option<Seq<usize>>,
    rewards: Option<Seq<RewardModel>>,
    bits: Option<Seq<AchievementBitModel>>,
    point_cap: Option<i32>,
    rest: Seq<u8>,
)
    ensures
        parse_ach_c5(ser_ach_c5(tiers, prerequisites, rewards, bits, point_cap) + rest) == Some(
            ((tiers, prerequisites, (rewards, bits, point_cap)), rest),
        ),
{
    reveal(ser_ach_c6);
    reveal(parse_ach_c5);
    reveal(ser_ach_c5);
    let t4 = ser_ach_c6(rewards, bits, point_cap) + rest;
    let t3 = ser_opt(arr_usize_s(), prerequisites) + t4;
    let t2 = key_lit("prerequisites"@) + t3;
    let t1 = ser_array(tier_s(), tiers) + t2;
    let s = ser_ach_c5(tiers, prerequisites, rewards, bits, point_cap) + rest;
    assert(s =~= key_lit("tiers"@) + t1);
    lemma_lit_round_trip(key_lit("tiers"@), t1);
    assert(t2[0] == 0x2cu8);
    assert(parse_array(tier_p(), t1) == Some((tiers, t2))) by {
        lemma_tier_good();
        lemma_array_round_trip(tier_p(), tier_s(), tiers, t2);
    }
    lemma_lit_round_trip(key_lit("prerequisites"@), t3);
    assert(t4[0] == 0x2cu8);
    assert(parse_opt(arr_usize_p(), t3) == Some((prerequisites, t4))) by {
        lemma_arr_usize_good();
        lemma_opt_round_trip(arr_usize_p(), arr_usize_s(), prerequisites, t4);
    }
    lemma_ach_c6_round_trip(rewards, bits, point_cap, rest);
}

proof fn lemma_ach_c4_round_trip(
    achievement_type: Seq<char>,
    flags: Seq<Seq<char>>,
    tiers: Seq<AchievementTier>,
    prerequisites: Option<Seq<usize>>,
    rewards: Option<Seq<RewardModel>>,
    bits: Option<Seq<AchievementBitModel>>,
    point_cap: Option<i32>,
    rest: Seq<u8>,
)
    ensures
        parse_ach_c4(
            ser_ach_c4(achievement_type, flags, tiers, prerequisites, rewards, bits, point_cap)
                + rest,
        ) == Some(
            (
                (
                    achievement_type,
                    flags,
                    (tiers, prerequisites, (rewards, bits, point_cap)),
                ),
                rest,
            ),
        ),
{
    reveal(ser_ach_c5);
    reveal(parse_ach_c4);
    reveal(ser_ach_c4);
    let t4 = ser_ach_c5(tiers, prerequisites, rewards, bits, point_cap) + rest;
    let t3 = ser_array(jstr_s(), flags) + t4;
    let t2 = key_lit("flags"@) + t3;
    let t1 = ser_jstring(achievement_type) + t2;
    let s = ser_ach_c4(achievement_type, flags, tiers, prerequisites, rewards, bits, point_cap)
        + rest;
    assert(s =~= key_lit("achievement_type"@) + t1);
    lemma_lit_round_trip(key_lit("achievement_type"@), t1);
    assert(parse_jstring(t1) == Some((achievement_type, t2))) by {
        lemma_jstring_round_trip(achievement_type, t2);
    }
    lemma_lit_round_trip(key_lit("flags"@), t3);
    assert(t4[0] == 0x2cu8);
    assert(parse_array(jstr_p(), t3) == Some((flags, t4))) by {
        lemma_jstr_good();
        lemma_array_round_trip(jstr_p(), jstr_s(), flags, t4);
    }
    lemma_ach_c5_round_trip(tiers, prerequisites, rewards, bits, point_cap, rest);
}

proof fn lemma_ach_c3_round_trip(
    requirement: Seq<char>,
    locked_text: Seq<char>,
    achievement_type: Seq<char>,
    flags: Seq<Seq<char>>,
    tiers: Seq<AchievementTier>,
    prerequisites: Option<Seq<usize>>,
    rewards: Option<Seq<RewardModel>>,
    bits: Option<Seq<AchievementBitModel>>,
    point_cap: Option<i32>,
    rest: Seq<u8>,
)
    ensures
        parse_ach_c3(
            ser_ach_c3(
                requirement,
                locked_text,
                achievement_type,
                flags,
                tiers,
                prerequisites,
                rewards,
                bits,
                point_cap,
            ) + rest,
        ) == Some(
            (
                (
                    requirement,
                    locked_text,
                    (
                        achievement_type,
                        flags,
                        (tiers, prerequisites, (rewards, bits, point_cap)),
                    ),
                ),
                rest,
            ),
        ),
{
    reveal(parse_ach_c3);
    reveal(ser_ach_c3);
    let t4 = ser_ach_c4(achievement_type, flags, tiers, prerequisites, rewards, bits, point_cap)
        + rest;
    let t3 = ser_jstring(locked_text) + t4;
    let t2 = key_lit("locked_text"@) + t3;
    let t1 = ser_jstring(requirement) + t2;
    let s = ser_ach_c3(
        requirement,
        locked_text,
        achievement_type,
        flags,
        tiers,
        prerequisites,
        rewards,
        bits,
        point_cap,
    ) + rest;
    assert(s =~= key_lit("requirement"@) + t1);
    lemma_lit_round_trip(key_lit("requirement"@), t1);
    assert(parse_jstring(t1) == Some((requirement, t2))) by {
        lemma_jstring_round_trip(requirement, t2);
    }
    lemma_lit_round_trip(key_lit("locked_text"@), t3);
    assert(parse_jstring(t3) == Some((locked_text, t4))) by {
        lemma_jstring_round_trip(locked_text, t4);
    }
    lemma_ach_c4_round_trip(
        achievement_type,
        flags,
        tiers,
        prerequisites,
        rewards,
        bits,
        point_cap,
        rest,
    );
}

proof fn lemma_ach_c2_round_trip(
    name: Seq<char>,
    description: Seq<char>,
    requirement: Seq<char>,
    locked_text: Seq<char>,
    achievement_type: Seq<char>,
    flags: Seq<Seq<char>>,
    tiers: Seq<AchievementTier>,
    prerequisites: Option<Seq<usize>>,
    rewards: Option<Seq<RewardModel>>,
    bits: Option<Seq<AchievementBitModel>>,
    point_cap: Option<i32>,
    rest: Seq<u8>,
)
    ensures
        parse_ach_c2(
            ser_ach_c2(
                name,
                description,
                requirement,
                locked_text,
                achievement_type,
                flags,
                tiers,
                prerequisites,
                rewards,
                bits,
                point_cap,
            ) + rest,
        ) == Some(
            (
                (
                    name,
                    description,
                    (
                        requirement,
                        locked_text,
                        (
                            achievement_type,
                            flags,
                            (tiers, prerequisites, (rewards, bits, point_cap)),
                        ),
                    ),
                ),
                rest,
            ),
        ),
{
    reveal(parse_ach_c2);
    reveal(ser_ach_c2);
    let t4 = ser_ach_c3(
        requirement,
        locked_text,
        achievement_type,
        flags,
        tiers,
        prerequisites,
        rewards,
        bits,
        point_cap,
    ) + rest;
    let t3 = ser_jstring(description) + t4;
    let t2 = key_lit("description"@) + t3;
    let t1 = ser_jstring(name) + t2;
    let s = ser_ach_c2(
        name,
        description,
        requirement,
        locked_text,
        achievement_type,
        flags,
        tiers,
        prerequisites,
        rewards,
        bits,
        point_cap,
    ) + rest;
    assert(s =~= key_lit("name"@) + t1);
    lemma_lit_round_trip(key_lit("name"@), t1);
    assert(parse_jstring(t1) == Some((name, t2))) by {
        lemma_jstring_round_trip(name, t2);
    }
    lemma_lit_round_trip(key_lit("description"@), t3);
    assert(parse_jstring(t3) == Some((description, t4))) by {
        lemma_jstring_round_trip(description, t4);
    }
    lemma_ach_c3_round_trip(
        requirement,
        locked_text,
        achievement_type,
        flags,
        tiers,
        prerequisites,
        rewards,
        bits,
        point_cap,
        rest,
    );
}

pub proof fn lemma_achievement_round_trip(m: AchievementModel, rest: Seq<u8>)
    ensures
        parse_achievement(ser_achievement(m) + rest) == Some((m, rest)),
{
    reveal(ser_ach_c2);
    reveal(parse_achievement);
    reveal(ser_achievement);
    let t3 = ser_ach_c2(
        m.name,
        m.description,
        m.requirement,
        m.locked_text,
        m.achievement_type,
        m.flags,
        m.tiers,
        m.prerequisites,
        m.rewards,
        m.bits,
        m.point_cap,
    ) + rest;
    let t2 = ser_opt(jstr_s(), m.icon) + t3;
    let tk = key_lit("icon"@) + t2;
    let t1 = dec_digits(m.id as u64) + tk;
    let s = ser_achievement(m) + rest;
    assert(s =~= first_key_lit("id"@) + t1);
    lemma_lit_round_trip(first_key_lit("id"@), t1);
    assert(tk[0] == 0x2cu8);
    lemma_u64_round_trip(m.id as u64, tk);
    lemma_lit_round_trip(key_lit("icon"@), t2);
    assert(t3[0] == 0x2cu8);
    assert(parse_opt(jstr_p(), t2) == Some((m.icon, t3))) by {
        lemma_jstr_good();
        lemma_opt_round_trip(jstr_p(), jstr_s(), m.icon, t3);
    }
    lemma_ach_c2_round_trip(
        m.name,
        m.description,
        m.requirement,
        m.locked_text,
        m.achievement_type,
        m.flags,
        m.tiers,
        m.prerequisites,
        m.rewards,
        m.bits,
        m.point_cap,
        rest,
    );
}

proof fn lemma_parse_ach_c7_len(s: Seq<u8>)
    requires
        parse_ach_c7(s) is Some,
    ensures
        rest_of(parse_ach_c7(s)).len() < s.len(),
{
    reveal(parse_ach_c7);
    let s1 = spec_lit(s, key_lit("point_cap"@))->0;
    assert(rest_of(parse_opt(i32_p(), s1)).len() < s1.len()) by {
        assert forall|t: Seq<u8>| (#[trigger] i32_p()(t)) is Some implies rest_of(
            i32_p()(t),
        ).len() < t.len() by {
            if t.len() > 0 && t[0] == 0x2d {
                lemma_parse_u64_len(t.drop_first());
            } else {
                lemma_parse_u64_len(t);
            }
        }
        lemma_opt_len(i32_p(), s1);
    }
}

proof fn lemma_parse_ach_c6_len(s: Seq<u8>)
    requires
        parse_ach_c6(s) is Some,
    ensures
        rest_of(parse_ach_c6(s)).len() < s.len(),
{
    reveal(parse_ach_c6);
    let s1 = spec_lit(s, key_lit("rewards"@))->0;
    assert(rest_of(parse_opt(arr_reward_p(), s1)).len() < s1.len()) by {
        assert forall|t: Seq<u8>| (#[trigger] arr_reward_p()(t)) is Some implies rest_of(
            arr_reward_p()(t),
        ).len() < t.len() by {
            lemma_parse_array_len(reward_p(), t);
        }
        lemma_opt_len(arr_reward_p(), s1);
    }
    let s2 = rest_of(parse_opt(arr_reward_p(), s1));
    let s3 = spec_lit(s2, key_lit("bits"@))->0;
    assert(rest_of(parse_opt(arr_bit_p(), s3)).len() < s3.len()) by {
        assert forall|t: Seq<u8>| (#[trigger] arr_bit_p()(t)) is Some implies rest_of(
            arr_bit_p()(t),
        ).len() < t.len() by {
            lemma_parse_array_len(bit_p(), t);
        }
        lemma_opt_len(arr_bit_p(), s3);
    }
    let s4 = rest_of(parse_opt(arr_bit_p(), s3));
    lemma_parse_ach_c7_len(s4);
}

proof fn lemma_parse_ach_c5_len(s: Seq<u8>)
    requires
        parse_ach_c5(s) is Some,
    ensures
        rest_of(parse_ach_c5(s)).len() < s.len(),
{
    reveal(parse_ach_c5);
    let s1 = spec_lit(s, key_lit("tiers"@))->0;
    lemma_parse_array_len(tier_p(), s1);
    let s2 = rest_of(parse_array(tier_p(), s1));
    let s3 = spec_lit(s2, key_lit("prerequisites"@))->0;
    assert(rest_of(parse_opt(arr_usize_p(), s3)).len() < s3.len()) by {
        assert forall|t: Seq<u8>| (#[trigger] arr_usize_p()(t)) is Some implies rest_of(
            arr_usize_p()(t),
        ).len() < t.len() by {
            lemma_parse_array_len(usize_p(), t);
        }
        lemma_opt_len(arr_usize_p(), s3);
    }
    let s4 = rest_of(parse_opt(arr_usize_p(), s3));
    lemma_parse_ach_c6_len(s4);
}

proof fn lemma_parse_ach_c4_len(s: Seq<u8>)
    requires
        parse_ach_c4(s) is Some,
    ensures
        rest_of(parse_ach_c4(s)).len() < s.len(),
{
    reveal(parse_ach_c4);
    let s1 = spec_lit(s, key_lit("achievement_type"@))->0;
    lemma_parse_jstring_len(s1);
    let s2 = rest_of(parse_jstring(s1));
    let s3 = spec_lit(s2, key_lit("flags"@))->0;
    lemma_parse_array_len(jstr_p(), s3);
    let s4 = rest_of(parse_array(jstr_p(), s3));
    lemma_parse_ach_c5_len(s4);
}

proof fn lemma_parse_ach_c3_len(s: Seq<u8>)
    requires
        parse_ach_c3(s) is Some,
    ensures
        rest_of(parse_ach_c3(s)).len() < s.len(),
{
    reveal(parse_ach_c3);
    let s1 = spec_lit(s, key_lit("requirement"@))->0;
    lemma_parse_jstring_len(s1);
    let s2 = rest_of(parse_jstring(s1));
    let s3 = spec_lit(s2, key_lit("locked_text"@))->0;
    lemma_parse_jstring_len(s3);
    let s4 = rest_of(parse_jstring(s3));
    lemma_parse_ach_c4_len(s4);
}

proof fn lemma_parse_ach_c2_len(s: Seq<u8>)
    requires
        parse_ach_c2(s) is Some,
    ensures
        rest_of(parse_ach_c2(s)).len() < s.len(),
{
    reveal(parse_ach_c2);
    let s1 = spec_lit(s, key_lit("name"@))->0;
    lemma_parse_jstring_len(s1);
    let s2 = rest_of(parse_jstring(s1));
    let s3 = spec_lit(s2, key_lit("description"@))->0;
    lemma_parse_jstring_len(s3);
    let s4 = rest_of(parse_jstring(s3));
    lemma_parse_ach_c3_len(s4);
}

pub proof fn lemma_parse_achievement_len(s: Seq<u8>)
    requires
        parse_achievement(s) is Some,
    ensures
        rest_of(parse_achievement(s)).len() < s.len(),
{
    reveal(parse_achievement);
    let s1 = spec_lit(s, first_key_lit("id"@))->0;
    lemma_parse_u64_len(s1);
    let s2 = rest_of(parse_usize(s1));
    let s3 = spec_lit(s2, key_lit("icon"@))->0;
    assert(rest_of(parse_opt(jstr_p(), s3)).len() < s3.len()) by {
        assert forall|t: Seq<u8>| (#[trigger] jstr_p()(t)) is Some implies rest_of(
            jstr_p()(t),
        ).len() < t.len() by {
            lemma_parse_jstring_len(t);
        }
        lemma_opt_len(jstr_p(), s3);
    }
    let s4 = rest_of(parse_opt(jstr_p(), s3));
    lemma_parse_ach_c2_len(s4);
}

pub proof fn lemma_ach_good()
    ensures
        good_parser(ach_p(), ach_s()),
{
    assert forall|m: AchievementModel, rest: Seq<u8>| value_delim(rest) implies #[trigger] ach_p()(
        ach_s()(m) + rest,
    ) == Some((m, rest)) by {
        lemma_achievement_round_trip(m, rest);
    }
    assert forall|m: AchievementModel| (#[trigger] ach_s()(m)).len() > 0 && ach_s()(m)[0] != 0x6e
        && ach_s()(m)[0] != 0x5d by {
        reveal(ser_achievement);
        assert(ach_s()(m)[0] == 0x7bu8);
    }
    assert forall|s: Seq<u8>| (#[trigger] ach_p()(s)) is Some implies rest_of(ach_p()(s)).len()
        < s.len() by {
        lemma_parse_achievement_len(s);
    }
}

// ---------------------------------------------------------------------------
// The achievements map: an object keyed by the achievement id
// ---------------------------------------------------------------------------

/// One `"id":{...}` pair; the key must agree with the id stored inside.
#[verifier::opaque]
pub open spec fn ser_ach_entry(c: CachedItem<AchievementModel>) -> Seq<u8> {
    seq![0x22u8] + (dec_digits(c.inner.id as u64) + (seq![0x22u8, 0x3au8] + ser_cached(
        ach_s(),
        c,
    )))
}

#[verifier::opaque]
pub open spec fn parse_ach_entry(s: Seq<u8>) -> Option<(CachedItem<AchievementModel>, Seq<u8>)> {
    if s.len() > 0 && s[0] == 0x22 {
        match parse_u64(s.drop_first()) {
            None => None,
            Some((k, s2)) => if s2.len() >= 2 && s2[0] == 0x22 && s2[1] == 0x3a {
                match parse_cached(ach_p(), s2.skip(2)) {
                    None => None,
                    Some((c, s3)) => if k <= usize::MAX as u64 && c.inner.id == k as usize {
                        Some((c, s3))
                    } else {
                        None
                    },
                }
            } else {
                None
            },
        }
    } else {
        None
    }
}

pub proof fn lemma_ach_entry_round_trip(c: CachedItem<AchievementModel>, rest: Seq<u8>)
    ensures
        parse_ach_entry(ser_ach_entry(c) + rest) == Some((c, rest)),
{
    reveal(parse_ach_entry);
    reveal(ser_ach_entry);
    let t3 = ser_cached(ach_s(), c) + rest;
    let t2 = seq![0x22u8, 0x3au8] + t3;
    let t1 = dec_digits(c.inner.id as u64) + t2;
    let s = ser_ach_entry(c) + rest;
    assert(s =~= seq![0x22u8] + t1);
    assert(s[0] == 0x22u8);
    assert(s.drop_first() =~= t1);
    assert(t2[0] == 0x22u8);
    lemma_u64_round_trip(c.inner.id as u64, t2);
    assert(t2[1] == 0x3au8);
    assert(t2.skip(2) =~= t3);
    assert(parse_cached(ach_p(), t3) == Some((c, rest))) by {
        lemma_ach_good();
        lemma_cached_round_trip(ach_p(), ach_s(), c, rest);
    }
}

pub proof fn lemma_parse_ach_entry_len(s: Seq<u8>)
    requires
        parse_ach_entry(s) is Some,
    ensures
        rest_of(parse_ach_entry(s)).len() < s.len(),
{
    reveal(parse_ach_entry);
    lemma_parse_u64_len(s.drop_first());
    let s2 = rest_of(parse_u64(s.drop_first()));
    assert(rest_of(parse_cached(ach_p(), s2.skip(2))).len() < s2.skip(2).len()) by {
        assert forall|t: Seq<u8>| (#[trigger] ach_p()(t)) is Some implies rest_of(
            ach_p()(t),
        ).len() < t.len() by {
            lemma_parse_achievement_len(t);
        }
        lemma_parse_cached_len(ach_p(), s2.skip(2));
    }
}

pub proof fn lemma_ser_ach_entry_first(c: CachedItem<AchievementModel>)
    ensures
        ser_ach_entry(c).len() > 0,
        ser_ach_entry(c)[0] == 0x22u8,
{
    reveal(ser_ach_entry);
}

/// The entries of a non-empty map, read up to and including the closing
/// brace; the same shape as array elements.
pub open spec fn parse_ach_entries(s: Seq<u8>) -> Option<
    (Seq<CachedItem<AchievementModel>>, Seq<u8>),
>
    decreases s.len(),
{
    match parse_ach_entry(s) {
        None => None,
        Some((c, s2)) => if s2.len() >= s.len() {
            None
        } else if s2.len() > 0 && s2[0] == 0x2c {
            match parse_ach_entries(s2.drop_first()) {
                Some((cs, s3)) => Some((seq![c] + cs, s3)),
                None => None,
            }
        } else if s2.len() > 0 && s2[0] == 0x7d {
            Some((seq![c], s2.drop_first()))
        } else {
            None
        },
    }
}

pub open spec fn parse_ach_map(s: Seq<u8>) -> Option<
    (Seq<CachedItem<AchievementModel>>, Seq<u8>),
> {
    if s.len() >= 2 && s[0] == 0x7b && s[1] == 0x7d {
        Some((Seq::empty(), s.skip(2)))
    } else if s.len() > 0 && s[0] == 0x7b {
        parse_ach_entries(s.drop_first())
    } else {
        None
    }
}

pub open spec fn ser_ach_entries(cs: Seq<CachedItem<AchievementModel>>) -> Seq<u8>
    decreases cs.len(),
{
    if cs.len() == 0 {
        Seq::empty()
    } else if cs.len() == 1 {
        ser_ach_entry(cs[0])
    } else {
        ser_ach_entry(cs[0]) + seq![0x2cu8] + ser_ach_entries(cs.drop_first())
    }
}

pub open spec fn ser_ach_map(cs: Seq<CachedItem<AchievementModel>>) -> Seq<u8> {
    if cs.len() == 0 {
        seq![0x7bu8, 0x7du8]
    } else {
        seq![0x7bu8] + ser_ach_entries(cs) + seq![0x7du8]
    }
}

/// Appending one entry to a run of serialized entries.
pub proof fn lemma_ser_ach_entries_snoc(cs: Seq<CachedItem<AchievementModel>>, x: CachedItem<AchievementModel>)
    ensures
        cs.len() == 0 ==> ser_ach_entries(cs.push(x)) == ser_ach_entry(x),
        cs.len() > 0 ==> ser_ach_entries(cs.push(x)) == ser_ach_entries(cs) + seq![0x2cu8]
            + ser_ach_entry(x),
    decreases cs.len(),
{
    if cs.len() == 0 {
        assert(cs.push(x).len() == 1);
        assert(cs.push(x)[0] == x);
    } else {
        lemma_ser_ach_entries_snoc(cs.drop_first(), x);
        assert(cs.push(x)[0] == cs[0]);
        assert(cs.push(x).drop_first() =~= cs.drop_first().push(x));
        if cs.len() == 1 {
            assert(cs.push(x).len() == 2);
            assert(ser_ach_entries(cs.push(x)) == ser_ach_entry(cs[0]) + seq![0x2cu8]
                + ser_ach_entries(cs.drop_first().push(x)));
            assert(ser_ach_entries(cs.drop_first().push(x)) == ser_ach_entry(x));
            assert(ser_ach_entries(cs) == ser_ach_entry(cs[0]));
        } else {
            assert(ser_ach_entry(cs[0]) + seq![0x2cu8] + (ser_ach_entries(cs.drop_first())
                + seq![0x2cu8] + ser_ach_entry(x)) =~= (ser_ach_entry(cs[0]) + seq![0x2cu8]
                + ser_ach_entries(cs.drop_first())) + seq![0x2cu8] + ser_ach_entry(x));
        }
    }
}

proof fn lemma_ach_entries_round_trip(cs: Seq<CachedItem<AchievementModel>>, rest: Seq<u8>)
    requires
        cs.len() > 0,
    ensures
        parse_ach_entries(ser_ach_entries(cs) + seq![0x7du8] + rest) == Some((cs, rest)),
    decreases cs.len(),
{
    let s = ser_ach_entries(cs) + seq![0x7du8] + rest;
    lemma_ser_ach_entry_first(cs[0]);
    if cs.len() == 1 {
        let tail = seq![0x7du8] + rest;
        assert(s =~= ser_ach_entry(cs[0]) + tail);
        lemma_ach_entry_round_trip(cs[0], tail);
        assert(tail.len() < s.len());
        assert(tail[0] == 0x7du8);
        assert(tail.drop_first() =~= rest);
        assert(seq![cs[0]] =~= cs);
    } else {
        let tail = seq![0x2cu8] + (ser_ach_entries(cs.drop_first()) + seq![0x7du8] + rest);
        assert(s =~= ser_ach_entry(cs[0]) + tail);
        lemma_ach_entry_round_trip(cs[0], tail);
        assert(tail.len() < s.len());
        assert(tail[0] == 0x2cu8);
        assert(tail.drop_first() =~= ser_ach_entries(cs.drop_first()) + seq![0x7du8] + rest);
        lemma_ach_entries_round_trip(cs.drop_first(), rest);
        assert(seq![cs[0]] + cs.drop_first() =~= cs);
    }
}

proof fn lemma_ser_ach_entries_first(cs: Seq<CachedItem<AchievementModel>>)
    requires
        cs.len() > 0,
    ensures
        ser_ach_entries(cs).len() > 0,
        ser_ach_entries(cs)[0] == 0x22u8,
{
    lemma_ser_ach_entry_first(cs[0]);
    if cs.len() == 1 {
    } else {
        assert((ser_ach_entry(cs[0]) + seq![0x2cu8] + ser_ach_entries(cs.drop_first()))[0]
            == ser_ach_entry(cs[0])[0]);
    }
}

pub proof fn lemma_ach_map_round_trip(cs: Seq<CachedItem<AchievementModel>>, rest: Seq<u8>)
    ensures
        parse_ach_map(ser_ach_map(cs) + rest) == Some((cs, rest)),
{
    let s = ser_ach_map(cs) + rest;
    if cs.len() == 0 {
        assert(s[0] == 0x7bu8 && s[1] == 0x7du8);
        assert(s.skip(2) =~= rest);
    } else {
        lemma_ser_ach_entries_first(cs);
        assert(s[0] == 0x7bu8);
        assert(s[1] == ser_ach_entries(cs)[0]);
        assert(s[1] != 0x7du8);
        assert(s.drop_first() =~= ser_ach_entries(cs) + seq![0x7du8] + rest);
        lemma_ach_entries_round_trip(cs, rest);
    }
}

proof fn lemma_parse_ach_entries_len(s: Seq<u8>)
    requires
        parse_ach_entries(s) is Some,
    ensures
        rest_of(parse_ach_entries(s)).len() < s.len(),
    decreases s.len(),
{
    let (c, s2) = parse_ach_entry(s)->0;
    if s2.len() > 0 && s2[0] == 0x2c {
        lemma_parse_ach_entries_len(s2.drop_first());
    }
}

pub proof fn lemma_parse_ach_map_len(s: Seq<u8>)
    requires
        parse_ach_map(s) is Some,
    ensures
        rest_of(parse_ach_map(s)).len() < s.len(),
{
    if !(s.len() >= 2 && s[0] == 0x7b && s[1] == 0x7d) {
        lemma_parse_ach_entries_len(s.drop_first());
    }
}

// ---------------------------------------------------------------------------
// The whole cache document
// ---------------------------------------------------------------------------

/// The mathematical content of the cache store: one slot per resource kind.
pub struct StoreModel {
    pub all_achievement_ids: Option<CachedItem<Seq<usize>>>,
    pub achievements: Seq<CachedItem<AchievementModel>>,
    pub account_achievements: Option<CachedItem<Seq<AccountAchievementModel>>>,
    pub dailies: Option<CachedItem<DailiesModel>>,
}

pub open spec fn cached_ids_p() -> spec_fn(Seq<u8>) -> Option<
    (CachedItem<Seq<usize>>, Seq<u8>),
> {
    |s: Seq<u8>| parse_cached(arr_usize_p(), s)
}

pub open spec fn cached_ids_s() -> spec_fn(CachedItem<Seq<usize>>) -> Seq<u8> {
    |c: CachedItem<Seq<usize>>| ser_cached(arr_usize_s(), c)
}

pub open spec fn cached_accts_p() -> spec_fn(Seq<u8>) -> Option<
    (CachedItem<Seq<AccountAchievementModel>>, Seq<u8>),
> {
    |s: Seq<u8>| parse_cached(arr_acct_p(), s)
}

pub open spec fn cached_accts_s() -> spec_fn(CachedItem<Seq<AccountAchievementModel>>) -> Seq<
    u8,
> {
    |c: CachedItem<Seq<AccountAchievementModel>>| ser_cached(arr_acct_s(), c)
}

pub open spec fn cached_dailies_p() -> spec_fn(Seq<u8>) -> Option<
    (CachedItem<DailiesModel>, Seq<u8>),
> {
    |s: Seq<u8>| parse_cached(dailies_p(), s)
}

pub open spec fn cached_dailies_s() -> spec_fn(CachedItem<DailiesModel>) -> Seq<u8> {
    |c: CachedItem<DailiesModel>| ser_cached(dailies_s(), c)
}

pub proof fn lemma_cached_ids_good()
    ensures
        good_parser(cached_ids_p(), cached_ids_s()),
{
    assert forall|c: CachedItem<Seq<usize>>, rest: Seq<u8>| value_delim(rest)
        implies #[trigger] cached_ids_p()(cached_ids_s()(c) + rest) == Some((c, rest)) by {
        lemma_arr_usize_good();
        lemma_cached_round_trip(arr_usize_p(), arr_usize_s(), c, rest);
    }
    assert forall|c: CachedItem<Seq<usize>>| (#[trigger] cached_ids_s()(c)).len() > 0
        && cached_ids_s()(c)[0] != 0x6e && cached_ids_s()(c)[0] != 0x5d by {
        assert(cached_ids_s()(c)[0] == 0x7bu8);
    }
    assert forall|s: Seq<u8>| (#[trigger] cached_ids_p()(s)) is Some implies rest_of(
        cached_ids_p()(s),
    ).len() < s.len() by {
        assert forall|t: Seq<u8>| (#[trigger] arr_usize_p()(t)) is Some implies rest_of(
            arr_usize_p()(t),
        ).len() < t.len() by {
            lemma_parse_array_len(usize_p(), t);
        }
        lemma_parse_cached_len(arr_usize_p(), s);
    }
}

pub proof fn lemma_cached_accts_good()
    ensures
        good_parser(cached_accts_p(), cached_accts_s()),
{
    assert forall|c: CachedItem<Seq<AccountAchievementModel>>, rest: Seq<u8>| value_delim(rest)
        implies #[trigger] cached_accts_p()(cached_accts_s()(c) + rest) == Some((c, rest)) by {
        lemma_arr_acct_good();
        lemma_cached_round_trip(arr_acct_p(), arr_acct_s(), c, rest);
    }
    assert forall|c: CachedItem<Seq<AccountAchievementModel>>| (#[trigger] cached_accts_s()(
        c,
    )).len() > 0 && cached_accts_s()(c)[0] != 0x6e && cached_accts_s()(c)[0] != 0x5d by {
        assert(cached_accts_s()(c)[0] == 0x7bu8);
    }
    assert forall|s: Seq<u8>| (#[trigger] cached_accts_p()(s)) is Some implies rest_of(
        cached_accts_p()(s),
    ).len() < s.len() by {
        assert forall|t: Seq<u8>| (#[trigger] arr_acct_p()(t)) is Some implies rest_of(
            arr_acct_p()(t),
        ).len() < t.len() by {
            lemma_parse_array_len(acct_p(), t);
        }
        lemma_parse_cached_len(arr_acct_p(), s);
    }
}

pub proof fn lemma_cached_dailies_good()
    ensures
        good_parser(cached_dailies_p(), cached_dailies_s()),
{
    assert forall|c: CachedItem<DailiesModel>, rest: Seq<u8>| value_delim(rest)
        implies #[trigger] cached_dailies_p()(cached_dailies_s()(c) + rest) == Some((c, rest)) by {
        lemma_dailies_good();
        lemma_cached_round_trip(dailies_p(), dailies_s(), c, rest);
    }
    assert forall|c: CachedItem<DailiesModel>| (#[trigger] cached_dailies_s()(c)).len() > 0
        && cached_dailies_s()(c)[0] != 0x6e && cached_dailies_s()(c)[0] != 0x5d by {
        assert(cached_dailies_s()(c)[0] == 0x7bu8);
    }
    assert forall|s: Seq<u8>| (#[trigger] cached_dailies_p()(s)) is Some implies rest_of(
        cached_dailies_p()(s),
    ).len() < s.len() by {
        assert forall|t: Seq<u8>| (#[trigger] dailies_p()(t)) is Some implies rest_of(
            dailies_p()(t),
        ).len() < t.len() by {
            lemma_parse_dailies_len(t);
        }
        lemma_parse_cached_len(dailies_p(), s);
    }
}

#[verifier::opaque]
pub open spec fn ser_store_rest(
    account_achievements: Option<CachedItem<Seq<AccountAchievementModel>>>,
    dailies: Option<CachedItem<DailiesModel>>,
) -> Seq<u8> {
    key_lit("account_achievements"@) + (ser_opt(cached_accts_s(), account_achievements) + (key_lit(
        "dailies"@,
    ) + (ser_opt(cached_dailies_s(), dailies) + seq![0x7du8])))
}

#[verifier::opaque]
pub open spec fn parse_store_rest(s: Seq<u8>) -> Option<
    (
        (Option<CachedItem<Seq<AccountAchievementModel>>>, Option<CachedItem<DailiesModel>>),
        Seq<u8>,
    ),
> {
    match spec_lit(s, key_lit("account_achievements"@)) {
        None => None,
        Some(s1) => match parse_opt(cached_accts_p(), s1) {
            None => None,
            Some((account_achievements, s2)) => match spec_lit(s2, key_lit("dailies"@)) {
                None => None,
                Some(s3) => match parse_opt(cached_dailies_p(), s3) {
                    None => None,
                    Some((dailies, s4)) => if s4.len() > 0 && s4[0] == 0x7d {
                        Some(((account_achievements, dailies), s4.drop_first()))
                    } else {
                        None
                    },
                },
            },
        },
    }
}

#[verifier::opaque]
pub open spec fn ser_store(m: StoreModel) -> Seq<u8> {
    first_key_lit("all_achievements_ids"@) + (ser_opt(cached_ids_s(), m.all_achievement_ids) + (
    key_lit("achievements"@) + (ser_ach_map(m.achievements) + ser_store_rest(
        m.account_achievements,
        m.dailies,
    ))))
}

#[verifier::opaque]
pub open spec fn parse_store(s: Seq<u8>) -> Option<(StoreModel, Seq<u8>)> {
    match spec_lit(s, first_key_lit("all_achievements_ids"@)) {
        None => None,
        Some(s1) => match parse_opt(cached_ids_p(), s1) {
            None => None,
            Some((all_achievement_ids, s2)) => match spec_lit(s2, key_lit("achievements"@)) {
                None => None,
                Some(s3) => match parse_ach_map(s3) {
                    None => None,
                    Some((achievements, s4)) => match parse_store_rest(s4) {
                        None => None,
                        Some(((account_achievements, dailies), s5)) => Some(
                            (
                                StoreModel {
                                    all_achievement_ids,
                                    achievements,
                                    account_achievements,
                                    dailies,
                                },
                                s5,
                            ),
                        ),
                    },
                },
            },
        },
    }
}

proof fn lemma_store_rest_round_trip(
    account_achievements: Option<CachedItem<Seq<AccountAchievementModel>>>,
    dailies: Option<CachedItem<DailiesModel>>,
    rest: Seq<u8>,
)
    ensures
        parse_store_rest(ser_store_rest(account_achievements, dailies) + rest) == Some(
            ((account_achievements, dailies), rest),
        ),
{
    reveal(parse_store_rest);
    reveal(ser_store_rest);
    let t4 = seq![0x7du8] + rest;
    let t3 = ser_opt(cached_dailies_s(), dailies) + t4;
    let t2 = key_lit("dailies"@) + t3;
    let t1 = ser_opt(cached_accts_s(), account_achievements) + t2;
    let s = ser_store_rest(account_achievements, dailies) + rest;
    assert(s =~= key_lit("account_achievements"@) + t1);
    lemma_lit_round_trip(key_lit("account_achievements"@), t1);
    assert(t2[0] == 0x2cu8);
    assert(parse_opt(cached_accts_p(), t1) == Some((account_achievements, t2))) by {
        lemma_cached_accts_good();
        lemma_opt_round_trip(cached_accts_p(), cached_accts_s(), account_achievements, t2);
    }
    lemma_lit_round_trip(key_lit("dailies"@), t3);
    assert(t4[0] == 0x7du8);
    assert(parse_opt(cached_dailies_p(), t3) == Some((dailies, t4))) by {
        lemma_cached_dailies_good();
        lemma_opt_round_trip(cached_dailies_p(), cached_dailies_s(), dailies, t4);
    }
    assert(t4.drop_first() =~= rest);
}

/// Round trip for the whole document: whatever store is written out is read
/// back unchanged.
pub proof fn lemma_store_round_trip(m: StoreModel, rest: Seq<u8>)
    ensures
        parse_store(ser_store(m) + rest) == Some((m, rest)),
{
    reveal(parse_store);
    reveal(ser_store);
    reveal(ser_store_rest);
    let t3 = ser_store_rest(m.account_achievements, m.dailies) + rest;
    let t2 = ser_ach_map(m.achievements) + t3;
    let tk = key_lit("achievements"@) + t2;
    let t1 = ser_opt(cached_ids_s(), m.all_achievement_ids) + tk;
    let s = ser_store(m) + rest;
    assert(s =~= first_key_lit("all_achievements_ids"@) + t1);
    lemma_lit_round_trip(first_key_lit("all_achievements_ids"@), t1);
    assert(tk[0] == 0x2cu8);
    assert(parse_opt(cached_ids_p(), t1) == Some((m.all_achievement_ids, tk))) by {
        lemma_cached_ids_good();
        lemma_opt_round_trip(cached_ids_p(), cached_ids_s(), m.all_achievement_ids, tk);
    }
    lemma_lit_round_trip(key_lit("achievements"@), t2);
    lemma_ach_map_round_trip(m.achievements, t3);
    lemma_store_rest_round_trip(m.account_achievements, m.dailies, rest);
}

} // verus!
