//! Executable parsing: each scanner implements the corresponding `parse_*`
//! spec function, reading at a position in a byte buffer and returning the
//! value together with the position after it.

use vstd::prelude::*;

use crate::api::AccessCondition;
use crate::api::AccountAchievement;
use crate::api::AllAccountAchievements;
use crate::api::AllAchievementIDs;
use crate::api::Achievement;
use crate::api::AchievementBit;
use crate::api::AchievementModel;
use crate::api::AchievementTier;
use crate::api::Dailies;
use crate::api::Daily;
use crate::api::LevelRange;
use crate::api::Product;
use crate::api::RequiredAccess;
use crate::api::Reward;
use crate::api::RewardModel;
use crate::api::AchievementBitModel;
use crate::api::AccountAchievementModel;
use crate::cache::CachedItem;
use crate::codec::acct_p;
use crate::codec::arr_acct_p;
use crate::codec::arr_usize_p;
use crate::codec::ach_p;
use crate::codec::bit_p;
use crate::codec::bool_p;
use crate::codec::daily_p;
use crate::codec::dailies_p;
use crate::codec::i32_p;
use crate::codec::jstr_p;
use crate::codec::lemma_parse_account_len;
use crate::codec::lemma_parse_ach_entry_len;
use crate::codec::lemma_parse_achievement_len;
use crate::codec::lemma_parse_bit_len;
use crate::codec::lemma_parse_daily_len;
use crate::codec::lemma_parse_reward_len;
use crate::codec::lemma_parse_tier_len;
use crate::codec::parse_access;
use crate::codec::parse_account;
use crate::codec::parse_acct_rest2;
use crate::codec::parse_acct_rest3;
use crate::codec::parse_ach_c2;
use crate::codec::parse_ach_c3;
use crate::codec::parse_ach_c4;
use crate::codec::parse_ach_c5;
use crate::codec::parse_ach_c6;
use crate::codec::parse_ach_c7;
use crate::codec::parse_ach_entries;
use crate::codec::parse_ach_entry;
use crate::codec::parse_bit;
use crate::codec::parse_ach_map;
use crate::codec::parse_achievement;
use crate::codec::parse_daily;
use crate::codec::parse_dailies;
use crate::codec::parse_dailies_rest1;
use crate::codec::parse_dailies_rest2;
use crate::codec::parse_dailies_rest3;
use crate::codec::parse_dailies_rest4;
use crate::codec::parse_i32;
use crate::codec::parse_level_range;
use crate::codec::parse_product;
use crate::codec::parse_required_access;
use crate::codec::parse_reward;
use crate::codec::parse_reward_coins;
use crate::codec::parse_reward_item;
use crate::codec::parse_reward_mastery;
use crate::codec::parse_reward_title;
use crate::codec::parse_store;
use crate::codec::parse_store_rest;
use crate::codec::parse_tier;
use crate::codec::parse_usize;
use crate::codec::reward_p;
use crate::codec::tag_lit;
use crate::codec::tier_p;
use crate::codec::usize_p;
use crate::combinators::lemma_parse_jstring_len;
use crate::combinators::parse_array;
use crate::combinators::parse_cached;
use crate::combinators::parse_elems;
use crate::combinators::parse_opt;
use crate::combinators::prepend_vals;
use crate::combinators::rest_of;
use crate::combinators::scan_null;
use crate::json::spec_lit;
use crate::json::lit_bytes;
use crate::json::scan_bool;
use crate::json::scan_first_key;
use crate::json::scan_jstring;
use crate::json::scan_key;
use crate::json::scan_u64;

verus! {

pub proof fn lemma_parse_usize_len(s: Seq<u8>)
    requires
        parse_usize(s) is Some,
    ensures
        rest_of(parse_usize(s)).len() < s.len(),
{
    crate::combinators::lemma_parse_u64_len(s);
}

/// Scan a decimal number that must fit in `usize`.
pub fn scan_usize(s: &Vec<u8>, i: usize) -> (r: Option<(usize, usize)>)
    requires
        i <= s.len(),
    ensures
        match r {
            Some((v, j)) => {
                &&& i <= j <= s.len()
                &&& parse_usize(s@.skip(i as int)) == Some((v, s@.skip(j as int)))
            },
            None => parse_usize(s@.skip(i as int)) is None,
        },
{
    match scan_u64(s, i) {
        None => None,
        Some((n, j)) => if n <= usize::MAX as u64 {
            Some((n as usize, j))
        } else {
            None
        },
    }
}

pub fn scan_i32(s: &Vec<u8>, i: usize) -> (r: Option<(i32, usize)>)
    requires
        i <= s.len(),
    ensures
        match r {
            Some((v, j)) => {
                &&& i <= j <= s.len()
                &&& parse_i32(s@.skip(i as int)) == Some((v, s@.skip(j as int)))
            },
            None => parse_i32(s@.skip(i as int)) is None,
        },
{
    if i < s.len() && s[i] == 0x2d {
        assert(s@.skip(i as int)[0] == s@[i as int]);
        assert(s@.skip(i as int).drop_first() =~= s@.skip(i + 1));
        match scan_u64(s, i + 1) {
            None => None,
            Some((n, j)) => if 0 < n && n <= 0x8000_0000u64 {
                let v: i32 = (-((n as i64))) as i32;
                assert(v == (-(n as int)) as i32);
                Some((v, j))
            } else {
                None
            },
        }
    } else {
        if i < s.len() {
            assert(s@.skip(i as int)[0] == s@[i as int]);
        }
        match scan_u64(s, i) {
            None => None,
            Some((n, j)) => if n <= 0x7fff_ffffu64 {
                Some((n as i32, j))
            } else {
                None
            },
        }
    }
}

fn scan_opt_string(s: &Vec<u8>, i: usize) -> (r: Option<(Option<String>, usize)>)
    requires
        i <= s.len(),
    ensures
        match r {
            Some((v, j)) => {
                &&& i <= j <= s.len()
                &&& parse_opt(jstr_p(), s@.skip(i as int)) == Some(
                    (v.deep_view(), s@.skip(j as int)),
                )
            },
            None => parse_opt(jstr_p(), s@.skip(i as int)) is None,
        },
{
    match scan_null(s, i) {
        Some(j) => Some((None, j)),
        None => match scan_jstring(s, i) {
            Some((st, j)) => Some((Some(st), j)),
            None => None,
        },
    }
}

fn scan_opt_usize(s: &Vec<u8>, i: usize) -> (r: Option<(Option<usize>, usize)>)
    requires
        i <= s.len(),
    ensures
        match r {
            Some((v, j)) => {
                &&& i <= j <= s.len()
                &&& parse_opt(usize_p(), s@.skip(i as int)) == Some((v, s@.skip(j as int)))
            },
            None => parse_opt(usize_p(), s@.skip(i as int)) is None,
        },
{
    match scan_null(s, i) {
        Some(j) => Some((None, j)),
        None => match scan_usize(s, i) {
            Some((v, j)) => Some((Some(v), j)),
            None => None,
        },
    }
}

fn scan_opt_bool(s: &Vec<u8>, i: usize) -> (r: Option<(Option<bool>, usize)>)
    requires
        i <= s.len(),
    ensures
        match r {
            Some((v, j)) => {
                &&& i <= j <= s.len()
                &&& parse_opt(bool_p(), s@.skip(i as int)) == Some((v, s@.skip(j as int)))
            },
            None => parse_opt(bool_p(), s@.skip(i as int)) is None,
        },
{
    match scan_null(s, i) {
        Some(j) => Some((None, j)),
        None => match scan_bool(s, i) {
            Some((v, j)) => Some((Some(v), j)),
            None => None,
        },
    }
}

fn scan_opt_i32(s: &Vec<u8>, i: usize) -> (r: Option<(Option<i32>, usize)>)
    requires
        i <= s.len(),
    ensures
        match r {
            Some((v, j)) => {
                &&& i <= j <= s.len()
                &&& parse_opt(i32_p(), s@.skip(i as int)) == Some((v, s@.skip(j as int)))
            },
            None => parse_opt(i32_p(), s@.skip(i as int)) is None,
        },
{
    match scan_null(s, i) {
        Some(j) => Some((None, j)),
        None => match scan_i32(s, i) {
            Some((v, j)) => Some((Some(v), j)),
            None => None,
        },
    }
}

/// Scan a closing brace.
fn scan_rbrace(s: &Vec<u8>, i: usize) -> (r: Option<usize>)
    requires
        i <= s.len(),
    ensures
        match r {
            Some(j) => {
                &&& i <= j <= s.len()
                &&& s@.skip(i as int).len() > 0
                &&& s@.skip(i as int)[0] == 0x7d
                &&& s@.skip(i as int).drop_first() == s@.skip(j as int)
            },
            None => s@.skip(i as int).len() == 0 || s@.skip(i as int)[0] != 0x7d,
        },
{
    if i < s.len() && s[i] == 0x7d {
        assert(s@.skip(i as int)[0] == s@[i as int]);
        assert(s@.skip(i as int).drop_first() =~= s@.skip(i + 1));
        Some(i + 1)
    } else {
        if i < s.len() {
            assert(s@.skip(i as int)[0] == s@[i as int]);
        }
        None
    }
}

/// Scan a quoted fixed name, as serde writes an enum tag.
#[verifier::loop_isolation(false)]
pub(crate) fn scan_tag(s: &Vec<u8>, i: usize, name: &str) -> (r: Option<usize>)
    requires
        i <= s.len(),
    ensures
        match r {
            Some(j) => {
                &&& i <= j <= s.len()
                &&& spec_lit(s@.skip(i as int), tag_lit(name@)) == Some(s@.skip(j as int))
            },
            None => spec_lit(s@.skip(i as int), tag_lit(name@)) is None,
        },
{
    proof {
        reveal(lit_bytes);
    }
    let ghost tl = tag_lit(name@);
    let nb = name.as_bytes();
    let n = nb.len();
    proof {
        assert(nb@ == lit_bytes(name@));
        assert(tl.len() == n + 2);
        assert(tl[0] == 0x22u8);
        assert(forall|m: int| 0 <= m < n ==> tl[1 + m] == nb@[m]);
        assert(tl[n + 1] == 0x22u8);
    }
    if s.len() - i < 2 || n > s.len() - i - 2 {
        assert(spec_lit(s@.skip(i as int), tl) is None);
        return None;
    }
    let ghost suf = s@.skip(i as int);
    proof {
        assert(forall|m: int| 0 <= m < suf.len() ==> suf[m] == s@[i + m]);
    }
    if s[i] != 0x22 {
        assert(spec_lit(suf, tl) is None) by {
            if spec_lit(suf, tl) is Some {
                assert(suf.take(tl.len() as int)[0] == tl[0]);
            }
        }
        return None;
    }
    let mut k: usize = 0;
    while k < n
        invariant
            0 <= k <= n,
            i + n + 2 <= s.len(),
            forall|m: int| 0 <= m < k ==> s@[i + 1 + m] == nb@[m],
        decreases n - k,
    {
        if s[i + 1 + k] != nb[k] {
            assert(spec_lit(suf, tl) is None) by {
                if spec_lit(suf, tl) is Some {
                    assert(suf.take(tl.len() as int)[1 + k] == tl[1 + k]);
                    assert(suf[1 + k] == s@[i + 1 + k]);
                }
            }
            return None;
        }
        k += 1;
    }
    if s[i + 1 + n] != 0x22 {
        assert(spec_lit(suf, tl) is None) by {
            if spec_lit(suf, tl) is Some {
                assert(suf.take(tl.len() as int)[n + 1] == tl[n + 1]);
                assert(suf[n + 1] == s@[i + 1 + n]);
            }
        }
        return None;
    }
    proof {
        assert(suf.take(tl.len() as int) =~= tl) by {
            assert(forall|m: int| 0 <= m < n ==> #[trigger] suf[1 + m] == s@[i + 1 + m]);
        }
        assert(suf.skip(tl.len() as int) =~= s@.skip(i + n + 2));
    }
    Some(i + n + 2)
}

pub fn scan_tier(s: &Vec<u8>, i: usize) -> (r: Option<(AchievementTier, usize)>)
    requires
        i <= s.len(),
    ensures
        match r {
            Some((v, j)) => {
                &&& i <= j <= s.len()
                &&& parse_tier(s@.skip(i as int)) == Some((v, s@.skip(j as int)))
            },
            None => parse_tier(s@.skip(i as int)) is None,
        },
{
    proof {
        reveal(parse_tier);
    }
    let j1 = match scan_first_key(s, i, "count") {
        Some(j) => j,
        None => {
            return None;
        },
    };
    let (count, j2) = match scan_usize(s, j1) {
        Some(x) => x,
        None => {
            return None;
        },
    };
    let j3 = match scan_key(s, j2, "points") {
        Some(j) => j,
        None => {
            return None;
        },
    };
    let (points, j4) = match scan_usize(s, j3) {
        Some(x) => x,
        None => {
            return None;
        },
    };
    let j5 = match scan_rbrace(s, j4) {
        Some(j) => j,
        None => {
            return None;
        },
    };
    Some((AchievementTier { count, points }, j5))
}

pub fn scan_level_range(s: &Vec<u8>, i: usize) -> (r: Option<(LevelRange, usize)>)
    requires
        i <= s.len(),
    ensures
        match r {
            Some((v, j)) => {
                &&& i <= j <= s.len()
                &&& parse_level_range(s@.skip(i as int)) == Some((v, s@.skip(j as int)))
            },
            None => parse_level_range(s@.skip(i as int)) is None,
        },
{
    proof {
        reveal(parse_level_range);
    }
    let j1 = match scan_first_key(s, i, "min") {
        Some(j) => j,
        None => {
            return None;
        },
    };
    let (min, j2) = match scan_usize(s, j1) {
        Some(x) => x,
        None => {
            return None;
        },
    };
    let j3 = match scan_key(s, j2, "max") {
        Some(j) => j,
        None => {
            return None;
        },
    };
    let (max, j4) = match scan_usize(s, j3) {
        Some(x) => x,
        None => {
            return None;
        },
    };
    let j5 = match scan_rbrace(s, j4) {
        Some(j) => j,
        None => {
            return None;
        },
    };
    Some((LevelRange { min, max }, j5))
}

pub fn scan_product(s: &Vec<u8>, i: usize) -> (r: Option<(Product, usize)>)
    requires
        i <= s.len(),
    ensures
        match r {
            Some((v, j)) => {
                &&& i <= j <= s.len()
                &&& parse_product(s@.skip(i as int)) == Some((v, s@.skip(j as int)))
            },
            None => parse_product(s@.skip(i as int)) is None,
        },
{
    proof {
        reveal(parse_product);
    }
    match scan_tag(s, i, "HeartOfThorns") {
        Some(j) => {
            return Some((Product::HeartOfThorns, j));
        },
        None => {},
    }
    match scan_tag(s, i, "PathOfFire") {
        Some(j) => {
            return Some((Product::PathOfFire, j));
        },
        None => {},
    }
    None
}

pub fn scan_access(s: &Vec<u8>, i: usize) -> (r: Option<(AccessCondition, usize)>)
    requires
        i <= s.len(),
    ensures
        match r {
            Some((v, j)) => {
                &&& i <= j <= s.len()
                &&& parse_access(s@.skip(i as int)) == Some((v, s@.skip(j as int)))
            },
            None => parse_access(s@.skip(i as int)) is None,
        },
{
    proof {
        reveal(parse_access);
    }
    match scan_tag(s, i, "HasAccess") {
        Some(j) => {
            return Some((AccessCondition::HasAccess, j));
        },
        None => {},
    }
    match scan_tag(s, i, "NoAccess") {
        Some(j) => {
            return Some((AccessCondition::NoAccess, j));
        },
        None => {},
    }
    None
}

pub fn scan_required_access(s: &Vec<u8>, i: usize) -> (r: Option<(RequiredAccess, usize)>)
    requires
        i <= s.len(),
    ensures
        match r {
            Some((v, j)) => {
                &&& i <= j <= s.len()
                &&& parse_required_access(s@.skip(i as int)) == Some((v, s@.skip(j as int)))
            },
            None => parse_required_access(s@.skip(i as int)) is None,
        },
{
    proof {
        reveal(parse_required_access);
    }
    let j1 = match scan_first_key(s, i, "product") {
        Some(j) => j,
        None => {
            return None;
        },
    };
    let (product, j2) = match scan_product(s, j1) {
        Some(x) => x,
        None => {
            return None;
        },
    };
    let j3 = match scan_key(s, j2, "condition") {
        Some(j) => j,
        None => {
            return None;
        },
    };
    let (condition, j4) = match scan_access(s, j3) {
        Some(x) => x,
        None => {
            return None;
        },
    };
    let j5 = match scan_rbrace(s, j4) {
        Some(j) => j,
        None => {
            return None;
        },
    };
    Some((RequiredAccess { product, condition }, j5))
}

fn scan_opt_required_access(s: &Vec<u8>, i: usize) -> (r: Option<(Option<RequiredAccess>, usize)>)
    requires
        i <= s.len(),
    ensures
        match r {
            Some((v, j)) => {
                &&& i <= j <= s.len()
                &&& parse_opt(crate::codec::ra_p(), s@.skip(i as int)) == Some(
                    (v, s@.skip(j as int)),
                )
            },
            None => parse_opt(crate::codec::ra_p(), s@.skip(i as int)) is None,
        },
{
    match scan_null(s, i) {
        Some(j) => Some((None, j)),
        None => match scan_required_access(s, i) {
            Some((v, j)) => Some((Some(v), j)),
            None => None,
        },
    }
}

pub fn scan_daily(s: &Vec<u8>, i: usize) -> (r: Option<(Daily, usize)>)
    requires
        i <= s.len(),
    ensures
        match r {
            Some((v, j)) => {
                &&& i <= j <= s.len()
                &&& parse_daily(s@.skip(i as int)) == Some((v, s@.skip(j as int)))
            },
            None => parse_daily(s@.skip(i as int)) is None,
        },
{
    proof {
        reveal(parse_daily);
    }
    let j1 = match scan_first_key(s, i, "id") {
        Some(j) => j,
        None => {
            return None;
        },
    };
    let (id, j2) = match scan_usize(s, j1) {
        Some(x) => x,
        None => {
            return None;
        },
    };
    let j3 = match scan_key(s, j2, "level") {
        Some(j) => j,
        None => {
            return None;
        },
    };
    let (level, j4) = match scan_level_range(s, j3) {
        Some(x) => x,
        None => {
            return None;
        },
    };
    let j5 = match scan_key(s, j4, "required_access") {
        Some(j) => j,
        None => {
            return None;
        },
    };
    let (required_access, j6) = match scan_opt_required_access(s, j5) {
        Some(x) => x,
        None => {
            return None;
        },
    };
    let j7 = match scan_rbrace(s, j6) {
        Some(j) => j,
        None => {
            return None;
        },
    };
    Some((Daily { id, level, required_access }, j7))
}

#[verifier::loop_isolation(false)]
pub fn scan_usize_array(s: &Vec<u8>, i: usize) -> (r: Option<(Vec<usize>, usize)>)
    requires
        i <= s.len(),
    ensures
        match r {
            Some((v, j)) => {
                &&& i <= j <= s.len()
                &&& parse_array(usize_p(), s@.skip(i as int)) == Some((v@, s@.skip(j as int)))
            },
            None => parse_array(usize_p(), s@.skip(i as int)) is None,
        },
{
    let ghost whole = s@.skip(i as int);
    proof {
        assert(forall|m: int| 0 <= m < whole.len() ==> whole[m] == s@[i + m]);
    }
    if s.len() - i >= 2 && s[i] == 0x5b && s[i + 1] == 0x5d {
        let out: Vec<usize> = Vec::new();
        proof {
            assert(whole.skip(2) =~= s@.skip(i + 2));
            assert(out@ =~= Seq::<usize>::empty());
        }
        return Some((out, i + 2));
    }
    if i == s.len() || s[i] != 0x5b {
        return None;
    }
    assert(whole.drop_first() =~= s@.skip(i + 1));
    let mut out: Vec<usize> = Vec::new();
    let mut j: usize = i + 1;
    loop
        invariant
            i + 1 <= j <= s.len(),
            parse_elems(usize_p(), s@.skip(i + 1)) == prepend_vals(
                out@,
                parse_elems(usize_p(), s@.skip(j as int)),
            ),
        decreases s.len() - j,
    {
        let ghost suf = s@.skip(j as int);
        match scan_usize(s, j) {
            None => {
                assert(parse_elems(usize_p(), suf) is None);
                return None;
            },
            Some((v, j2)) => {
                let ghost vm = v;
                proof {
                    lemma_parse_usize_len(suf);
                    assert(s@.skip(j2 as int).len() < suf.len());
                }
                if j2 == s.len() {
                    assert(parse_elems(usize_p(), suf) is None);
                    return None;
                }
                assert(s@.skip(j2 as int)[0] == s@[j2 as int]);
                let b = s[j2];
                if b == 0x2c {
                    proof {
                        assert(s@.skip(j2 as int).drop_first() =~= s@.skip(j2 + 1));
                        let inner = parse_elems(usize_p(), s@.skip(j2 + 1));
                        assert(parse_elems(usize_p(), suf) == prepend_vals(seq![vm], inner));
                        match inner {
                            Some((vs2, r2)) => {
                                assert(out@ + (seq![vm] + vs2) =~= out@.push(vm)
                                    + vs2);
                            },
                            None => {},
                        }
                    }
                    out.push(v);
                    j = j2 + 1;
                } else if b == 0x5d {
                    proof {
                        assert(s@.skip(j2 as int).drop_first() =~= s@.skip(j2 + 1));
                        assert(parse_elems(usize_p(), suf) == Some(
                            (seq![vm], s@.skip(j2 + 1)),
                        ));
                        assert(out@ + seq![vm] =~= out@.push(vm));
                    }
                    out.push(v);
                    return Some((out, j2 + 1));
                } else {
                    assert(parse_elems(usize_p(), suf) is None);
                    return None;
                }
            },
        }
    }
}

#[verifier::loop_isolation(false)]
pub fn scan_tier_array(s: &Vec<u8>, i: usize) -> (r: Option<(Vec<AchievementTier>, usize)>)
    requires
        i <= s.len(),
    ensures
        match r {
            Some((v, j)) => {
                &&& i <= j <= s.len()
                &&& parse_array(tier_p(), s@.skip(i as int)) == Some((v@, s@.skip(j as int)))
            },
            None => parse_array(tier_p(), s@.skip(i as int)) is None,
        },
{
    let ghost whole = s@.skip(i as int);
    proof {
        assert(forall|m: int| 0 <= m < whole.len() ==> whole[m] == s@[i + m]);
    }
    if s.len() - i >= 2 && s[i] == 0x5b && s[i + 1] == 0x5d {
        let out: Vec<AchievementTier> = Vec::new();
        proof {
            assert(whole.skip(2) =~= s@.skip(i + 2));
            assert(out@ =~= Seq::<AchievementTier>::empty());
        }
        return Some((out, i + 2));
    }
    if i == s.len() || s[i] != 0x5b {
        return None;
    }
    assert(whole.drop_first() =~= s@.skip(i + 1));
    let mut out: Vec<AchievementTier> = Vec::new();
    let mut j: usize = i + 1;
    loop
        invariant
            i + 1 <= j <= s.len(),
            parse_elems(tier_p(), s@.skip(i + 1)) == prepend_vals(
                out@,
                parse_elems(tier_p(), s@.skip(j as int)),
            ),
        decreases s.len() - j,
    {
        let ghost suf = s@.skip(j as int);
        match scan_tier(s, j) {
            None => {
                assert(parse_elems(tier_p(), suf) is None);
                return None;
            },
            Some((v, j2)) => {
                let ghost vm = v;
                proof {
                    lemma_parse_tier_len(suf);
                    assert(s@.skip(j2 as int).len() < suf.len());
                }
                if j2 == s.len() {
                    assert(parse_elems(tier_p(), suf) is None);
                    return None;
                }
                assert(s@.skip(j2 as int)[0] == s@[j2 as int]);
                let b = s[j2];
                if b == 0x2c {
                    proof {
                        assert(s@.skip(j2 as int).drop_first() =~= s@.skip(j2 + 1));
                        let inner = parse_elems(tier_p(), s@.skip(j2 + 1));
                        assert(parse_elems(tier_p(), suf) == prepend_vals(seq![vm], inner));
                        match inner {
                            Some((vs2, r2)) => {
                                assert(out@ + (seq![vm] + vs2) =~= out@.push(vm)
                                    + vs2);
                            },
                            None => {},
                        }
                    }
                    out.push(v);
                    j = j2 + 1;
                } else if b == 0x5d {
                    proof {
                        assert(s@.skip(j2 as int).drop_first() =~= s@.skip(j2 + 1));
                        assert(parse_elems(tier_p(), suf) == Some(
                            (seq![vm], s@.skip(j2 + 1)),
                        ));
                        assert(out@ + seq![vm] =~= out@.push(vm));
                    }
                    out.push(v);
                    return Some((out, j2 + 1));
                } else {
                    assert(parse_elems(tier_p(), suf) is None);
                    return None;
                }
            },
        }
    }
}

#[verifier::loop_isolation(false)]
pub fn scan_daily_array(s: &Vec<u8>, i: usize) -> (r: Option<(Vec<Daily>, usize)>)
    requires
        i <= s.len(),
    ensures
        match r {
            Some((v, j)) => {
                &&& i <= j <= s.len()
                &&& parse_array(daily_p(), s@.skip(i as int)) == Some((v@, s@.skip(j as int)))
            },
            None => parse_array(daily_p(), s@.skip(i as int)) is None,
        },
{
    let ghost whole = s@.skip(i as int);
    proof {
        assert(forall|m: int| 0 <= m < whole.len() ==> whole[m] == s@[i + m]);
    }
    if s.len() - i >= 2 && s[i] == 0x5b && s[i + 1] == 0x5d {
        let out: Vec<Daily> = Vec::new();
        proof {
            assert(whole.skip(2) =~= s@.skip(i + 2));
            assert(out@ =~= Seq::<Daily>::empty());
        }
        return Some((out, i + 2));
    }
    if i == s.len() || s[i] != 0x5b {
        return None;
    }
    assert(whole.drop_first() =~= s@.skip(i + 1));
    let mut out: Vec<Daily> = Vec::new();
    let mut j: usize = i + 1;
    loop
        invariant
            i + 1 <= j <= s.len(),
            parse_elems(daily_p(), s@.skip(i + 1)) == prepend_vals(
                out@,
                parse_elems(daily_p(), s@.skip(j as int)),
            ),
        decreases s.len() - j,
    {
        let ghost suf = s@.skip(j as int);
        match scan_daily(s, j) {
            None => {
                assert(parse_elems(daily_p(), suf) is None);
                return None;
            },
            Some((v, j2)) => {
                let ghost vm = v;
                proof {
                    lemma_parse_daily_len(suf);
                    assert(s@.skip(j2 as int).len() < suf.len());
                }
                if j2 == s.len() {
                    assert(parse_elems(daily_p(), suf) is None);
                    return None;
                }
                assert(s@.skip(j2 as int)[0] == s@[j2 as int]);
                let b = s[j2];
                if b == 0x2c {
                    proof {
                        assert(s@.skip(j2 as int).drop_first() =~= s@.skip(j2 + 1));
                        let inner = parse_elems(daily_p(), s@.skip(j2 + 1));
                        assert(parse_elems(daily_p(), suf) == prepend_vals(seq![vm], inner));
                        match inner {
                            Some((vs2, r2)) => {
                                assert(out@ + (seq![vm] + vs2) =~= out@.push(vm)
                                    + vs2);
                            },
                            None => {},
                        }
                    }
                    out.push(v);
                    j = j2 + 1;
                } else if b == 0x5d {
                    proof {
                        assert(s@.skip(j2 as int).drop_first() =~= s@.skip(j2 + 1));
                        assert(parse_elems(daily_p(), suf) == Some(
                            (seq![vm], s@.skip(j2 + 1)),
                        ));
                        assert(out@ + seq![vm] =~= out@.push(vm));
                    }
                    out.push(v);
                    return Some((out, j2 + 1));
                } else {
                    assert(parse_elems(daily_p(), suf) is None);
                    return None;
                }
            },
        }
    }
}

pub fn scan_reward(s: &Vec<u8>, i: usize) -> (r: Option<(Reward, usize)>)
    requires
        i <= s.len(),
    ensures
        match r {
            Some((v, j)) => {
                &&& i <= j <= s.len()
                &&& parse_reward(s@.skip(i as int)) == Some((v.deep_view(), s@.skip(j as int)))
            },
            None => parse_reward(s@.skip(i as int)) is None,
        },
{
    proof {
        reveal(parse_reward);
        reveal(parse_reward_coins);
        reveal(parse_reward_item);
        reveal(parse_reward_mastery);
        reveal(parse_reward_title);
    }
    let j1 = match scan_first_key(s, i, "type") {
        Some(j) => j,
        None => {
            return None;
        },
    };
    match scan_tag(s, j1, "Coins") {
        Some(j2) => {
            let j3 = match scan_key(s, j2, "count") {
                Some(j) => j,
                None => {
                    return None;
                },
            };
            let (count, j4) = match scan_usize(s, j3) {
                Some(x) => x,
                None => {
                    return None;
                },
            };
            let j5 = match scan_rbrace(s, j4) {
                Some(j) => j,
                None => {
                    return None;
                },
            };
            return Some((Reward::Coins { count }, j5));
        },
        None => {},
    }
    match scan_tag(s, j1, "Item") {
        Some(j2) => {
            let j3 = match scan_key(s, j2, "id") {
                Some(j) => j,
                None => {
                    return None;
                },
            };
            let (id, j4) = match scan_usize(s, j3) {
                Some(x) => x,
                None => {
                    return None;
                },
            };
            let j5 = match scan_key(s, j4, "count") {
                Some(j) => j,
                None => {
                    return None;
                },
            };
            let (count, j6) = match scan_usize(s, j5) {
                Some(x) => x,
                None => {
                    return None;
                },
            };
            let j7 = match scan_rbrace(s, j6) {
                Some(j) => j,
                None => {
                    return None;
                },
            };
            return Some((Reward::Item { id, count }, j7));
        },
        None => {},
    }
    match scan_tag(s, j1, "Mastery") {
        Some(j2) => {
            let j3 = match scan_key(s, j2, "id") {
                Some(j) => j,
                None => {
                    return None;
                },
            };
            let (id, j4) = match scan_usize(s, j3) {
                Some(x) => x,
                None => {
                    return None;
                },
            };
            let j5 = match scan_key(s, j4, "region") {
                Some(j) => j,
                None => {
                    return None;
                },
            };
            let (region, j6) = match scan_jstring(s, j5) {
                Some(x) => x,
                None => {
                    return None;
                },
            };
            let j7 = match scan_rbrace(s, j6) {
                Some(j) => j,
                None => {
                    return None;
                },
            };
            return Some((Reward::Mastery { id, region }, j7));
        },
        None => {},
    }
    match scan_tag(s, j1, "Title") {
        Some(j2) => {
            let j3 = match scan_key(s, j2, "id") {
                Some(j) => j,
                None => {
                    return None;
                },
            };
            let (id, j4) = match scan_usize(s, j3) {
                Some(x) => x,
                None => {
                    return None;
                },
            };
            let j5 = match scan_rbrace(s, j4) {
                Some(j) => j,
                None => {
                    return None;
                },
            };
            return Some((Reward::Title { id }, j5));
        },
        None => {},
    }
    None
}

pub fn scan_bit(s: &Vec<u8>, i: usize) -> (r: Option<(AchievementBit, usize)>)
    requires
        i <= s.len(),
    ensures
        match r {
            Some((v, j)) => {
                &&& i <= j <= s.len()
                &&& parse_bit(s@.skip(i as int)) == Some((v.deep_view(), s@.skip(j as int)))
            },
            None => parse_bit(s@.skip(i as int)) is None,
        },
{
    proof {
        reveal(parse_bit);
    }
    let j1 = match scan_first_key(s, i, "bit_type") {
        Some(j) => j,
        None => {
            return None;
        },
    };
    let (bit_type, j2) = match scan_opt_string(s, j1) {
        Some(x) => x,
        None => {
            return None;
        },
    };
    let j3 = match scan_key(s, j2, "id") {
        Some(j) => j,
        None => {
            return None;
        },
    };
    let (id, j4) = match scan_opt_usize(s, j3) {
        Some(x) => x,
        None => {
            return None;
        },
    };
    let j5 = match scan_key(s, j4, "text") {
        Some(j) => j,
        None => {
            return None;
        },
    };
    let (text, j6) = match scan_opt_string(s, j5) {
        Some(x) => x,
        None => {
            return None;
        },
    };
    let j7 = match scan_rbrace(s, j6) {
        Some(j) => j,
        None => {
            return None;
        },
    };
    Some((AchievementBit { bit_type, id, text }, j7))
}

fn scan_dailies_rest4(s: &Vec<u8>, i: usize) -> (r: Option<(Vec<Daily>, usize)>)
    requires
        i <= s.len(),
    ensures
        match r {
            Some((v, j)) => {
                &&& i <= j <= s.len()
                &&& parse_dailies_rest4(s@.skip(i as int)) == Some((v@, s@.skip(j as int)))
            },
            None => parse_dailies_rest4(s@.skip(i as int)) is None,
        },
{
    proof {
        reveal(parse_dailies_rest4);
    }
    let j1 = match scan_key(s, i, "special") {
        Some(j) => j,
        None => {
            return None;
        },
    };
    let (special, j2) = match scan_daily_array(s, j1) {
        Some(x) => x,
        None => {
            return None;
        },
    };
    let j3 = match scan_rbrace(s, j2) {
        Some(j) => j,
        None => {
            return None;
        },
    };
    Some((special, j3))
}

fn scan_dailies_rest3(s: &Vec<u8>, i: usize) -> (r: Option<((Vec<Daily>, Vec<Daily>), usize)>)
    requires
        i <= s.len(),
    ensures
        match r {
            Some(((fractals, special), j)) => {
                &&& i <= j <= s.len()
                &&& parse_dailies_rest3(s@.skip(i as int)) == Some(
                    ((fractals@, special@), s@.skip(j as int)),
                )
            },
            None => parse_dailies_rest3(s@.skip(i as int)) is None,
        },
{
    proof {
        reveal(parse_dailies_rest3);
    }
    let j1 = match scan_key(s, i, "fractals") {
        Some(j) => j,
        None => {
            return None;
        },
    };
    let (fractals, j2) = match scan_daily_array(s, j1) {
        Some(x) => x,
        None => {
            return None;
        },
    };
    let (special, j3) = match scan_dailies_rest4(s, j2) {
        Some(x) => x,
        None => {
            return None;
        },
    };
    Some(((fractals, special), j3))
}

fn scan_dailies_rest2(s: &Vec<u8>, i: usize) -> (r: Option<
    ((Vec<Daily>, Vec<Daily>, Vec<Daily>), usize),
>)
    requires
        i <= s.len(),
    ensures
        match r {
            Some(((wvw, fractals, special), j)) => {
                &&& i <= j <= s.len()
                &&& parse_dailies_rest2(s@.skip(i as int)) == Some(
                    ((wvw@, fractals@, special@), s@.skip(j as int)),
                )
            },
            None => parse_dailies_rest2(s@.skip(i as int)) is None,
        },
{
    proof {
        reveal(parse_dailies_rest2);
    }
    let j1 = match scan_key(s, i, "wvw") {
        Some(j) => j,
        None => {
            return None;
        },
    };
    let (wvw, j2) = match scan_daily_array(s, j1) {
        Some(x) => x,
        None => {
            return None;
        },
    };
    let ((fractals, special), j3) = match scan_dailies_rest3(s, j2) {
        Some(x) => x,
        None => {
            return None;
        },
    };
    Some(((wvw, fractals, special), j3))
}

fn scan_dailies_rest1(s: &Vec<u8>, i: usize) -> (r: Option<
    ((Vec<Daily>, Vec<Daily>, Vec<Daily>, Vec<Daily>), usize),
>)
    requires
        i <= s.len(),
    ensures
        match r {
            Some(((pvp, wvw, fractals, special), j)) => {
                &&& i <= j <= s.len()
                &&& parse_dailies_rest1(s@.skip(i as int)) == Some(
                    ((pvp@, wvw@, fractals@, special@), s@.skip(j as int)),
                )
            },
            None => parse_dailies_rest1(s@.skip(i as int)) is None,
        },
{
    proof {
        reveal(parse_dailies_rest1);
    }
    let j1 = match scan_key(s, i, "pvp") {
        Some(j) => j,
        None => {
            return None;
        },
    };
    let (pvp, j2) = match scan_daily_array(s, j1) {
        Some(x) => x,
        None => {
            return None;
        },
    };
    let ((wvw, fractals, special), j3) = match scan_dailies_rest2(s, j2) {
        Some(x) => x,
        None => {
            return None;
        },
    };
    Some(((pvp, wvw, fractals, special), j3))
}

pub fn scan_dailies(s: &Vec<u8>, i: usize) -> (r: Option<(Dailies, usize)>)
    requires
        i <= s.len(),
    ensures
        match r {
            Some((v, j)) => {
                &&& i <= j <= s.len()
                &&& parse_dailies(s@.skip(i as int)) == Some(
                    (v.deep_view(), s@.skip(j as int)),
                )
            },
            None => parse_dailies(s@.skip(i as int)) is None,
        },
{
    proof {
        reveal(parse_dailies);
    }
    let j1 = match scan_first_key(s, i, "pve") {
        Some(j) => j,
        None => {
            return None;
        },
    };
    let (pve, j2) = match scan_daily_array(s, j1) {
        Some(x) => x,
        None => {
            return None;
        },
    };
    let ((pvp, wvw, fractals, special), j3) = match scan_dailies_rest1(s, j2) {
        Some(x) => x,
        None => {
            return None;
        },
    };
    let d = Dailies { pve, pvp, wvw, fractals, special };
    proof {
        assert(d.pve.deep_view() =~= d.pve@);
        assert(d.pvp.deep_view() =~= d.pvp@);
        assert(d.wvw.deep_view() =~= d.wvw@);
        assert(d.fractals.deep_view() =~= d.fractals@);
        assert(d.special.deep_view() =~= d.special@);
    }
    Some((d, j3))
}

fn scan_acct_rest3(s: &Vec<u8>, i: usize) -> (r: Option<((Option<usize>, Option<bool>), usize)>)
    requires
        i <= s.len(),
    ensures
        match r {
            Some(((repeated, unlocked), j)) => {
                &&& i <= j <= s.len()
                &&& parse_acct_rest3(s@.skip(i as int)) == Some(
                    ((repeated, unlocked), s@.skip(j as int)),
                )
            },
            None => parse_acct_rest3(s@.skip(i as int)) is None,
        },
{
    proof {
        reveal(parse_acct_rest3);
    }
    let j1 = match scan_key(s, i, "repeated") {
        Some(j) => j,
        None => {
            return None;
        },
    };
    let (repeated, j2) = match scan_opt_usize(s, j1) {
        Some(x) => x,
        None => {
            return None;
        },
    };
    let j3 = match scan_key(s, j2, "unlocked") {
        Some(j) => j,
        None => {
            return None;
        },
    };
    let (unlocked, j4) = match scan_opt_bool(s, j3) {
        Some(x) => x,
        None => {
            return None;
        },
    };
    let j5 = match scan_rbrace(s, j4) {
        Some(j) => j,
        None => {
            return None;
        },
    };
    Some(((repeated, unlocked), j5))
}

fn scan_acct_rest2(s: &Vec<u8>, i: usize) -> (r: Option<
    ((Option<usize>, bool, (Option<usize>, Option<bool>)), usize),
>)
    requires
        i <= s.len(),
    ensures
        match r {
            Some(((max, done, tail), j)) => {
                &&& i <= j <= s.len()
                &&& parse_acct_rest2(s@.skip(i as int)) == Some(
                    ((max, done, tail), s@.skip(j as int)),
                )
            },
            None => parse_acct_rest2(s@.skip(i as int)) is None,
        },
{
    proof {
        reveal(parse_acct_rest2);
    }
    let j1 = match scan_key(s, i, "max") {
        Some(j) => j,
        None => {
            return None;
        },
    };
    let (max, j2) = match scan_opt_usize(s, j1) {
        Some(x) => x,
        None => {
            return None;
        },
    };
    let j3 = match scan_key(s, j2, "done") {
        Some(j) => j,
        None => {
            return None;
        },
    };
    let (done, j4) = match scan_bool(s, j3) {
        Some(x) => x,
        None => {
            return None;
        },
    };
    let (tail, j5) = match scan_acct_rest3(s, j4) {
        Some(x) => x,
        None => {
            return None;
        },
    };
    Some(((max, done, tail), j5))
}

fn scan_opt_usize_array(s: &Vec<u8>, i: usize) -> (r: Option<(Option<Vec<usize>>, usize)>)
    requires
        i <= s.len(),
    ensures
        match r {
            Some((v, j)) => {
                &&& i <= j <= s.len()
                &&& parse_opt(arr_usize_p(), s@.skip(i as int)) == Some(
                    (v.deep_view(), s@.skip(j as int)),
                )
            },
            None => parse_opt(arr_usize_p(), s@.skip(i as int)) is None,
        },
{
    match scan_null(s, i) {
        Some(j) => Some((None, j)),
        None => match scan_usize_array(s, i) {
            Some((v, j)) => {
                proof {
                    assert(v.deep_view() =~= v@);
                }
                Some((Some(v), j))
            },
            None => None,
        },
    }
}

pub fn scan_account(s: &Vec<u8>, i: usize) -> (r: Option<(AccountAchievement, usize)>)
    requires
        i <= s.len(),
    ensures
        match r {
            Some((v, j)) => {
                &&& i <= j <= s.len()
                &&& parse_account(s@.skip(i as int)) == Some((v.deep_view(), s@.skip(j as int)))
            },
            None => parse_account(s@.skip(i as int)) is None,
        },
{
    proof {
        reveal(parse_account);
    }
    let j1 = match scan_first_key(s, i, "id") {
        Some(j) => j,
        None => {
            return None;
        },
    };
    let (id, j2) = match scan_usize(s, j1) {
        Some(x) => x,
        None => {
            return None;
        },
    };
    let j3 = match scan_key(s, j2, "bits") {
        Some(j) => j,
        None => {
            return None;
        },
    };
    let (bits, j4) = match scan_opt_usize_array(s, j3) {
        Some(x) => x,
        None => {
            return None;
        },
    };
    let j5 = match scan_key(s, j4, "current") {
        Some(j) => j,
        None => {
            return None;
        },
    };
    let (current, j6) = match scan_opt_usize(s, j5) {
        Some(x) => x,
        None => {
            return None;
        },
    };
    let ((max, done, tail), j7) = match scan_acct_rest2(s, j6) {
        Some(x) => x,
        None => {
            return None;
        },
    };
    let (repeated, unlocked) = tail;
    Some((AccountAchievement { id, bits, current, max, done, repeated, unlocked }, j7))
}

fn scan_ach_c7(s: &Vec<u8>, i: usize) -> (r: Option<(Option<i32>, usize)>)
    requires
        i <= s.len(),
    ensures
        match r {
            Some((v, j)) => {
                &&& i <= j <= s.len()
                &&& parse_ach_c7(s@.skip(i as int)) == Some((v, s@.skip(j as int)))
            },
            None => parse_ach_c7(s@.skip(i as int)) is None,
        },
{
    proof {
        reveal(parse_ach_c7);
    }
    let j1 = match scan_key(s, i, "point_cap") {
        Some(j) => j,
        None => {
            return None;
        },
    };
    let (point_cap, j2) = match scan_opt_i32(s, j1) {
        Some(x) => x,
        None => {
            return None;
        },
    };
    let j3 = match scan_rbrace(s, j2) {
        Some(j) => j,
        None => {
            return None;
        },
    };
    Some((point_cap, j3))
}

fn scan_ach_c6(s: &Vec<u8>, i: usize) -> (r: Option<
    ((Option<Vec<Reward>>, Option<Vec<AchievementBit>>, Option<i32>), usize),
>)
    requires
        i <= s.len(),
    ensures
        match r {
            Some(((rewards, bits, point_cap), j)) => {
                &&& i <= j <= s.len()
                &&& parse_ach_c6(s@.skip(i as int)) == Some(
                    ((rewards.deep_view(), bits.deep_view(), point_cap), s@.skip(j as int)),
                )
            },
            None => parse_ach_c6(s@.skip(i as int)) is None,
        },
{
    proof {
        reveal(parse_ach_c6);
    }
    let j1 = match scan_key(s, i, "rewards") {
        Some(j) => j,
        None => {
            return None;
        },
    };
    let (rewards, j2) = match scan_null(s, j1) {
        Some(j) => (None, j),
        None => match scan_reward_array(s, j1) {
            Some((v, j)) => (Some(v), j),
            None => {
                return None;
            },
        },
    };
    let j3 = match scan_key(s, j2, "bits") {
        Some(j) => j,
        None => {
            return None;
        },
    };
    let (bits, j4) = match scan_null(s, j3) {
        Some(j) => (None, j),
        None => match scan_bit_array(s, j3) {
            Some((v, j)) => (Some(v), j),
            None => {
                return None;
            },
        },
    };
    let (point_cap, j5) = match scan_ach_c7(s, j4) {
        Some(x) => x,
        None => {
            return None;
        },
    };
    Some(((rewards, bits, point_cap), j5))
}

fn scan_ach_c5(s: &Vec<u8>, i: usize) -> (r: Option<
    (
        (
            Vec<AchievementTier>,
            Option<Vec<usize>>,
            (Option<Vec<Reward>>, Option<Vec<AchievementBit>>, Option<i32>),
        ),
        usize,
    ),
>)
    requires
        i <= s.len(),
    ensures
        match r {
            Some(((tiers, prerequisites, (rewards, bits, point_cap)), j)) => {
                &&& i <= j <= s.len()
                &&& parse_ach_c5(s@.skip(i as int)) == Some(
                    (
                        (
                            tiers@,
                            prerequisites.deep_view(),
                            (rewards.deep_view(), bits.deep_view(), point_cap),
                        ),
                        s@.skip(j as int),
                    ),
                )
            },
            None => parse_ach_c5(s@.skip(i as int)) is None,
        },
{
    proof {
        reveal(parse_ach_c5);
    }
    let j1 = match scan_key(s, i, "tiers") {
        Some(j) => j,
        None => {
            return None;
        },
    };
    let (tiers, j2) = match scan_tier_array(s, j1) {
        Some(x) => x,
        None => {
            return None;
        },
    };
    let j3 = match scan_key(s, j2, "prerequisites") {
        Some(j) => j,
        None => {
            return None;
        },
    };
    let (prerequisites, j4) = match scan_opt_usize_array(s, j3) {
        Some(x) => x,
        None => {
            return None;
        },
    };
    let (tail, j5) = match scan_ach_c6(s, j4) {
        Some(x) => x,
        None => {
            return None;
        },
    };
    Some(((tiers, prerequisites, tail), j5))
}

fn scan_ach_c4(s: &Vec<u8>, i: usize) -> (r: Option<
    (
        (
            String,
            Vec<String>,
            (
                Vec<AchievementTier>,
                Option<Vec<usize>>,
                (Option<Vec<Reward>>, Option<Vec<AchievementBit>>, Option<i32>),
            ),
        ),
        usize,
    ),
>)
    requires
        i <= s.len(),
    ensures
        match r {
            Some(((achievement_type, flags, (tiers, prerequisites, (rewards, bits, point_cap))), j)) => {
                &&& i <= j <= s.len()
                &&& parse_ach_c4(s@.skip(i as int)) == Some(
                    (
                        (
                            achievement_type@,
                            flags.deep_view(),
                            (
                                tiers@,
                                prerequisites.deep_view(),
                                (rewards.deep_view(), bits.deep_view(), point_cap),
                            ),
                        ),
                        s@.skip(j as int),
                    ),
                )
            },
            None => parse_ach_c4(s@.skip(i as int)) is None,
        },
{
    proof {
        reveal(parse_ach_c4);
    }
    let j1 = match scan_key(s, i, "achievement_type") {
        Some(j) => j,
        None => {
            return None;
        },
    };
    let (achievement_type, j2) = match scan_jstring(s, j1) {
        Some(x) => x,
        None => {
            return None;
        },
    };
    let j3 = match scan_key(s, j2, "flags") {
        Some(j) => j,
        None => {
            return None;
        },
    };
    let (flags, j4) = match scan_string_array(s, j3) {
        Some(x) => x,
        None => {
            return None;
        },
    };
    let (tail, j5) = match scan_ach_c5(s, j4) {
        Some(x) => x,
        None => {
            return None;
        },
    };
    Some(((achievement_type, flags, tail), j5))
}

pub fn scan_achievement(s: &Vec<u8>, i: usize) -> (r: Option<(Achievement, usize)>)
    requires
        i <= s.len(),
    ensures
        match r {
            Some((v, j)) => {
                &&& i <= j <= s.len()
                &&& parse_achievement(s@.skip(i as int)) == Some(
                    (v.deep_view(), s@.skip(j as int)),
                )
            },
            None => parse_achievement(s@.skip(i as int)) is None,
        },
{
    proof {
        reveal(parse_achievement);
        reveal(parse_ach_c2);
        reveal(parse_ach_c3);
    }
    let j1 = match scan_first_key(s, i, "id") {
        Some(j) => j,
        None => {
            return None;
        },
    };
    let (id, j2) = match scan_usize(s, j1) {
        Some(x) => x,
        None => {
            return None;
        },
    };
    let j3 = match scan_key(s, j2, "icon") {
        Some(j) => j,
        None => {
            return None;
        },
    };
    let (icon, j4) = match scan_opt_string(s, j3) {
        Some(x) => x,
        None => {
            return None;
        },
    };
    let j5 = match scan_key(s, j4, "name") {
        Some(j) => j,
        None => {
            return None;
        },
    };
    let (name, j6) = match scan_jstring(s, j5) {
        Some(x) => x,
        None => {
            return None;
        },
    };
    let j7 = match scan_key(s, j6, "description") {
        Some(j) => j,
        None => {
            return None;
        },
    };
    let (description, j8) = match scan_jstring(s, j7) {
        Some(x) => x,
        None => {
            return None;
        },
    };
    let j9 = match scan_key(s, j8, "requirement") {
        Some(j) => j,
        None => {
            return None;
        },
    };
    let (requirement, j10) = match scan_jstring(s, j9) {
        Some(x) => x,
        None => {
            return None;
        },
    };
    let j11 = match scan_key(s, j10, "locked_text") {
        Some(j) => j,
        None => {
            return None;
        },
    };
    let (locked_text, j12) = match scan_jstring(s, j11) {
        Some(x) => x,
        None => {
            return None;
        },
    };
    let (tail, j13) = match scan_ach_c4(s, j12) {
        Some(x) => x,
        None => {
            return None;
        },
    };
    let (achievement_type, flags, tail2) = tail;
    let (tiers, prerequisites, tail3) = tail2;
    let (rewards, bits, point_cap) = tail3;
    let a = Achievement {
        id,
        icon,
        name,
        description,
        requirement,
        locked_text,
        achievement_type,
        flags,
        tiers,
        prerequisites,
        rewards,
        bits,
        point_cap,
    };
    proof {
        assert(a.tiers.deep_view() =~= a.tiers@);
    }
    Some((a, j13))
}

#[verifier::loop_isolation(false)]
pub fn scan_string_array(s: &Vec<u8>, i: usize) -> (r: Option<(Vec<String>, usize)>)
    requires
        i <= s.len(),
    ensures
        match r {
            Some((v, j)) => {
                &&& i <= j <= s.len()
                &&& parse_array(jstr_p(), s@.skip(i as int)) == Some((v.deep_view(), s@.skip(j as int)))
            },
            None => parse_array(jstr_p(), s@.skip(i as int)) is None,
        },
{
    let ghost whole = s@.skip(i as int);
    proof {
        assert(forall|m: int| 0 <= m < whole.len() ==> whole[m] == s@[i + m]);
    }
    if s.len() - i >= 2 && s[i] == 0x5b && s[i + 1] == 0x5d {
        let out: Vec<String> = Vec::new();
        proof {
            assert(whole.skip(2) =~= s@.skip(i + 2));
            assert(out.deep_view() =~= Seq::<Seq<char>>::empty());
        }
        return Some((out, i + 2));
    }
    if i == s.len() || s[i] != 0x5b {
        return None;
    }
    assert(whole.drop_first() =~= s@.skip(i + 1));
    let mut out: Vec<String> = Vec::new();
    let mut j: usize = i + 1;
    loop
        invariant
            i + 1 <= j <= s.len(),
            parse_elems(jstr_p(), s@.skip(i + 1)) == prepend_vals(
                out.deep_view(),
                parse_elems(jstr_p(), s@.skip(j as int)),
            ),
        decreases s.len() - j,
    {
        let ghost suf = s@.skip(j as int);
        match scan_jstring(s, j) {
            None => {
                assert(parse_elems(jstr_p(), suf) is None);
                return None;
            },
            Some((v, j2)) => {
                let ghost vm = v.deep_view();
                proof {
                    lemma_parse_jstring_len(suf);
                    assert(s@.skip(j2 as int).len() < suf.len());
                }
                if j2 == s.len() {
                    assert(parse_elems(jstr_p(), suf) is None);
                    return None;
                }
                assert(s@.skip(j2 as int)[0] == s@[j2 as int]);
                let b = s[j2];
                if b == 0x2c {
                    proof {
                        assert(s@.skip(j2 as int).drop_first() =~= s@.skip(j2 + 1));
                        let inner = parse_elems(jstr_p(), s@.skip(j2 + 1));
                        assert(parse_elems(jstr_p(), suf) == prepend_vals(seq![vm], inner));
                        match inner {
                            Some((vs2, r2)) => {
                                assert(out.deep_view() + (seq![vm] + vs2) =~= out.deep_view().push(vm)
                                    + vs2);
                            },
                            None => {},
                        }
                    }
                    out.push(v);
                    j = j2 + 1;
                } else if b == 0x5d {
                    proof {
                        assert(s@.skip(j2 as int).drop_first() =~= s@.skip(j2 + 1));
                        assert(parse_elems(jstr_p(), suf) == Some(
                            (seq![vm], s@.skip(j2 + 1)),
                        ));
                        assert(out.deep_view() + seq![vm] =~= out.deep_view().push(vm));
                    }
                    out.push(v);
                    return Some((out, j2 + 1));
                } else {
                    assert(parse_elems(jstr_p(), suf) is None);
                    return None;
                }
            },
        }
    }
}

#[verifier::loop_isolation(false)]
pub fn scan_reward_array(s: &Vec<u8>, i: usize) -> (r: Option<(Vec<Reward>, usize)>)
    requires
        i <= s.len(),
    ensures
        match r {
            Some((v, j)) => {
                &&& i <= j <= s.len()
                &&& parse_array(reward_p(), s@.skip(i as int)) == Some((v.deep_view(), s@.skip(j as int)))
            },
            None => parse_array(reward_p(), s@.skip(i as int)) is None,
        },
{
    let ghost whole = s@.skip(i as int);
    proof {
        assert(forall|m: int| 0 <= m < whole.len() ==> whole[m] == s@[i + m]);
    }
    if s.len() - i >= 2 && s[i] == 0x5b && s[i + 1] == 0x5d {
        let out: Vec<Reward> = Vec::new();
        proof {
            assert(whole.skip(2) =~= s@.skip(i + 2));
            assert(out.deep_view() =~= Seq::<RewardModel>::empty());
        }
        return Some((out, i + 2));
    }
    if i == s.len() || s[i] != 0x5b {
        return None;
    }
    assert(whole.drop_first() =~= s@.skip(i + 1));
    let mut out: Vec<Reward> = Vec::new();
    let mut j: usize = i + 1;
    loop
        invariant
            i + 1 <= j <= s.len(),
            parse_elems(reward_p(), s@.skip(i + 1)) == prepend_vals(
                out.deep_view(),
                parse_elems(reward_p(), s@.skip(j as int)),
            ),
        decreases s.len() - j,
    {
        let ghost suf = s@.skip(j as int);
        match scan_reward(s, j) {
            None => {
                assert(parse_elems(reward_p(), suf) is None);
                return None;
            },
            Some((v, j2)) => {
                let ghost vm = v.deep_view();
                proof {
                    lemma_parse_reward_len(suf);
                    assert(s@.skip(j2 as int).len() < suf.len());
                }
                if j2 == s.len() {
                    assert(parse_elems(reward_p(), suf) is None);
                    return None;
                }
                assert(s@.skip(j2 as int)[0] == s@[j2 as int]);
                let b = s[j2];
                if b == 0x2c {
                    proof {
                        assert(s@.skip(j2 as int).drop_first() =~= s@.skip(j2 + 1));
                        let inner = parse_elems(reward_p(), s@.skip(j2 + 1));
                        assert(parse_elems(reward_p(), suf) == prepend_vals(seq![vm], inner));
                        match inner {
                            Some((vs2, r2)) => {
                                assert(out.deep_view() + (seq![vm] + vs2) =~= out.deep_view().push(vm)
                                    + vs2);
                            },
                            None => {},
                        }
                    }
                    out.push(v);
                    j = j2 + 1;
                } else if b == 0x5d {
                    proof {
                        assert(s@.skip(j2 as int).drop_first() =~= s@.skip(j2 + 1));
                        assert(parse_elems(reward_p(), suf) == Some(
                            (seq![vm], s@.skip(j2 + 1)),
                        ));
                        assert(out.deep_view() + seq![vm] =~= out.deep_view().push(vm));
                    }
                    out.push(v);
                    return Some((out, j2 + 1));
                } else {
                    assert(parse_elems(reward_p(), suf) is None);
                    return None;
                }
            },
        }
    }
}

#[verifier::loop_isolation(false)]
pub fn scan_bit_array(s: &Vec<u8>, i: usize) -> (r: Option<(Vec<AchievementBit>, usize)>)
    requires
        i <= s.len(),
    ensures
        match r {
            Some((v, j)) => {
                &&& i <= j <= s.len()
                &&& parse_array(bit_p(), s@.skip(i as int)) == Some((v.deep_view(), s@.skip(j as int)))
            },
            None => parse_array(bit_p(), s@.skip(i as int)) is None,
        },
{
    let ghost whole = s@.skip(i as int);
    proof {
        assert(forall|m: int| 0 <= m < whole.len() ==> whole[m] == s@[i + m]);
    }
    if s.len() - i >= 2 && s[i] == 0x5b && s[i + 1] == 0x5d {
        let out: Vec<AchievementBit> = Vec::new();
        proof {
            assert(whole.skip(2) =~= s@.skip(i + 2));
            assert(out.deep_view() =~= Seq::<AchievementBitModel>::empty());
        }
        return Some((out, i + 2));
    }
    if i == s.len() || s[i] != 0x5b {
        return None;
    }
    assert(whole.drop_first() =~= s@.skip(i + 1));
    let mut out: Vec<AchievementBit> = Vec::new();
    let mut j: usize = i + 1;
    loop
        invariant
            i + 1 <= j <= s.len(),
            parse_elems(bit_p(), s@.skip(i + 1)) == prepend_vals(
                out.deep_view(),
                parse_elems(bit_p(), s@.skip(j as int)),
            ),
        decreases s.len() - j,
    {
        let ghost suf = s@.skip(j as int);
        match scan_bit(s, j) {
            None => {
                assert(parse_elems(bit_p(), suf) is None);
                return None;
            },
            Some((v, j2)) => {
                let ghost vm = v.deep_view();
                proof {
                    lemma_parse_bit_len(suf);
                    assert(s@.skip(j2 as int).len() < suf.len());
                }
                if j2 == s.len() {
                    assert(parse_elems(bit_p(), suf) is None);
                    return None;
                }
                assert(s@.skip(j2 as int)[0] == s@[j2 as int]);
                let b = s[j2];
                if b == 0x2c {
                    proof {
                        assert(s@.skip(j2 as int).drop_first() =~= s@.skip(j2 + 1));
                        let inner = parse_elems(bit_p(), s@.skip(j2 + 1));
                        assert(parse_elems(bit_p(), suf) == prepend_vals(seq![vm], inner));
                        match inner {
                            Some((vs2, r2)) => {
                                assert(out.deep_view() + (seq![vm] + vs2) =~= out.deep_view().push(vm)
                                    + vs2);
                            },
                            None => {},
                        }
                    }
                    out.push(v);
                    j = j2 + 1;
                } else if b == 0x5d {
                    proof {
                        assert(s@.skip(j2 as int).drop_first() =~= s@.skip(j2 + 1));
                        assert(parse_elems(bit_p(), suf) == Some(
                            (seq![vm], s@.skip(j2 + 1)),
                        ));
                        assert(out.deep_view() + seq![vm] =~= out.deep_view().push(vm));
                    }
                    out.push(v);
                    return Some((out, j2 + 1));
                } else {
                    assert(parse_elems(bit_p(), suf) is None);
                    return None;
                }
            },
        }
    }
}

#[verifier::loop_isolation(false)]
pub fn scan_account_array(s: &Vec<u8>, i: usize) -> (r: Option<(Vec<AccountAchievement>, usize)>)
    requires
        i <= s.len(),
    ensures
        match r {
            Some((v, j)) => {
                &&& i <= j <= s.len()
                &&& parse_array(acct_p(), s@.skip(i as int)) == Some((v.deep_view(), s@.skip(j as int)))
            },
            None => parse_array(acct_p(), s@.skip(i as int)) is None,
        },
{
    let ghost whole = s@.skip(i as int);
    proof {
        assert(forall|m: int| 0 <= m < whole.len() ==> whole[m] == s@[i + m]);
    }
    if s.len() - i >= 2 && s[i] == 0x5b && s[i + 1] == 0x5d {
        let out: Vec<AccountAchievement> = Vec::new();
        proof {
            assert(whole.skip(2) =~= s@.skip(i + 2));
            assert(out.deep_view() =~= Seq::<AccountAchievementModel>::empty());
        }
        return Some((out, i + 2));
    }
    if i == s.len() || s[i] != 0x5b {
        return None;
    }
    assert(whole.drop_first() =~= s@.skip(i + 1));
    let mut out: Vec<AccountAchievement> = Vec::new();
    let mut j: usize = i + 1;
    loop
        invariant
            i + 1 <= j <= s.len(),
            parse_elems(acct_p(), s@.skip(i + 1)) == prepend_vals(
                out.deep_view(),
                parse_elems(acct_p(), s@.skip(j as int)),
            ),
        decreases s.len() - j,
    {
        let ghost suf = s@.skip(j as int);
        match scan_account(s, j) {
            None => {
                assert(parse_elems(acct_p(), suf) is None);
                return None;
            },
            Some((v, j2)) => {
                let ghost vm = v.deep_view();
                proof {
                    lemma_parse_account_len(suf);
                    assert(s@.skip(j2 as int).len() < suf.len());
                }
                if j2 == s.len() {
                    assert(parse_elems(acct_p(), suf) is None);
                    return None;
                }
                assert(s@.skip(j2 as int)[0] == s@[j2 as int]);
                let b = s[j2];
                if b == 0x2c {
                    proof {
                        assert(s@.skip(j2 as int).drop_first() =~= s@.skip(j2 + 1));
                        let inner = parse_elems(acct_p(), s@.skip(j2 + 1));
                        assert(parse_elems(acct_p(), suf) == prepend_vals(seq![vm], inner));
                        match inner {
                            Some((vs2, r2)) => {
                                assert(out.deep_view() + (seq![vm] + vs2) =~= out.deep_view().push(vm)
                                    + vs2);
                            },
                            None => {},
                        }
                    }
                    out.push(v);
                    j = j2 + 1;
                } else if b == 0x5d {
                    proof {
                        assert(s@.skip(j2 as int).drop_first() =~= s@.skip(j2 + 1));
                        assert(parse_elems(acct_p(), suf) == Some(
                            (seq![vm], s@.skip(j2 + 1)),
                        ));
                        assert(out.deep_view() + seq![vm] =~= out.deep_view().push(vm));
                    }
                    out.push(v);
                    return Some((out, j2 + 1));
                } else {
                    assert(parse_elems(acct_p(), suf) is None);
                    return None;
                }
            },
        }
    }
}

fn scan_cached_ids(s: &Vec<u8>, i: usize) -> (r: Option<(CachedItem<AllAchievementIDs>, usize)>)
    requires
        i <= s.len(),
    ensures
        match r {
            Some((c, j)) => {
                &&& i <= j <= s.len()
                &&& parse_cached(arr_usize_p(), s@.skip(i as int)) == Some(
                    (c.deep_view(), s@.skip(j as int)),
                )
            },
            None => parse_cached(arr_usize_p(), s@.skip(i as int)) is None,
        },
{
    let j1 = match scan_first_key(s, i, "expires") {
        Some(j) => j,
        None => {
            return None;
        },
    };
    let (expires, j2) = match scan_u64(s, j1) {
        Some(x) => x,
        None => {
            return None;
        },
    };
    let j3 = match scan_key(s, j2, "inner") {
        Some(j) => j,
        None => {
            return None;
        },
    };
    let (inner, j4) = match scan_usize_array(s, j3) {
        Some(x) => x,
        None => {
            return None;
        },
    };
    let j5 = match scan_rbrace(s, j4) {
        Some(j) => j,
        None => {
            return None;
        },
    };
    let c = CachedItem { inner: AllAchievementIDs(inner), expires };
    proof {
        assert(c.deep_view().inner =~= c.inner.0@);
    }
    Some((c, j5))
}

fn scan_cached_accts(s: &Vec<u8>, i: usize) -> (r: Option<
    (CachedItem<AllAccountAchievements>, usize),
>)
    requires
        i <= s.len(),
    ensures
        match r {
            Some((c, j)) => {
                &&& i <= j <= s.len()
                &&& parse_cached(arr_acct_p(), s@.skip(i as int)) == Some(
                    (c.deep_view(), s@.skip(j as int)),
                )
            },
            None => parse_cached(arr_acct_p(), s@.skip(i as int)) is None,
        },
{
    let j1 = match scan_first_key(s, i, "expires") {
        Some(j) => j,
        None => {
            return None;
        },
    };
    let (expires, j2) = match scan_u64(s, j1) {
        Some(x) => x,
        None => {
            return None;
        },
    };
    let j3 = match scan_key(s, j2, "inner") {
        Some(j) => j,
        None => {
            return None;
        },
    };
    let (inner, j4) = match scan_account_array(s, j3) {
        Some(x) => x,
        None => {
            return None;
        },
    };
    let j5 = match scan_rbrace(s, j4) {
        Some(j) => j,
        None => {
            return None;
        },
    };
    let c = CachedItem { inner: AllAccountAchievements(inner), expires };
    proof {
        assert(c.deep_view().inner =~= c.inner.0.deep_view());
    }
    Some((c, j5))
}

fn scan_cached_dailies(s: &Vec<u8>, i: usize) -> (r: Option<(CachedItem<Dailies>, usize)>)
    requires
        i <= s.len(),
    ensures
        match r {
            Some((c, j)) => {
                &&& i <= j <= s.len()
                &&& parse_cached(dailies_p(), s@.skip(i as int)) == Some(
                    (c.deep_view(), s@.skip(j as int)),
                )
            },
            None => parse_cached(dailies_p(), s@.skip(i as int)) is None,
        },
{
    let j1 = match scan_first_key(s, i, "expires") {
        Some(j) => j,
        None => {
            return None;
        },
    };
    let (expires, j2) = match scan_u64(s, j1) {
        Some(x) => x,
        None => {
            return None;
        },
    };
    let j3 = match scan_key(s, j2, "inner") {
        Some(j) => j,
        None => {
            return None;
        },
    };
    let (inner, j4) = match scan_dailies(s, j3) {
        Some(x) => x,
        None => {
            return None;
        },
    };
    let j5 = match scan_rbrace(s, j4) {
        Some(j) => j,
        None => {
            return None;
        },
    };
    Some((CachedItem { inner, expires }, j5))
}

fn scan_cached_ach(s: &Vec<u8>, i: usize) -> (r: Option<(CachedItem<Achievement>, usize)>)
    requires
        i <= s.len(),
    ensures
        match r {
            Some((c, j)) => {
                &&& i <= j <= s.len()
                &&& parse_cached(ach_p(), s@.skip(i as int)) == Some(
                    (c.deep_view(), s@.skip(j as int)),
                )
            },
            None => parse_cached(ach_p(), s@.skip(i as int)) is None,
        },
{
    let j1 = match scan_first_key(s, i, "expires") {
        Some(j) => j,
        None => {
            return None;
        },
    };
    let (expires, j2) = match scan_u64(s, j1) {
        Some(x) => x,
        None => {
            return None;
        },
    };
    let j3 = match scan_key(s, j2, "inner") {
        Some(j) => j,
        None => {
            return None;
        },
    };
    let (inner, j4) = match scan_achievement(s, j3) {
        Some(x) => x,
        None => {
            return None;
        },
    };
    let j5 = match scan_rbrace(s, j4) {
        Some(j) => j,
        None => {
            return None;
        },
    };
    Some((CachedItem { inner, expires }, j5))
}

pub fn scan_ach_entry(s: &Vec<u8>, i: usize) -> (r: Option<(CachedItem<Achievement>, usize)>)
    requires
        i <= s.len(),
    ensures
        match r {
            Some((c, j)) => {
                &&& i <= j <= s.len()
                &&& parse_ach_entry(s@.skip(i as int)) == Some(
                    (c.deep_view(), s@.skip(j as int)),
                )
            },
            None => parse_ach_entry(s@.skip(i as int)) is None,
        },
{
    proof {
        reveal(parse_ach_entry);
    }
    if i == s.len() || s[i] != 0x22 {
        if i < s.len() {
            assert(s@.skip(i as int)[0] == s@[i as int]);
        }
        return None;
    }
    assert(s@.skip(i as int)[0] == 0x22u8);
    assert(s@.skip(i as int).drop_first() =~= s@.skip(i + 1));
    let (k, j1) = match scan_u64(s, i + 1) {
        Some(x) => x,
        None => {
            return None;
        },
    };
    let ghost sufk = s@.skip(j1 as int);
    proof {
        assert(forall|m: int| 0 <= m < sufk.len() ==> sufk[m] == s@[j1 + m]);
    }
    if s.len() - j1 < 2 || !(s[j1] == 0x22 && s[j1 + 1] == 0x3a) {
        return None;
    }
    assert(sufk.skip(2) =~= s@.skip(j1 + 2));
    let (c, j2) = match scan_cached_ach(s, j1 + 2) {
        Some(x) => x,
        None => {
            return None;
        },
    };
    if k <= usize::MAX as u64 && c.inner.id as u64 == k {
        Some((c, j2))
    } else {
        None
    }
}

#[verifier::loop_isolation(false)]
pub fn scan_ach_map(s: &Vec<u8>, i: usize) -> (r: Option<(Vec<CachedItem<Achievement>>, usize)>)
    requires
        i <= s.len(),
    ensures
        match r {
            Some((v, j)) => {
                &&& i <= j <= s.len()
                &&& parse_ach_map(s@.skip(i as int)) == Some(
                    (v.deep_view(), s@.skip(j as int)),
                )
            },
            None => parse_ach_map(s@.skip(i as int)) is None,
        },
{
    let ghost whole = s@.skip(i as int);
    proof {
        assert(forall|m: int| 0 <= m < whole.len() ==> whole[m] == s@[i + m]);
    }
    if s.len() - i >= 2 && s[i] == 0x7b && s[i + 1] == 0x7d {
        let out: Vec<CachedItem<Achievement>> = Vec::new();
        proof {
            assert(whole.skip(2) =~= s@.skip(i + 2));
            assert(out.deep_view() =~= Seq::<CachedItem<AchievementModel>>::empty());
        }
        return Some((out, i + 2));
    }
    if i == s.len() || s[i] != 0x7b {
        return None;
    }
    assert(whole.drop_first() =~= s@.skip(i + 1));
    let mut out: Vec<CachedItem<Achievement>> = Vec::new();
    let mut j: usize = i + 1;
    loop
        invariant
            i + 1 <= j <= s.len(),
            parse_ach_entries(s@.skip(i + 1)) == prepend_vals(
                out.deep_view(),
                parse_ach_entries(s@.skip(j as int)),
            ),
        decreases s.len() - j,
    {
        let ghost suf = s@.skip(j as int);
        match scan_ach_entry(s, j) {
            None => {
                assert(parse_ach_entries(suf) is None);
                return None;
            },
            Some((v, j2)) => {
                let ghost vm = v.deep_view();
                proof {
                    lemma_parse_ach_entry_len(suf);
                    assert(s@.skip(j2 as int).len() < suf.len());
                }
                if j2 == s.len() {
                    assert(parse_ach_entries(suf) is None);
                    return None;
                }
                assert(s@.skip(j2 as int)[0] == s@[j2 as int]);
                let b = s[j2];
                if b == 0x2c {
                    proof {
                        assert(s@.skip(j2 as int).drop_first() =~= s@.skip(j2 + 1));
                        let inner = parse_ach_entries(s@.skip(j2 + 1));
                        assert(parse_ach_entries(suf) == prepend_vals(seq![vm], inner));
                        match inner {
                            Some((vs2, r2)) => {
                                assert(out.deep_view() + (seq![vm] + vs2) =~= out.deep_view().push(
                                    vm,
                                ) + vs2);
                            },
                            None => {},
                        }
                    }
                    out.push(v);
                    j = j2 + 1;
                } else if b == 0x7d {
                    proof {
                        assert(s@.skip(j2 as int).drop_first() =~= s@.skip(j2 + 1));
                        assert(parse_ach_entries(suf) == Some((seq![vm], s@.skip(j2 + 1))));
                        assert(out.deep_view() + seq![vm] =~= out.deep_view().push(vm));
                    }
                    out.push(v);
                    return Some((out, j2 + 1));
                } else {
                    assert(parse_ach_entries(suf) is None);
                    return None;
                }
            },
        }
    }
}

/// Scan a full cache document, yielding the four slots.
pub fn scan_store(s: &Vec<u8>, i: usize) -> (r: Option<
    (
        (
            Option<CachedItem<AllAchievementIDs>>,
            Vec<CachedItem<Achievement>>,
            Option<CachedItem<AllAccountAchievements>>,
            Option<CachedItem<Dailies>>,
        ),
        usize,
    ),
>)
    requires
        i <= s.len(),
    ensures
        match r {
            Some(((ids, achs, accts, dailies), j)) => {
                &&& i <= j <= s.len()
                &&& parse_store(s@.skip(i as int)) == Some(
                    (
                        crate::codec::StoreModel {
                            all_achievement_ids: ids.deep_view(),
                            achievements: achs.deep_view(),
                            account_achievements: accts.deep_view(),
                            dailies: dailies.deep_view(),
                        },
                        s@.skip(j as int),
                    ),
                )
            },
            None => parse_store(s@.skip(i as int)) is None,
        },
{
    proof {
        reveal(parse_store);
        reveal(parse_store_rest);
    }
    let j1 = match scan_first_key(s, i, "all_achievements_ids") {
        Some(j) => j,
        None => {
            return None;
        },
    };
    let (ids, j2) = match scan_null(s, j1) {
        Some(j) => (None, j),
        None => match scan_cached_ids(s, j1) {
            Some((c, j)) => (Some(c), j),
            None => {
                return None;
            },
        },
    };
    let j3 = match scan_key(s, j2, "achievements") {
        Some(j) => j,
        None => {
            return None;
        },
    };
    let (achs, j4) = match scan_ach_map(s, j3) {
        Some(x) => x,
        None => {
            return None;
        },
    };
    let j5 = match scan_key(s, j4, "account_achievements") {
        Some(j) => j,
        None => {
            return None;
        },
    };
    let (accts, j6) = match scan_null(s, j5) {
        Some(j) => (None, j),
        None => match scan_cached_accts(s, j5) {
            Some((c, j)) => (Some(c), j),
            None => {
                return None;
            },
        },
    };
    let j7 = match scan_key(s, j6, "dailies") {
        Some(j) => j,
        None => {
            return None;
        },
    };
    let (dailies, j8) = match scan_null(s, j7) {
        Some(j) => (None, j),
        None => match scan_cached_dailies(s, j7) {
            Some((c, j)) => (Some(c), j),
            None => {
                return None;
            },
        },
    };
    let j9 = match scan_rbrace(s, j8) {
        Some(j) => j,
        None => {
            return None;
        },
    };
    Some(((ids, achs, accts, dailies), j9))
}


} // verus!
