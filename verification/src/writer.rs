//! Executable serialization: each emitter appends exactly the bytes that the
//! corresponding `ser_*` spec function describes.

use vstd::prelude::*;

use crate::api::AccessCondition;
use crate::api::AccountAchievement;
use crate::api::Achievement;
use crate::api::AchievementBit;
use crate::api::AchievementTier;
use crate::api::Dailies;
use crate::api::Daily;
use crate::api::LevelRange;
use crate::api::Product;
use crate::api::RequiredAccess;
use crate::api::Reward;
use crate::cache::CachedItem;
use crate::api::AllAccountAchievements;
use crate::api::AllAchievementIDs;
use crate::codec::StoreModel;
use crate::codec::ach_s;
use crate::codec::acct_s;
use crate::codec::arr_acct_s;
use crate::codec::arr_usize_s;
use crate::codec::dailies_s;
use crate::codec::lemma_ser_ach_entries_snoc;
use crate::codec::ser_ach_entries;
use crate::codec::ser_ach_entry;
use crate::codec::ser_ach_map;
use crate::codec::ser_store;
use crate::codec::ser_store_rest;
use crate::codec::bit_s;
use crate::codec::daily_s;
use crate::codec::jstr_s;
use crate::codec::reward_s;
use crate::codec::ser_access;
use crate::codec::ser_account;
use crate::codec::ser_acct_rest2;
use crate::codec::ser_acct_rest3;
use crate::codec::ser_ach_c2;
use crate::codec::ser_ach_c3;
use crate::codec::ser_ach_c4;
use crate::codec::ser_ach_c5;
use crate::codec::ser_ach_c6;
use crate::codec::ser_ach_c7;
use crate::codec::ser_achievement;
use crate::codec::ser_bit;
use crate::codec::ser_daily;
use crate::codec::ser_dailies;
use crate::codec::ser_dailies_rest1;
use crate::codec::ser_dailies_rest2;
use crate::codec::ser_dailies_rest3;
use crate::codec::ser_dailies_rest4;
use crate::codec::ser_i32;
use crate::codec::ser_level_range;
use crate::codec::ser_product;
use crate::codec::ser_required_access;
use crate::codec::ser_reward;
use crate::codec::ser_tier;
use crate::codec::ser_usize;
use crate::codec::tier_s;
use crate::codec::usize_s;
use crate::combinators::null_lit;
use crate::combinators::ser_array;
use crate::combinators::ser_cached;
use crate::combinators::ser_elems;
use crate::combinators::ser_opt;
use crate::combinators::lemma_ser_elems_snoc;
use crate::json::emit_bool;
use crate::json::emit_first_key;
use crate::json::emit_jstring;
use crate::json::emit_key;
use crate::json::emit_lit;
use crate::json::emit_u64;

verus! {

/// Append `null`.
pub fn emit_null(buf: &mut Vec<u8>)
    ensures
        final(buf)@ == old(buf)@ + null_lit(),
{
    buf.push(0x6e);
    buf.push(0x75);
    buf.push(0x6c);
    buf.push(0x6c);
    assert(buf@ =~= old(buf)@ + null_lit());
}

pub fn emit_usize(buf: &mut Vec<u8>, v: usize)
    ensures
        final(buf)@ == old(buf)@ + ser_usize(v),
{
    emit_u64(buf, v as u64);
}

pub fn emit_i32(buf: &mut Vec<u8>, v: i32)
    ensures
        final(buf)@ == old(buf)@ + ser_i32(v),
{
    if v >= 0 {
        emit_u64(buf, v as u64);
    } else {
        buf.push(0x2d);
        let m = (-(v as i64)) as u64;
        assert(m == (-(v as int)) as u64);
        emit_u64(buf, m);
        assert(buf@ =~= old(buf)@ + ser_i32(v));
    }
}

pub fn emit_tier(buf: &mut Vec<u8>, t: &AchievementTier)
    ensures
        final(buf)@ == old(buf)@ + ser_tier(*t),
{
    proof {
        reveal(ser_tier);
    }
    emit_first_key(buf, "count");
    emit_u64(buf, t.count as u64);
    emit_key(buf, "points");
    emit_u64(buf, t.points as u64);
    buf.push(0x7d);
    assert(buf@ =~= old(buf)@ + ser_tier(*t));
}

pub fn emit_tier_array(buf: &mut Vec<u8>, v: &Vec<AchievementTier>)
    ensures
        final(buf)@ == old(buf)@ + ser_array(tier_s(), v@),
{
    let n = v.len();
    if n == 0 {
        buf.push(0x5b);
        buf.push(0x5d);
        assert(buf@ =~= old(buf)@ + ser_array(tier_s(), v@));
        return ;
    }
    buf.push(0x5b);
    let mut k: usize = 0;
    while k < n
        invariant
            0 < n == v.len(),
            0 <= k <= n,
            k == 0 ==> buf@ == old(buf)@ + seq![0x5bu8],
            k > 0 ==> buf@ == old(buf)@ + seq![0x5bu8] + ser_elems(tier_s(), v@.take(k as int)),
        decreases n - k,
    {
        if k > 0 {
            buf.push(0x2c);
        }
        emit_tier(buf, &v[k]);
        proof {
            lemma_ser_elems_snoc(tier_s(), v@.take(k as int), v@[k as int]);
            assert(v@.take(k + 1) =~= v@.take(k as int).push(v@[k as int]));
            assert(buf@ =~= old(buf)@ + seq![0x5bu8] + ser_elems(tier_s(), v@.take(k + 1)));
        }
        k += 1;
    }
    buf.push(0x5d);
    proof {
        assert(v@.take(n as int) =~= v@);
        assert(buf@ =~= old(buf)@ + ser_array(tier_s(), v@));
    }
}

pub fn emit_usize_array(buf: &mut Vec<u8>, v: &Vec<usize>)
    ensures
        final(buf)@ == old(buf)@ + ser_array(usize_s(), v@),
{
    let n = v.len();
    if n == 0 {
        buf.push(0x5b);
        buf.push(0x5d);
        assert(buf@ =~= old(buf)@ + ser_array(usize_s(), v@));
        return ;
    }
    buf.push(0x5b);
    let mut k: usize = 0;
    while k < n
        invariant
            0 < n == v.len(),
            0 <= k <= n,
            k == 0 ==> buf@ == old(buf)@ + seq![0x5bu8],
            k > 0 ==> buf@ == old(buf)@ + seq![0x5bu8] + ser_elems(usize_s(), v@.take(k as int)),
        decreases n - k,
    {
        if k > 0 {
            buf.push(0x2c);
        }
        emit_usize(buf, v[k]);
        proof {
            lemma_ser_elems_snoc(usize_s(), v@.take(k as int), v@[k as int]);
            assert(v@.take(k + 1) =~= v@.take(k as int).push(v@[k as int]));
            assert(buf@ =~= old(buf)@ + seq![0x5bu8] + ser_elems(usize_s(), v@.take(k + 1)));
        }
        k += 1;
    }
    buf.push(0x5d);
    proof {
        assert(v@.take(n as int) =~= v@);
        assert(buf@ =~= old(buf)@ + ser_array(usize_s(), v@));
    }
}

pub fn emit_string_array(buf: &mut Vec<u8>, v: &Vec<String>)
    ensures
        final(buf)@ == old(buf)@ + ser_array(jstr_s(), v.deep_view()),
{
    let n = v.len();
    let ghost dv = v.deep_view();
    proof {
        assert(dv.len() == n);
    }
    if n == 0 {
        buf.push(0x5b);
        buf.push(0x5d);
        assert(buf@ =~= old(buf)@ + ser_array(jstr_s(), dv));
        return ;
    }
    buf.push(0x5b);
    let mut k: usize = 0;
    while k < n
        invariant
            0 < n == v.len(),
            dv == v.deep_view(),
            dv.len() == n,
            0 <= k <= n,
            k == 0 ==> buf@ == old(buf)@ + seq![0x5bu8],
            k > 0 ==> buf@ == old(buf)@ + seq![0x5bu8] + ser_elems(jstr_s(), dv.take(k as int)),
        decreases n - k,
    {
        if k > 0 {
            buf.push(0x2c);
        }
        emit_jstring(buf, v[k].as_str());
        proof {
            assert(dv[k as int] == v@[k as int]@);
            lemma_ser_elems_snoc(jstr_s(), dv.take(k as int), dv[k as int]);
            assert(dv.take(k + 1) =~= dv.take(k as int).push(dv[k as int]));
            assert(buf@ =~= old(buf)@ + seq![0x5bu8] + ser_elems(jstr_s(), dv.take(k + 1)));
        }
        k += 1;
    }
    buf.push(0x5d);
    proof {
        assert(dv.take(n as int) =~= dv);
        assert(buf@ =~= old(buf)@ + ser_array(jstr_s(), dv));
    }
}

pub fn emit_reward(buf: &mut Vec<u8>, r: &Reward)
    ensures
        final(buf)@ == old(buf)@ + ser_reward(r.deep_view()),
{
    proof {
        reveal(ser_reward);
    }
    match r {
        Reward::Coins { count } => {
            emit_first_key(buf, "type");
            buf.push(0x22);
            emit_lit(buf, "Coins");
            buf.push(0x22);
            emit_key(buf, "count");
            emit_u64(buf, *count as u64);
            buf.push(0x7d);
            assert(buf@ =~= old(buf)@ + ser_reward(r.deep_view()));
        },
        Reward::Item { id, count } => {
            emit_first_key(buf, "type");
            buf.push(0x22);
            emit_lit(buf, "Item");
            buf.push(0x22);
            emit_key(buf, "id");
            emit_u64(buf, *id as u64);
            emit_key(buf, "count");
            emit_u64(buf, *count as u64);
            buf.push(0x7d);
            assert(buf@ =~= old(buf)@ + ser_reward(r.deep_view()));
        },
        Reward::Mastery { id, region } => {
            emit_first_key(buf, "type");
            buf.push(0x22);
            emit_lit(buf, "Mastery");
            buf.push(0x22);
            emit_key(buf, "id");
            emit_u64(buf, *id as u64);
            emit_key(buf, "region");
            emit_jstring(buf, region.as_str());
            buf.push(0x7d);
            assert(buf@ =~= old(buf)@ + ser_reward(r.deep_view()));
        },
        Reward::Title { id } => {
            emit_first_key(buf, "type");
            buf.push(0x22);
            emit_lit(buf, "Title");
            buf.push(0x22);
            emit_key(buf, "id");
            emit_u64(buf, *id as u64);
            buf.push(0x7d);
            assert(buf@ =~= old(buf)@ + ser_reward(r.deep_view()));
        },
    }
}

pub fn emit_reward_array(buf: &mut Vec<u8>, v: &Vec<Reward>)
    ensures
        final(buf)@ == old(buf)@ + ser_array(reward_s(), v.deep_view()),
{
    let n = v.len();
    let ghost dv = v.deep_view();
    proof {
        assert(dv.len() == n);
    }
    if n == 0 {
        buf.push(0x5b);
        buf.push(0x5d);
        assert(buf@ =~= old(buf)@ + ser_array(reward_s(), dv));
        return ;
    }
    buf.push(0x5b);
    let mut k: usize = 0;
    while k < n
        invariant
            0 < n == v.len(),
            dv == v.deep_view(),
            dv.len() == n,
            0 <= k <= n,
            k == 0 ==> buf@ == old(buf)@ + seq![0x5bu8],
            k > 0 ==> buf@ == old(buf)@ + seq![0x5bu8] + ser_elems(reward_s(), dv.take(k as int)),
        decreases n - k,
    {
        if k > 0 {
            buf.push(0x2c);
        }
        emit_reward(buf, &v[k]);
        proof {
            assert(dv[k as int] == v@[k as int].deep_view());
            lemma_ser_elems_snoc(reward_s(), dv.take(k as int), dv[k as int]);
            assert(dv.take(k + 1) =~= dv.take(k as int).push(dv[k as int]));
            assert(buf@ =~= old(buf)@ + seq![0x5bu8] + ser_elems(reward_s(), dv.take(k + 1)));
        }
        k += 1;
    }
    buf.push(0x5d);
    proof {
        assert(dv.take(n as int) =~= dv);
        assert(buf@ =~= old(buf)@ + ser_array(reward_s(), dv));
    }
}

fn emit_opt_string(buf: &mut Vec<u8>, v: &Option<String>)
    ensures
        final(buf)@ == old(buf)@ + ser_opt(jstr_s(), v.deep_view()),
{
    match v {
        None => emit_null(buf),
        Some(st) => emit_jstring(buf, st.as_str()),
    }
}

fn emit_opt_usize(buf: &mut Vec<u8>, v: &Option<usize>)
    ensures
        final(buf)@ == old(buf)@ + ser_opt(usize_s(), v.deep_view()),
{
    match v {
        None => emit_null(buf),
        Some(x) => emit_usize(buf, *x),
    }
}

pub fn emit_bit(buf: &mut Vec<u8>, b: &AchievementBit)
    ensures
        final(buf)@ == old(buf)@ + ser_bit(b.deep_view()),
{
    proof {
        reveal(ser_bit);
    }
    emit_first_key(buf, "bit_type");
    emit_opt_string(buf, &b.bit_type);
    emit_key(buf, "id");
    emit_opt_usize(buf, &b.id);
    emit_key(buf, "text");
    emit_opt_string(buf, &b.text);
    buf.push(0x7d);
    assert(buf@ =~= old(buf)@ + ser_bit(b.deep_view()));
}

pub fn emit_bit_array(buf: &mut Vec<u8>, v: &Vec<AchievementBit>)
    ensures
        final(buf)@ == old(buf)@ + ser_array(bit_s(), v.deep_view()),
{
    let n = v.len();
    let ghost dv = v.deep_view();
    proof {
        assert(dv.len() == n);
    }
    if n == 0 {
        buf.push(0x5b);
        buf.push(0x5d);
        assert(buf@ =~= old(buf)@ + ser_array(bit_s(), dv));
        return ;
    }
    buf.push(0x5b);
    let mut k: usize = 0;
    while k < n
        invariant
            0 < n == v.len(),
            dv == v.deep_view(),
            dv.len() == n,
            0 <= k <= n,
            k == 0 ==> buf@ == old(buf)@ + seq![0x5bu8],
            k > 0 ==> buf@ == old(buf)@ + seq![0x5bu8] + ser_elems(bit_s(), dv.take(k as int)),
        decreases n - k,
    {
        if k > 0 {
            buf.push(0x2c);
        }
        emit_bit(buf, &v[k]);
        proof {
            assert(dv[k as int] == v@[k as int].deep_view());
            lemma_ser_elems_snoc(bit_s(), dv.take(k as int), dv[k as int]);
            assert(dv.take(k + 1) =~= dv.take(k as int).push(dv[k as int]));
            assert(buf@ =~= old(buf)@ + seq![0x5bu8] + ser_elems(bit_s(), dv.take(k + 1)));
        }
        k += 1;
    }
    buf.push(0x5d);
    proof {
        assert(dv.take(n as int) =~= dv);
        assert(buf@ =~= old(buf)@ + ser_array(bit_s(), dv));
    }
}

fn emit_ach_c7(buf: &mut Vec<u8>, point_cap: &Option<i32>)
    ensures
        final(buf)@ == old(buf)@ + ser_ach_c7(point_cap.deep_view()),
{
    proof {
        reveal(ser_ach_c7);
    }
    emit_key(buf, "point_cap");
    match point_cap {
        None => emit_null(buf),
        Some(pc) => emit_i32(buf, *pc),
    }
    buf.push(0x7d);
    assert(buf@ =~= old(buf)@ + ser_ach_c7(point_cap.deep_view()));
}

fn emit_ach_c6(
    buf: &mut Vec<u8>,
    rewards: &Option<Vec<Reward>>,
    bits: &Option<Vec<AchievementBit>>,
    point_cap: &Option<i32>,
)
    ensures
        final(buf)@ == old(buf)@ + ser_ach_c6(
            rewards.deep_view(),
            bits.deep_view(),
            point_cap.deep_view(),
        ),
{
    proof {
        reveal(ser_ach_c6);
    }
    emit_key(buf, "rewards");
    match rewards {
        None => emit_null(buf),
        Some(rs) => emit_reward_array(buf, rs),
    }
    emit_key(buf, "bits");
    match bits {
        None => emit_null(buf),
        Some(bs) => emit_bit_array(buf, bs),
    }
    emit_ach_c7(buf, point_cap);
    assert(buf@ =~= old(buf)@ + ser_ach_c6(
        rewards.deep_view(),
        bits.deep_view(),
        point_cap.deep_view(),
    ));
}

fn emit_ach_c5(
    buf: &mut Vec<u8>,
    tiers: &Vec<AchievementTier>,
    prerequisites: &Option<Vec<usize>>,
    rewards: &Option<Vec<Reward>>,
    bits: &Option<Vec<AchievementBit>>,
    point_cap: &Option<i32>,
)
    ensures
        final(buf)@ == old(buf)@ + ser_ach_c5(
            tiers.deep_view(),
            prerequisites.deep_view(),
            rewards.deep_view(),
            bits.deep_view(),
            point_cap.deep_view(),
        ),
{
    proof {
        reveal(ser_ach_c5);
        assert(tiers.deep_view() =~= tiers@);
    }
    emit_key(buf, "tiers");
    emit_tier_array(buf, tiers);
    emit_key(buf, "prerequisites");
    match prerequisites {
        None => emit_null(buf),
        Some(p) => {
            emit_usize_array(buf, p);
            proof {
                assert(p.deep_view() =~= p@);
            }
        },
    }
    emit_ach_c6(buf, rewards, bits, point_cap);
    assert(buf@ =~= old(buf)@ + ser_ach_c5(
        tiers.deep_view(),
        prerequisites.deep_view(),
        rewards.deep_view(),
        bits.deep_view(),
        point_cap.deep_view(),
    ));
}

#[verifier::rlimit(50)]
pub fn emit_achievement(buf: &mut Vec<u8>, a: &Achievement)
    ensures
        final(buf)@ == old(buf)@ + ser_achievement(a.deep_view()),
{
    let ghost m = a.deep_view();
    emit_first_key(buf, "id");
    emit_u64(buf, a.id as u64);
    emit_key(buf, "icon");
    emit_opt_string(buf, &a.icon);
    let ghost mid1 = buf@;
    emit_key(buf, "name");
    emit_jstring(buf, a.name.as_str());
    emit_key(buf, "description");
    emit_jstring(buf, a.description.as_str());
    let ghost mid2 = buf@;
    emit_key(buf, "requirement");
    emit_jstring(buf, a.requirement.as_str());
    emit_key(buf, "locked_text");
    emit_jstring(buf, a.locked_text.as_str());
    let ghost mid3 = buf@;
    emit_key(buf, "achievement_type");
    emit_jstring(buf, a.achievement_type.as_str());
    emit_key(buf, "flags");
    emit_string_array(buf, &a.flags);
    emit_ach_c5(buf, &a.tiers, &a.prerequisites, &a.rewards, &a.bits, &a.point_cap);
    proof {
        assert(buf@ =~= mid3 + ser_ach_c4(
            m.achievement_type,
            m.flags,
            m.tiers,
            m.prerequisites,
            m.rewards,
            m.bits,
            m.point_cap,
        )) by {
            reveal(ser_ach_c4);
        }
        assert(buf@ =~= mid2 + ser_ach_c3(
            m.requirement,
            m.locked_text,
            m.achievement_type,
            m.flags,
            m.tiers,
            m.prerequisites,
            m.rewards,
            m.bits,
            m.point_cap,
        )) by {
            reveal(ser_ach_c3);
        }
        assert(buf@ =~= mid1 + ser_ach_c2(
            m.name,
            m.description,
            m.requirement,
            m.locked_text,
            m.achievement_type,
            m.flags,
            m.tiers,
            m.prerequisites,
            m.rewards,
            m.bits,
            m.point_cap,
        )) by {
            reveal(ser_ach_c2);
        }
        assert(buf@ =~= old(buf)@ + ser_achievement(m)) by {
            reveal(ser_achievement);
        }
    }
}

pub fn emit_level_range(buf: &mut Vec<u8>, v: &LevelRange)
    ensures
        final(buf)@ == old(buf)@ + ser_level_range(*v),
{
    proof {
        reveal(ser_level_range);
    }
    emit_first_key(buf, "min");
    emit_u64(buf, v.min as u64);
    emit_key(buf, "max");
    emit_u64(buf, v.max as u64);
    buf.push(0x7d);
    assert(buf@ =~= old(buf)@ + ser_level_range(*v));
}

pub fn emit_required_access(buf: &mut Vec<u8>, v: &RequiredAccess)
    ensures
        final(buf)@ == old(buf)@ + ser_required_access(*v),
{
    proof {
        reveal(ser_required_access);
        reveal(ser_product);
        reveal(ser_access);
    }
    emit_first_key(buf, "product");
    buf.push(0x22);
    match v.product {
        Product::HeartOfThorns => emit_lit(buf, "HeartOfThorns"),
        Product::PathOfFire => emit_lit(buf, "PathOfFire"),
    }
    buf.push(0x22);
    emit_key(buf, "condition");
    buf.push(0x22);
    match v.condition {
        AccessCondition::HasAccess => emit_lit(buf, "HasAccess"),
        AccessCondition::NoAccess => emit_lit(buf, "NoAccess"),
    }
    buf.push(0x22);
    buf.push(0x7d);
    assert(buf@ =~= old(buf)@ + ser_required_access(*v));
}

pub fn emit_daily(buf: &mut Vec<u8>, v: &Daily)
    ensures
        final(buf)@ == old(buf)@ + ser_daily(*v),
{
    proof {
        reveal(ser_daily);
    }
    emit_first_key(buf, "id");
    emit_u64(buf, v.id as u64);
    emit_key(buf, "level");
    emit_level_range(buf, &v.level);
    emit_key(buf, "required_access");
    match &v.required_access {
        None => emit_null(buf),
        Some(ra) => emit_required_access(buf, ra),
    }
    buf.push(0x7d);
    assert(buf@ =~= old(buf)@ + ser_daily(*v));
}

pub fn emit_daily_array(buf: &mut Vec<u8>, v: &Vec<Daily>)
    ensures
        final(buf)@ == old(buf)@ + ser_array(daily_s(), v@),
{
    let n = v.len();
    if n == 0 {
        buf.push(0x5b);
        buf.push(0x5d);
        assert(buf@ =~= old(buf)@ + ser_array(daily_s(), v@));
        return ;
    }
    buf.push(0x5b);
    let mut k: usize = 0;
    while k < n
        invariant
            0 < n == v.len(),
            0 <= k <= n,
            k == 0 ==> buf@ == old(buf)@ + seq![0x5bu8],
            k > 0 ==> buf@ == old(buf)@ + seq![0x5bu8] + ser_elems(daily_s(), v@.take(k as int)),
        decreases n - k,
    {
        if k > 0 {
            buf.push(0x2c);
        }
        emit_daily(buf, &v[k]);
        proof {
            lemma_ser_elems_snoc(daily_s(), v@.take(k as int), v@[k as int]);
            assert(v@.take(k + 1) =~= v@.take(k as int).push(v@[k as int]));
            assert(buf@ =~= old(buf)@ + seq![0x5bu8] + ser_elems(daily_s(), v@.take(k + 1)));
        }
        k += 1;
    }
    buf.push(0x5d);
    proof {
        assert(v@.take(n as int) =~= v@);
        assert(buf@ =~= old(buf)@ + ser_array(daily_s(), v@));
    }
}

pub fn emit_dailies(buf: &mut Vec<u8>, v: &Dailies)
    ensures
        final(buf)@ == old(buf)@ + ser_dailies(v.deep_view()),
{
    let ghost m = v.deep_view();
    proof {
        assert(v.pve.deep_view() =~= v.pve@);
        assert(v.pvp.deep_view() =~= v.pvp@);
        assert(v.wvw.deep_view() =~= v.wvw@);
        assert(v.fractals.deep_view() =~= v.fractals@);
        assert(v.special.deep_view() =~= v.special@);
    }
    emit_first_key(buf, "pve");
    emit_daily_array(buf, &v.pve);
    emit_key(buf, "pvp");
    emit_daily_array(buf, &v.pvp);
    let ghost mid1 = buf@;
    emit_key(buf, "wvw");
    emit_daily_array(buf, &v.wvw);
    let ghost mid2 = buf@;
    emit_key(buf, "fractals");
    emit_daily_array(buf, &v.fractals);
    let ghost mid3 = buf@;
    emit_key(buf, "special");
    emit_daily_array(buf, &v.special);
    buf.push(0x7d);
    proof {
        assert(buf@ =~= mid3 + ser_dailies_rest4(m.special)) by {
            reveal(ser_dailies_rest4);
        }
        assert(buf@ =~= mid2 + ser_dailies_rest3(m.fractals, m.special)) by {
            reveal(ser_dailies_rest3);
        }
        assert(buf@ =~= mid1 + ser_dailies_rest2(m.wvw, m.fractals, m.special)) by {
            reveal(ser_dailies_rest2);
        }
        assert(buf@ =~= old(buf)@ + ser_dailies(m)) by {
            reveal(ser_dailies);
            reveal(ser_dailies_rest1);
        }
    }
}

fn emit_acct_rest3(buf: &mut Vec<u8>, repeated: &Option<usize>, unlocked: &Option<bool>)
    ensures
        final(buf)@ == old(buf)@ + ser_acct_rest3(repeated.deep_view(), unlocked.deep_view()),
{
    proof {
        reveal(ser_acct_rest3);
    }
    emit_key(buf, "repeated");
    emit_opt_usize(buf, repeated);
    emit_key(buf, "unlocked");
    match unlocked {
        None => emit_null(buf),
        Some(b) => emit_bool(buf, *b),
    }
    buf.push(0x7d);
    assert(buf@ =~= old(buf)@ + ser_acct_rest3(repeated.deep_view(), unlocked.deep_view()));
}

fn emit_acct_rest2(
    buf: &mut Vec<u8>,
    max: &Option<usize>,
    done: bool,
    repeated: &Option<usize>,
    unlocked: &Option<bool>,
)
    ensures
        final(buf)@ == old(buf)@ + ser_acct_rest2(
            max.deep_view(),
            done,
            repeated.deep_view(),
            unlocked.deep_view(),
        ),
{
    proof {
        reveal(ser_acct_rest2);
    }
    emit_key(buf, "max");
    emit_opt_usize(buf, max);
    emit_key(buf, "done");
    emit_bool(buf, done);
    emit_acct_rest3(buf, repeated, unlocked);
    assert(buf@ =~= old(buf)@ + ser_acct_rest2(
        max.deep_view(),
        done,
        repeated.deep_view(),
        unlocked.deep_view(),
    ));
}

#[verifier::rlimit(50)]
pub fn emit_account(buf: &mut Vec<u8>, v: &AccountAchievement)
    ensures
        final(buf)@ == old(buf)@ + ser_account(v.deep_view()),
{
    emit_first_key(buf, "id");
    emit_u64(buf, v.id as u64);
    emit_key(buf, "bits");
    match &v.bits {
        None => emit_null(buf),
        Some(bs) => {
            emit_usize_array(buf, bs);
            proof {
                assert(bs.deep_view() =~= bs@);
            }
        },
    }
    emit_key(buf, "current");
    emit_opt_usize(buf, &v.current);
    emit_acct_rest2(buf, &v.max, v.done, &v.repeated, &v.unlocked);
    assert(buf@ =~= old(buf)@ + ser_account(v.deep_view())) by {
        reveal(ser_account);
    }
}

pub fn emit_account_array(buf: &mut Vec<u8>, v: &Vec<AccountAchievement>)
    ensures
        final(buf)@ == old(buf)@ + ser_array(acct_s(), v.deep_view()),
{
    let n = v.len();
    let ghost dv = v.deep_view();
    proof {
        assert(dv.len() == n);
    }
    if n == 0 {
        buf.push(0x5b);
        buf.push(0x5d);
        assert(buf@ =~= old(buf)@ + ser_array(acct_s(), dv));
        return ;
    }
    buf.push(0x5b);
    let mut k: usize = 0;
    while k < n
        invariant
            0 < n == v.len(),
            dv == v.deep_view(),
            dv.len() == n,
            0 <= k <= n,
            k == 0 ==> buf@ == old(buf)@ + seq![0x5bu8],
            k > 0 ==> buf@ == old(buf)@ + seq![0x5bu8] + ser_elems(acct_s(), dv.take(k as int)),
        decreases n - k,
    {
        if k > 0 {
            buf.push(0x2c);
        }
        emit_account(buf, &v[k]);
        proof {
            assert(dv[k as int] == v@[k as int].deep_view());
            lemma_ser_elems_snoc(acct_s(), dv.take(k as int), dv[k as int]);
            assert(dv.take(k + 1) =~= dv.take(k as int).push(dv[k as int]));
            assert(buf@ =~= old(buf)@ + seq![0x5bu8] + ser_elems(acct_s(), dv.take(k + 1)));
        }
        k += 1;
    }
    buf.push(0x5d);
    proof {
        assert(dv.take(n as int) =~= dv);
        assert(buf@ =~= old(buf)@ + ser_array(acct_s(), dv));
    }
}

pub fn emit_cached_ids(buf: &mut Vec<u8>, c: &CachedItem<AllAchievementIDs>)
    ensures
        final(buf)@ == old(buf)@ + ser_cached(arr_usize_s(), c.deep_view()),
{
    emit_first_key(buf, "expires");
    emit_u64(buf, c.expires);
    emit_key(buf, "inner");
    emit_usize_array(buf, &c.inner.0);
    buf.push(0x7d);
    proof {
        assert(c.deep_view().inner =~= c.inner.0@);
        assert(buf@ =~= old(buf)@ + ser_cached(arr_usize_s(), c.deep_view()));
    }
}

pub fn emit_cached_accts(buf: &mut Vec<u8>, c: &CachedItem<AllAccountAchievements>)
    ensures
        final(buf)@ == old(buf)@ + ser_cached(arr_acct_s(), c.deep_view()),
{
    emit_first_key(buf, "expires");
    emit_u64(buf, c.expires);
    emit_key(buf, "inner");
    emit_account_array(buf, &c.inner.0);
    buf.push(0x7d);
    proof {
        assert(c.deep_view().inner =~= c.inner.0.deep_view());
        assert(buf@ =~= old(buf)@ + ser_cached(arr_acct_s(), c.deep_view()));
    }
}

pub fn emit_cached_dailies(buf: &mut Vec<u8>, c: &CachedItem<Dailies>)
    ensures
        final(buf)@ == old(buf)@ + ser_cached(dailies_s(), c.deep_view()),
{
    emit_first_key(buf, "expires");
    emit_u64(buf, c.expires);
    emit_key(buf, "inner");
    emit_dailies(buf, &c.inner);
    buf.push(0x7d);
    assert(buf@ =~= old(buf)@ + ser_cached(dailies_s(), c.deep_view()));
}

pub fn emit_ach_entry(buf: &mut Vec<u8>, c: &CachedItem<Achievement>)
    ensures
        final(buf)@ == old(buf)@ + ser_ach_entry(c.deep_view()),
{
    proof {
        reveal(ser_ach_entry);
    }
    buf.push(0x22);
    emit_u64(buf, c.inner.id as u64);
    buf.push(0x22);
    buf.push(0x3a);
    let ghost mid = buf@;
    emit_first_key(buf, "expires");
    emit_u64(buf, c.expires);
    emit_key(buf, "inner");
    emit_achievement(buf, &c.inner);
    buf.push(0x7d);
    proof {
        assert(buf@ =~= mid + ser_cached(ach_s(), c.deep_view()));
        assert(buf@ =~= old(buf)@ + ser_ach_entry(c.deep_view()));
    }
}

pub fn emit_ach_map(buf: &mut Vec<u8>, v: &Vec<CachedItem<Achievement>>)
    ensures
        final(buf)@ == old(buf)@ + ser_ach_map(v.deep_view()),
{
    let n = v.len();
    let ghost dv = v.deep_view();
    proof {
        assert(dv.len() == n);
    }
    if n == 0 {
        buf.push(0x7b);
        buf.push(0x7d);
        assert(buf@ =~= old(buf)@ + ser_ach_map(dv));
        return ;
    }
    buf.push(0x7b);
    let mut k: usize = 0;
    while k < n
        invariant
            0 < n == v.len(),
            dv == v.deep_view(),
            dv.len() == n,
            0 <= k <= n,
            k == 0 ==> buf@ == old(buf)@ + seq![0x7bu8],
            k > 0 ==> buf@ == old(buf)@ + seq![0x7bu8] + ser_ach_entries(dv.take(k as int)),
        decreases n - k,
    {
        if k > 0 {
            buf.push(0x2c);
        }
        emit_ach_entry(buf, &v[k]);
        proof {
            assert(dv[k as int] == v@[k as int].deep_view());
            lemma_ser_ach_entries_snoc(dv.take(k as int), dv[k as int]);
            assert(dv.take(k + 1) =~= dv.take(k as int).push(dv[k as int]));
            assert(buf@ =~= old(buf)@ + seq![0x7bu8] + ser_ach_entries(dv.take(k + 1)));
        }
        k += 1;
    }
    buf.push(0x7d);
    proof {
        assert(dv.take(n as int) =~= dv);
        assert(buf@ =~= old(buf)@ + ser_ach_map(dv));
    }
}

/// Write a whole cache document from its four slots.
#[verifier::rlimit(50)]
pub fn emit_store(
    buf: &mut Vec<u8>,
    ids: &Option<CachedItem<AllAchievementIDs>>,
    achs: &Vec<CachedItem<Achievement>>,
    accts: &Option<CachedItem<AllAccountAchievements>>,
    dailies: &Option<CachedItem<Dailies>>,
)
    ensures
        final(buf)@ == old(buf)@ + ser_store(
            StoreModel {
                all_achievement_ids: ids.deep_view(),
                achievements: achs.deep_view(),
                account_achievements: accts.deep_view(),
                dailies: dailies.deep_view(),
            },
        ),
{
    emit_first_key(buf, "all_achievements_ids");
    match ids {
        None => emit_null(buf),
        Some(c) => emit_cached_ids(buf, c),
    }
    emit_key(buf, "achievements");
    emit_ach_map(buf, achs);
    let ghost mid = buf@;
    emit_key(buf, "account_achievements");
    match accts {
        None => emit_null(buf),
        Some(c) => emit_cached_accts(buf, c),
    }
    emit_key(buf, "dailies");
    match dailies {
        None => emit_null(buf),
        Some(c) => emit_cached_dailies(buf, c),
    }
    buf.push(0x7d);
    proof {
        let m = StoreModel {
            all_achievement_ids: ids.deep_view(),
            achievements: achs.deep_view(),
            account_achievements: accts.deep_view(),
            dailies: dailies.deep_view(),
        };
        assert(buf@ =~= mid + ser_store_rest(m.account_achievements, m.dailies)) by {
            reveal(ser_store_rest);
        }
        assert(buf@ =~= old(buf)@ + ser_store(m)) by {
            reveal(ser_store);
        }
    }
}

} // verus!
