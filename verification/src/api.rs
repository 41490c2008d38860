//! The models of the gateway's responses: achievement catalog, achievement
//! details, per-account progress and the daily sets, together with their
//! mathematical views.

use vstd::prelude::*;

verus! {

/// A list of all available IDs of achievements.
#[derive(Debug, PartialEq, Eq)]
pub struct AllAchievementIDs(pub Vec<usize>);

/// Data about a specific achievement.
#[derive(Debug, PartialEq, Eq)]
pub struct Achievement {
    pub id: usize,
    pub icon: Option<String>,
    pub name: String,
    pub description: String,
    pub requirement: String,
    pub locked_text: String,
    pub achievement_type: String,
    pub flags: Vec<String>,
    pub tiers: Vec<AchievementTier>,
    pub prerequisites: Option<Vec<usize>>,
    pub rewards: Option<Vec<Reward>>,
    pub bits: Option<Vec<AchievementBit>>,
    pub point_cap: Option<i32>,
}

/// A list of all achievements with progress on the user's account.
#[derive(Debug, PartialEq, Eq)]
pub struct AllAccountAchievements(pub Vec<AccountAchievement>);

/// Progress by the user for a specific achievement.
#[derive(Debug, PartialEq, Eq)]
pub struct AccountAchievement {
    pub id: usize,
    pub bits: Option<Vec<usize>>,
    pub current: Option<usize>,
    pub max: Option<usize>,
    pub done: bool,
    pub repeated: Option<usize>,
    pub unlocked: Option<bool>,
}

#[derive(Clone, Copy, Debug, PartialEq, Eq)]
pub struct AchievementTier {
    pub count: usize,
    pub points: usize,
}

#[derive(Debug, PartialEq, Eq)]
pub enum Reward {
    Coins { count: usize },
    Item { id: usize, count: usize },
    Mastery { id: usize, region: String },
    Title { id: usize },
}

#[derive(Debug, PartialEq, Eq)]
pub struct AchievementBit {
    pub bit_type: Option<String>,
    pub id: Option<usize>,
    pub text: Option<String>,
}

/// The categorized lists of today's daily achievements.
#[derive(Debug, PartialEq, Eq)]
pub struct Dailies {
    pub pve: Vec<Daily>,
    pub pvp: Vec<Daily>,
    pub wvw: Vec<Daily>,
    pub fractals: Vec<Daily>,
    pub special: Vec<Daily>,
}

#[derive(Clone, Copy, Debug, PartialEq, Eq)]
pub struct Daily {
    pub id: usize,
    pub level: LevelRange,
    pub required_access: Option<RequiredAccess>,
}

#[derive(Clone, Copy, Debug, PartialEq, Eq)]
pub struct LevelRange {
    pub min: usize,
    pub max: usize,
}

#[derive(Clone, Copy, Debug, PartialEq, Eq)]
pub struct RequiredAccess {
    pub product: Product,
    pub condition: AccessCondition,
}

#[derive(Clone, Copy, Debug, PartialEq, Eq)]
pub enum Product {
    HeartOfThorns,
    PathOfFire,
}

#[derive(Clone, Copy, Debug, PartialEq, Eq)]
pub enum AccessCondition {
    HasAccess,
    NoAccess,
}

// ---------------------------------------------------------------------------
// Mathematical views
// ---------------------------------------------------------------------------

pub struct AchievementModel {
    pub id: usize,
    pub icon: Option<Seq<char>>,
    pub name: Seq<char>,
    pub description: Seq<char>,
    pub requirement: Seq<char>,
    pub locked_text: Seq<char>,
    pub achievement_type: Seq<char>,
    pub flags: Seq<Seq<char>>,
    pub tiers: Seq<AchievementTier>,
    pub prerequisites: Option<Seq<usize>>,
    pub rewards: Option<Seq<RewardModel>>,
    pub bits: Option<Seq<AchievementBitModel>>,
    pub point_cap: Option<i32>,
}

pub enum RewardModel {
    Coins { count: usize },
    Item { id: usize, count: usize },
    Mastery { id: usize, region: Seq<char> },
    Title { id: usize },
}

pub struct AchievementBitModel {
    pub bit_type: Option<Seq<char>>,
    pub id: Option<usize>,
    pub text: Option<Seq<char>>,
}

pub struct AccountAchievementModel {
    pub id: usize,
    pub bits: Option<Seq<usize>>,
    pub current: Option<usize>,
    pub max: Option<usize>,
    pub done: bool,
    pub repeated: Option<usize>,
    pub unlocked: Option<bool>,
}

pub struct DailiesModel {
    pub pve: Seq<Daily>,
    pub pvp: Seq<Daily>,
    pub wvw: Seq<Daily>,
    pub fractals: Seq<Daily>,
    pub special: Seq<Daily>,
}

impl DeepView for AchievementTier {
    type V = AchievementTier;

    open spec fn deep_view(&self) -> AchievementTier {
        *self
    }
}

impl DeepView for Daily {
    type V = Daily;

    open spec fn deep_view(&self) -> Daily {
        *self
    }
}

impl DeepView for Reward {
    type V = RewardModel;

    open spec fn deep_view(&self) -> RewardModel {
        match self {
            Reward::Coins { count } => RewardModel::Coins { count: *count },
            Reward::Item { id, count } => RewardModel::Item { id: *id, count: *count },
            Reward::Mastery { id, region } => RewardModel::Mastery { id: *id, region: region@ },
            Reward::Title { id } => RewardModel::Title { id: *id },
        }
    }
}

impl DeepView for AchievementBit {
    type V = AchievementBitModel;

    open spec fn deep_view(&self) -> AchievementBitModel {
        AchievementBitModel {
            bit_type: self.bit_type.deep_view(),
            id: self.id,
            text: self.text.deep_view(),
        }
    }
}

impl DeepView for Achievement {
    type V = AchievementModel;

    open spec fn deep_view(&self) -> AchievementModel {
        AchievementModel {
            id: self.id,
            icon: self.icon.deep_view(),
            name: self.name@,
            description: self.description@,
            requirement: self.requirement@,
            locked_text: self.locked_text@,
            achievement_type: self.achievement_type@,
            flags: self.flags.deep_view(),
            tiers: self.tiers.deep_view(),
            prerequisites: self.prerequisites.deep_view(),
            rewards: self.rewards.deep_view(),
            bits: self.bits.deep_view(),
            point_cap: self.point_cap,
        }
    }
}

impl DeepView for AccountAchievement {
    type V = AccountAchievementModel;

    open spec fn deep_view(&self) -> AccountAchievementModel {
        AccountAchievementModel {
            id: self.id,
            bits: self.bits.deep_view(),
            current: self.current,
            max: self.max,
            done: self.done,
            repeated: self.repeated,
            unlocked: self.unlocked,
        }
    }
}

impl DeepView for AllAchievementIDs {
    type V = Seq<usize>;

    open spec fn deep_view(&self) -> Seq<usize> {
        self.0.deep_view()
    }
}

impl DeepView for AllAccountAchievements {
    type V = Seq<AccountAchievementModel>;

    open spec fn deep_view(&self) -> Seq<AccountAchievementModel> {
        self.0.deep_view()
    }
}

impl DeepView for Dailies {
    type V = DailiesModel;

    open spec fn deep_view(&self) -> DailiesModel {
        DailiesModel {
            pve: self.pve.deep_view(),
            pvp: self.pvp.deep_view(),
            wvw: self.wvw.deep_view(),
            fractals: self.fractals.deep_view(),
            special: self.special.deep_view(),
        }
    }
}

// ---------------------------------------------------------------------------
// Clones that keep the view
// ---------------------------------------------------------------------------

pub(crate) fn clone_vec_usize(v: &Vec<usize>) -> (r: Vec<usize>)
    ensures
        r@ == v@,
{
    let mut r: Vec<usize> = Vec::new();
    let n = v.len();
    let mut k: usize = 0;
    while k < n
        invariant
            0 <= k <= n <= v.len(),
            r@ == v@.take(k as int),
        decreases n - k,
    {
        r.push(v[k]);
        assert(r@ =~= v@.take(k + 1));
        k += 1;
    }
    assert(r@ =~= v@);
    r
}

pub(crate) fn clone_opt_vec_usize(v: &Option<Vec<usize>>) -> (r: Option<Vec<usize>>)
    ensures
        r.deep_view() == v.deep_view(),
{
    match v {
        Some(inner) => Some(clone_vec_usize(inner)),
        None => None,
    }
}

pub(crate) fn clone_opt_string(v: &Option<String>) -> (r: Option<String>)
    ensures
        r.deep_view() == v.deep_view(),
{
    match v {
        Some(inner) => Some(inner.clone()),
        None => None,
    }
}

pub(crate) fn clone_vec_string(v: &Vec<String>) -> (r: Vec<String>)
    ensures
        r.deep_view() == v.deep_view(),
{
    let mut r: Vec<String> = Vec::new();
    let n = v.len();
    let mut k: usize = 0;
    while k < n
        invariant
            0 <= k <= n <= v.len(),
            r@ == v@.take(k as int),
        decreases n - k,
    {
        r.push(v[k].clone());
        assert(r@ =~= v@.take(k + 1));
        k += 1;
    }
    assert(r@ =~= v@);
    assert(r.deep_view() =~= v.deep_view());
    r
}

pub(crate) fn clone_vec_tiers(v: &Vec<AchievementTier>) -> (r: Vec<AchievementTier>)
    ensures
        r@ == v@,
{
    let mut r: Vec<AchievementTier> = Vec::new();
    let n = v.len();
    let mut k: usize = 0;
    while k < n
        invariant
            0 <= k <= n <= v.len(),
            r@ == v@.take(k as int),
        decreases n - k,
    {
        r.push(v[k]);
        assert(r@ =~= v@.take(k + 1));
        k += 1;
    }
    assert(r@ =~= v@);
    r
}

pub(crate) fn clone_vec_dailies(v: &Vec<Daily>) -> (r: Vec<Daily>)
    ensures
        r@ == v@,
{
    let mut r: Vec<Daily> = Vec::new();
    let n = v.len();
    let mut k: usize = 0;
    while k < n
        invariant
            0 <= k <= n <= v.len(),
            r@ == v@.take(k as int),
        decreases n - k,
    {
        r.push(v[k]);
        assert(r@ =~= v@.take(k + 1));
        k += 1;
    }
    assert(r@ =~= v@);
    r
}

impl Reward {
    pub fn duplicate(&self) -> (r: Reward)
        ensures
            r.deep_view() == self.deep_view(),
    {
        match self {
            Reward::Coins { count } => Reward::Coins { count: *count },
            Reward::Item { id, count } => Reward::Item { id: *id, count: *count },
            Reward::Mastery { id, region } => Reward::Mastery {
                id: *id,
                region: region.clone(),
            },
            Reward::Title { id } => Reward::Title { id: *id },
        }
    }
}

impl AchievementBit {
    pub fn duplicate(&self) -> (r: AchievementBit)
        ensures
            r.deep_view() == self.deep_view(),
    {
        AchievementBit {
            bit_type: clone_opt_string(&self.bit_type),
            id: self.id,
            text: clone_opt_string(&self.text),
        }
    }
}

pub(crate) fn clone_vec_rewards(v: &Vec<Reward>) -> (r: Vec<Reward>)
    ensures
        r.deep_view() == v.deep_view(),
{
    let mut r: Vec<Reward> = Vec::new();
    let n = v.len();
    let mut k: usize = 0;
    while k < n
        invariant
            0 <= k <= n <= v.len(),
            r@.len() == k,
            forall|i: int| 0 <= i < k ==> r@[i].deep_view() == v@[i].deep_view(),
        decreases n - k,
    {
        let x = v[k].duplicate();
        r.push(x);
        k += 1;
    }
    assert(r.deep_view() =~= v.deep_view());
    r
}

pub(crate) fn clone_vec_bits(v: &Vec<AchievementBit>) -> (r: Vec<AchievementBit>)
    ensures
        r.deep_view() == v.deep_view(),
{
    let mut r: Vec<AchievementBit> = Vec::new();
    let n = v.len();
    let mut k: usize = 0;
    while k < n
        invariant
            0 <= k <= n <= v.len(),
            r@.len() == k,
            forall|i: int| 0 <= i < k ==> r@[i].deep_view() == v@[i].deep_view(),
        decreases n - k,
    {
        let x = v[k].duplicate();
        r.push(x);
        k += 1;
    }
    assert(r.deep_view() =~= v.deep_view());
    r
}

impl Achievement {
    pub fn duplicate(&self) -> (r: Achievement)
        ensures
            r.deep_view() == self.deep_view(),
    {
        Achievement {
            id: self.id,
            icon: clone_opt_string(&self.icon),
            name: self.name.clone(),
            description: self.description.clone(),
            requirement: self.requirement.clone(),
            locked_text: self.locked_text.clone(),
            achievement_type: self.achievement_type.clone(),
            flags: clone_vec_string(&self.flags),
            tiers: clone_vec_tiers(&self.tiers),
            prerequisites: clone_opt_vec_usize(&self.prerequisites),
            rewards: match &self.rewards {
                Some(rs) => Some(clone_vec_rewards(rs)),
                None => None,
            },
            bits: match &self.bits {
                Some(bs) => Some(clone_vec_bits(bs)),
                None => None,
            },
            point_cap: self.point_cap,
        }
    }
}

impl AccountAchievement {
    pub fn duplicate(&self) -> (r: AccountAchievement)
        ensures
            r.deep_view() == self.deep_view(),
    {
        AccountAchievement {
            id: self.id,
            bits: clone_opt_vec_usize(&self.bits),
            current: self.current,
            max: self.max,
            done: self.done,
            repeated: self.repeated,
            unlocked: self.unlocked,
        }
    }
}

pub(crate) fn clone_vec_account(v: &Vec<AccountAchievement>) -> (r: Vec<AccountAchievement>)
    ensures
        r.deep_view() == v.deep_view(),
{
    let mut r: Vec<AccountAchievement> = Vec::new();
    let n = v.len();
    let mut k: usize = 0;
    while k < n
        invariant
            0 <= k <= n <= v.len(),
            r@.len() == k,
            forall|i: int| 0 <= i < k ==> r@[i].deep_view() == v@[i].deep_view(),
        decreases n - k,
    {
        let x = v[k].duplicate();
        r.push(x);
        k += 1;
    }
    assert(r.deep_view() =~= v.deep_view());
    r
}

impl AllAchievementIDs {
    pub fn duplicate(&self) -> (r: AllAchievementIDs)
        ensures
            r.deep_view() == self.deep_view(),
    {
        AllAchievementIDs(clone_vec_usize(&self.0))
    }
}

impl AllAccountAchievements {
    pub fn duplicate(&self) -> (r: AllAccountAchievements)
        ensures
            r.deep_view() == self.deep_view(),
    {
        AllAccountAchievements(clone_vec_account(&self.0))
    }
}

impl Dailies {
    pub fn duplicate(&self) -> (r: Dailies)
        ensures
            r.deep_view() == self.deep_view(),
    {
        Dailies {
            pve: clone_vec_dailies(&self.pve),
            pvp: clone_vec_dailies(&self.pvp),
            wvw: clone_vec_dailies(&self.wvw),
            fractals: clone_vec_dailies(&self.fractals),
            special: clone_vec_dailies(&self.special),
        }
    }
}

} // verus!
