use orrient::api::AccountAchievement;
use orrient::api::AchievementBit;
use orrient::api::Achievement;
use orrient::api::AchievementTier;
use orrient::api::AllAccountAchievements;
use orrient::api::AllAchievementIDs;
use orrient::api::Dailies;
use orrient::api::Daily;
use orrient::api::LevelRange;
use orrient::api::Reward;
use orrient::cache::Cache;

fn sample_achievement(id: usize) -> Achievement {
    Achievement {
        id,
        icon: Some(String::from("https://example.invalid/icon.png")),
        name: format!("Ach {}", id),
        description: String::from("Line one\nLine \"two\" \\ done héllo"),
        requirement: String::from("Do the thing"),
        locked_text: String::new(),
        achievement_type: String::from("Default"),
        flags: vec![String::from("Pvp"), String::from("CategoryDisplay")],
        tiers: vec![
            AchievementTier { count: 1, points: 5 },
            AchievementTier { count: 10, points: 10 },
        ],
        prerequisites: Some(vec![1, 2]),
        rewards: Some(vec![
            Reward::Coins { count: 5000 },
            Reward::Mastery { id: 7, region: String::from("Tyria") },
            Reward::Item { id: 99, count: 2 },
            Reward::Title { id: 3 },
        ]),
        bits: Some(vec![
            AchievementBit {
                bit_type: Some(String::from("Text")),
                id: None,
                text: Some(String::from("step one")),
            },
            AchievementBit { bit_type: None, id: Some(12), text: None },
        ]),
        point_cap: Some(-1),
    }
}

fn sample_account(id: usize) -> AccountAchievement {
    AccountAchievement {
        id,
        bits: Some(vec![0, 2]),
        current: Some(3),
        max: Some(10),
        done: false,
        repeated: Some(2),
        unlocked: Some(true),
    }
}

fn sample_dailies() -> Dailies {
    Dailies {
        pve: vec![Daily {
            id: 500,
            level: LevelRange { min: 1, max: 80 },
            required_access: None,
        }],
        pvp: vec![],
        wvw: vec![],
        fractals: vec![],
        special: vec![],
    }
}

#[test]
fn freshness_hit_then_expiry() {
    let mut cache = Cache::new(60, false);
    cache.put_dailies(100, sample_dailies());
    assert!(cache.get_dailies(100).is_some());
    assert!(cache.get_dailies(160).is_some());
    assert!(cache.get_dailies(161).is_none());
    // a stale entry reads as missing but is still there to overwrite
    cache.put_dailies(200, sample_dailies());
    assert!(cache.get_dailies(230).is_some());
}

#[test]
fn achievement_freshness_per_entry() {
    let mut cache = Cache::new(50, false);
    cache.put_achievement(100, sample_achievement(1));
    cache.put_achievement(140, sample_achievement(2));
    // at 155 the first entry is stale, the second still fresh
    assert!(cache.get_achievement(155, 1).is_none());
    assert!(cache.get_achievement(155, 2).is_some());
    assert!(cache.get_achievement(155, 3).is_none());
}

#[test]
fn write_overwrite_returns_second_value() {
    let mut cache = Cache::new(10, false);
    let mut first = sample_achievement(7);
    first.name = String::from("first");
    cache.put_achievement(100, first);
    // the first entry is stale by now; the write must still replace it
    let mut second = sample_achievement(7);
    second.name = String::from("second");
    cache.put_achievement(300, second);
    let got = cache.get_achievement(300, 7).expect("fresh after overwrite");
    assert_eq!(got.name, "second");
}

#[test]
fn account_progress_expires_as_one_unit() {
    let mut cache = Cache::new(86400, false);
    let set = AllAccountAchievements(vec![sample_account(4), sample_account(9)]);
    cache.put_account_achievements(1000, set);
    // fixed one-minute lifetime, independent of the configured max age
    assert!(cache.get_account_achievement(1060, 4).is_some());
    assert!(cache.get_account_achievement(1060, 9).is_some());
    assert!(cache.get_account_achievement(1061, 4).is_none());
    assert!(cache.get_account_achievement(1061, 9).is_none());
    assert!(cache.get_account_achievement(1000, 5).is_none());
}

#[test]
fn idempotent_persistence() {
    let mut cache = Cache::new(60, false);
    assert!(cache.persist_payload().is_none());
    cache.put_achievement_ids(5, AllAchievementIDs(vec![1, 2, 3]));
    let payload = cache.persist_payload();
    assert!(payload.is_some());
    // no intervening write: the second flush is a no-op
    assert!(cache.persist_payload().is_none());
    cache.invalidate();
    assert!(cache.persist_payload().is_some());
}

#[test]
fn persist_then_load_round_trip() {
    let mut cache = Cache::new(60, false);
    cache.put_achievement_ids(5, AllAchievementIDs(vec![10, 20, 30]));
    cache.put_achievement(6, sample_achievement(10));
    cache.put_achievement(7, sample_achievement(20));
    cache.put_account_achievements(8, AllAccountAchievements(vec![sample_account(10)]));
    cache.put_dailies(9, sample_dailies());
    let bytes = cache.persist_payload().expect("dirty cache flushes");
    let loaded = Cache::from_bytes(Some(&bytes), false, 60);
    assert_eq!(loaded.get_achievement_ids(5).expect("ids kept").0, vec![10, 20, 30]);
    let a = loaded.get_achievement(6, 10).expect("achievement kept");
    assert_eq!(a, sample_achievement(10));
    let acct = loaded.get_account_achievement(8, 10).expect("account kept");
    assert_eq!(acct, sample_account(10));
    assert_eq!(loaded.get_dailies(9).expect("dailies kept"), sample_dailies());
    // expiry timestamps survive: one second later than before, entries expire
    assert!(loaded.get_achievement_ids(66).is_none());
}

#[test]
fn compressed_round_trip() {
    let mut cache = Cache::new(60, true);
    cache.put_achievement(6, sample_achievement(77));
    let plain = cache.to_bytes();
    let z = cache.persist_payload().expect("dirty cache flushes");
    assert_ne!(plain, z, "the gzip stream is not the raw document");
    let loaded = Cache::from_bytes(Some(&z), true, 60);
    assert_eq!(loaded.get_achievement(6, 77).expect("kept"), sample_achievement(77));
}

#[test]
fn corrupt_file_resilience() {
    for garbage in [
        b"not json at all".to_vec(),
        b"{\"all_achievements_ids\":".to_vec(),
        b"{}".to_vec(),
        vec![0x1f, 0x8b, 0x00],
        Vec::new(),
    ] {
        let mut loaded = Cache::from_bytes(Some(&garbage), false, 60);
        assert!(loaded.get_achievement_ids(0).is_none());
        assert!(loaded.get_dailies(0).is_none());
        assert!(loaded.persist_payload().is_none());
    }
    // a gzip cache file that is not gzip at all
    let loaded = Cache::from_bytes(Some(&b"plainly not gzip".to_vec()), true, 60);
    assert!(loaded.get_dailies(0).is_none());
    // no file at all
    let loaded = Cache::from_bytes(None, false, 60);
    assert!(loaded.get_achievement_ids(0).is_none());
}

#[test]
fn truncated_own_output_is_rejected() {
    let mut cache = Cache::new(60, false);
    cache.put_achievement(6, sample_achievement(1));
    let mut bytes = cache.persist_payload().unwrap();
    bytes.truncate(bytes.len() / 2);
    let loaded = Cache::from_bytes(Some(&bytes), false, 60);
    assert!(loaded.get_achievement(6, 1).is_none());
}

#[test]
fn cache_file_is_plain_json() {
    let mut cache = Cache::new(60, false);
    cache.put_achievement_ids(5, AllAchievementIDs(vec![1]));
    cache.put_achievement(6, sample_achievement(3));
    let bytes = cache.to_bytes();
    let v: serde_json::Value = serde_json::from_slice(&bytes).expect("well-formed JSON");
    let ids = v.get("all_achievements_ids").expect("catalog slot");
    assert_eq!(ids.get("expires").unwrap().as_u64(), Some(65));
    let achs = v.get("achievements").expect("achievement slot");
    let entry = achs.get("3").expect("keyed by id");
    assert_eq!(entry.get("inner").unwrap().get("id").unwrap().as_u64(), Some(3));
    assert!(v.get("dailies").unwrap().is_null());
}
