use orrient::api::AccountAchievement;
use orrient::api::Achievement;
use orrient::api::AllAchievementIDs;
use orrient::api::Dailies;
use orrient::api::Daily;
use orrient::api::LevelRange;
use orrient::cache::Cache;
use orrient::client::CachedClient;
use orrient::client::Error;
use orrient::client::RequestStep;

fn tiny_achievement(id: usize, name: &str) -> Achievement {
    Achievement {
        id,
        icon: None,
        name: String::from(name),
        description: String::new(),
        requirement: String::new(),
        locked_text: String::new(),
        achievement_type: String::from("Default"),
        flags: vec![],
        tiers: vec![],
        prerequisites: None,
        rewards: None,
        bits: None,
        point_cap: None,
    }
}

fn achievements_body(items: &[Achievement]) -> Vec<u8> {
    let mut b = vec![b'['];
    for (i, a) in items.iter().enumerate() {
        if i > 0 {
            b.push(b',');
        }
        orrient::writer::emit_achievement(&mut b, a);
    }
    b.push(b']');
    b
}

fn client(apikey: Option<String>) -> CachedClient {
    CachedClient::new(Cache::new(60, false), apikey)
}

#[test]
fn partial_hit_batch() {
    let mut c = client(None);
    // cold cache: every id is a miss, one call asks for all of them
    let (hits, misses, plan) = c.begin_achievements(100, &vec![1, 2, 3]);
    assert!(hits.is_empty());
    assert_eq!(misses, vec![1, 2, 3]);
    assert_eq!(plan.as_deref(), Some("v2/achievements?ids=1,2,3"));
    let body = achievements_body(&[
        tiny_achievement(1, "one"),
        tiny_achievement(2, "two"),
        tiny_achievement(3, "three"),
    ]);
    let got = c.finish_achievements(100, hits, &body).expect("batch decodes");
    assert_eq!(got.len(), 3);
    // overlapping batch: only the one missing id is requested
    let (hits, misses, plan) = c.begin_achievements(110, &vec![2, 3, 4]);
    assert_eq!(misses, vec![4]);
    assert_eq!(plan.as_deref(), Some("v2/achievements?ids=4"));
    let names: Vec<&str> = hits.iter().map(|a| a.name.as_str()).collect();
    assert_eq!(names, vec!["two", "three"]);
    let got = c
        .finish_achievements(110, hits, &achievements_body(&[tiny_achievement(4, "four")]))
        .expect("batch decodes");
    let names: Vec<&str> = got.iter().map(|a| a.name.as_str()).collect();
    assert_eq!(names, vec!["two", "three", "four"]);
}

#[test]
fn zero_miss_short_circuit() {
    let mut c = client(None);
    let (hits, _, _) = c.begin_achievements(50, &vec![8]);
    c.finish_achievements(50, hits, &achievements_body(&[tiny_achievement(8, "z")]))
        .unwrap();
    // everything fresh-cached: no fetch is planned at all
    let (hits, misses, plan) = c.begin_achievements(60, &vec![8]);
    assert!(plan.is_none());
    assert!(misses.is_empty());
    assert_eq!(hits.len(), 1);
    // but once stale, the same id misses again
    let (_, misses, plan) = c.begin_achievements(200, &vec![8]);
    assert_eq!(misses, vec![8]);
    assert!(plan.is_some());
}

#[test]
fn empty_batch_plans_nothing() {
    let c = client(None);
    let (hits, misses, plan) = c.begin_achievements(10, &vec![]);
    assert!(hits.is_empty());
    assert!(misses.is_empty());
    assert!(plan.is_none());
}

#[test]
fn batch_decode_failure_leaves_cache_cold() {
    let mut c = client(None);
    let (hits, _, _) = c.begin_achievements(10, &vec![1]);
    let err = c.finish_achievements(10, hits, &b"[{\"id\":1}]".to_vec());
    assert_eq!(err, Err(Error::Json));
    let (_, misses, _) = c.begin_achievements(10, &vec![1]);
    assert_eq!(misses, vec![1]);
}

#[test]
fn auth_gating_fails_fast() {
    let c = client(None);
    match c.begin_account_achievements(10) {
        Err(Error::MissingApiKey) => {},
        _ => panic!("an authenticated request without a key must be refused"),
    }
    // with a credential, the fetch is planned instead
    let c = client(Some(String::from("SECRET-REDACTED")));
    match c.begin_account_achievements(10) {
        Ok(RequestStep::Fetch(path)) => assert_eq!(path, "v2/account/achievements"),
        _ => panic!("expected a fetch plan"),
    }
}

#[test]
fn fresh_account_cache_answers_without_key() {
    let mut c = client(None);
    let mut body = Vec::new();
    orrient::writer::emit_account_array(
        &mut body,
        &vec![AccountAchievement {
            id: 12,
            bits: None,
            current: Some(1),
            max: Some(4),
            done: false,
            repeated: None,
            unlocked: None,
        }],
    );
    c.finish_account_achievements(100, &body).expect("decodes");
    match c.begin_account_achievements(130) {
        Ok(RequestStep::Cached(set)) => assert_eq!(set.0.len(), 1),
        _ => panic!("fresh cache answers without a credential"),
    }
    // a minute later the set is stale as one unit, and the key is missing
    match c.begin_account_achievements(161) {
        Err(Error::MissingApiKey) => {},
        _ => panic!("stale cache without key is refused"),
    }
}

#[test]
fn request_headers_carry_schema_and_bearer() {
    let c = client(None);
    let hs = c.request_headers(false).expect("public requests need no key");
    assert_eq!(hs.len(), 1);
    assert_eq!(hs[0].0, "X-Schema-Version");
    assert_eq!(hs[0].1, "2019-05-16T00:00:00.000Z");
    assert_eq!(c.request_headers(true), Err(Error::MissingApiKey));
    let c = client(Some(String::from("SECRET-REDACTED")));
    let hs = c.request_headers(true).expect("credential configured");
    assert_eq!(hs.len(), 2);
    assert_eq!(hs[1].0, "Authorization");
    assert_eq!(hs[1].1, "Bearer SECRET-REDACTED");
}

#[test]
fn catalog_and_dailies_flow() {
    let mut c = client(None);
    match c.begin_achievement_ids(10) {
        RequestStep::Fetch(path) => assert_eq!(path, "v2/achievements"),
        _ => panic!("cold cache plans a fetch"),
    }
    let mut body = Vec::new();
    orrient::writer::emit_usize_array(&mut body, &vec![5, 6, 7]);
    let ids = c.finish_achievement_ids(10, &body).expect("decodes");
    assert_eq!(ids.0, vec![5, 6, 7]);
    match c.begin_achievement_ids(20) {
        RequestStep::Cached(v) => assert_eq!(v.0, vec![5, 6, 7]),
        _ => panic!("fresh catalog is served from cache"),
    }
    match c.begin_dailies(10) {
        RequestStep::Fetch(path) => assert_eq!(path, "v2/achievements/daily"),
        _ => panic!("cold cache plans a fetch"),
    }
    let mut body = Vec::new();
    orrient::writer::emit_dailies(
        &mut body,
        &Dailies {
            pve: vec![Daily {
                id: 9,
                level: LevelRange { min: 1, max: 80 },
                required_access: None,
            }],
            pvp: vec![],
            wvw: vec![],
            fractals: vec![],
            special: vec![],
        },
    );
    let d = c.finish_dailies(10, &body).expect("decodes");
    assert_eq!(d.pve[0].id, 9);
    match c.begin_dailies(30) {
        RequestStep::Cached(d) => assert_eq!(d.pve.len(), 1),
        _ => panic!("fresh dailies are served from cache"),
    }
}

#[test]
fn bad_ids_body_is_a_json_error() {
    let mut c = client(None);
    assert_eq!(c.finish_achievement_ids(10, &b"[1,2".to_vec()), Err(Error::Json));
    assert_eq!(c.finish_achievement_ids(10, &b"[1,2]extra".to_vec()), Err(Error::Json));
    assert_eq!(c.finish_dailies(10, &b"null".to_vec()), Err(Error::Json));
}

#[test]
fn write_cache_flushes_once() {
    let mut c = client(None);
    assert!(c.write_cache().is_none());
    let mut body = Vec::new();
    orrient::writer::emit_usize_array(&mut body, &vec![1]);
    c.finish_achievement_ids(10, &body).unwrap();
    let payload = c.write_cache().expect("dirty after a store");
    assert!(c.write_cache().is_none());
    // the flushed payload reloads into an equivalent store
    let loaded = Cache::from_bytes(Some(&payload), false, 60);
    assert_eq!(loaded.get_achievement_ids(10).unwrap().0, vec![1]);
}
