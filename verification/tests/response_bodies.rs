use orrient::api::AllAchievementIDs;
use orrient::cache::Cache;
use orrient::client::CachedClient;
use orrient::client::Error;
use orrient::client::RequestStep;

fn client() -> CachedClient {
    CachedClient::new(Cache::new(60, false), None)
}

#[test]
fn server_style_achievement_body() {
    // members out of order, the category under its server name `type`,
    // optional members absent, whitespace between tokens, and an unknown
    // member of arbitrary shape passed over
    let body = br#"[ {
        "type" : "Default",
        "name" : "one",
        "tiers" : [ { "points" : 5, "count" : 1 } ],
        "flags" : [ "Pvp" ],
        "id" : 1,
        "requirement" : "do it",
        "locked_text" : "",
        "description" : "x",
        "future_member" : { "a" : [ 1, "b", null, 2.5e3 ], "b" : {} }
    } ]"#
        .to_vec();
    let mut c = client();
    let (hits, misses, _) = c.begin_achievements(10, &vec![1]);
    assert_eq!(misses, vec![1]);
    let got = c.finish_achievements(10, hits, &body).expect("the server's shape decodes");
    assert_eq!(got.len(), 1);
    assert_eq!(got[0].achievement_type, "Default");
    assert_eq!(got[0].icon, None);
    assert_eq!(got[0].point_cap, None);
    assert_eq!(got[0].tiers.len(), 1);
    assert_eq!(got[0].tiers[0].count, 1);
    // and it is cached under its id
    let (hits, misses, plan) = c.begin_achievements(20, &vec![1]);
    assert!(misses.is_empty() && plan.is_none());
    assert_eq!(hits[0].name, "one");
}

#[test]
fn server_style_missing_required_member_fails() {
    // without its name the record is not an achievement
    let body = br#"[{"type":"Default","tiers":[],"flags":[],"id":1,"requirement":"","locked_text":"","description":""}]"#
        .to_vec();
    let mut c = client();
    let (hits, _, _) = c.begin_achievements(10, &vec![1]);
    assert_eq!(c.finish_achievements(10, hits, &body), Err(Error::Json));
}

#[test]
fn server_style_ids_and_accounts() {
    let mut c = client();
    let ids = c
        .finish_achievement_ids(10, &b" [ 3 , 1 , 2 ] ".to_vec())
        .expect("whitespace is welcome");
    assert_eq!(ids.0, vec![3, 1, 2]);

    let body = br#"[ { "done" : true, "id" : 9 }, {"id":4,"done":false,"current":2,"max":10,"repeated":1,"unlocked":true,"bits":[ 0 , 3 ]} ]"#
        .to_vec();
    let set = c.finish_account_achievements(10, &body).expect("decodes");
    assert_eq!(set.0.len(), 2);
    assert_eq!(set.0[0].id, 9);
    assert!(set.0[0].done);
    assert_eq!(set.0[0].current, None);
    assert_eq!(set.0[1].bits, Some(vec![0, 3]));
}

#[test]
fn server_style_dailies() {
    let body = br#"{
        "wvw" : [],
        "pve" : [ { "level" : { "max" : 80, "min" : 1 }, "id" : 500 } ],
        "pvp" : [],
        "fractals" : [],
        "special" : [],
        "specials_preview" : null
    }"#
        .to_vec();
    let mut c = client();
    let d = c.finish_dailies(10, &body).expect("decodes");
    assert_eq!(d.pve.len(), 1);
    assert_eq!(d.pve[0].id, 500);
    assert_eq!(d.pve[0].level.min, 1);
    assert_eq!(d.pve[0].level.max, 80);
    assert_eq!(d.pve[0].required_access, None);
    match c.begin_dailies(30) {
        RequestStep::Cached(d2) => assert_eq!(d2.pve[0].id, 500),
        _ => panic!("stored after the fetch"),
    }
}

#[test]
fn server_style_string_escapes() {
    // a u-escape beyond ASCII and a surrogate pair name their characters
    let s = b"\"caf\\u00e9 \\ud83d\\ude00\"".to_vec();
    let (st, used) = orrient::response::scan_rstring(&s, 0).expect("well-formed");
    assert_eq!(st, "caf\u{e9} \u{1F600}");
    assert_eq!(used, s.len());
    // a lone surrogate is malformed
    let s = b"\"\\ud83d\"".to_vec();
    assert!(orrient::response::scan_rstring(&s, 0).is_none());
    // raw UTF-8 passes through
    let s = "\"\u{e9}\"".as_bytes().to_vec();
    let (st, _) = orrient::response::scan_rstring(&s, 0).expect("raw bytes pass");
    assert_eq!(st, "\u{e9}");
}

#[test]
fn canonical_bodies_still_decode() {
    // the crate's own canonical shape is a special case of the server's
    let mut body = Vec::new();
    orrient::writer::emit_usize_array(&mut body, &vec![7, 8]);
    let mut c = client();
    assert_eq!(c.finish_achievement_ids(10, &body).unwrap(), AllAchievementIDs(vec![7, 8]));
}

#[test]
fn trailing_garbage_is_a_json_error() {
    let mut c = client();
    assert_eq!(c.finish_achievement_ids(10, &b"[1,2] x".to_vec()), Err(Error::Json));
    assert_eq!(c.finish_achievement_ids(10, &b"[1,2".to_vec()), Err(Error::Json));
}
