use orrient::api::AccountAchievement;
use orrient::api::AccessCondition;
use orrient::api::Achievement;
use orrient::api::AllAccountAchievements;
use orrient::api::AllAchievementIDs;
use orrient::api::Dailies;
use orrient::api::Product;
use orrient::api::RequiredAccess;
use orrient::endpoints::Endpoint;

#[test]
fn number_scanning() {
    let s = b"0".to_vec();
    assert_eq!(orrient::json::scan_u64(&s, 0), Some((0, 1)));
    let s = b"18446744073709551615,".to_vec();
    assert_eq!(orrient::json::scan_u64(&s, 0), Some((u64::MAX, 20)));
    let s = b"18446744073709551616".to_vec();
    assert_eq!(orrient::json::scan_u64(&s, 0), None, "one past the limit overflows");
    let s = b"42x".to_vec();
    assert_eq!(orrient::json::scan_u64(&s, 0), Some((42, 2)));
    let s = b"x42".to_vec();
    assert_eq!(orrient::json::scan_u64(&s, 0), None);
}

#[test]
fn number_emitting() {
    let mut b = Vec::new();
    orrient::json::emit_u64(&mut b, 0);
    assert_eq!(b, b"0");
    let mut b = Vec::new();
    orrient::json::emit_u64(&mut b, 9007199254740993);
    assert_eq!(b, b"9007199254740993");
    let mut b = Vec::new();
    orrient::writer::emit_i32(&mut b, -2147483648);
    assert_eq!(b, b"-2147483648");
}

#[test]
fn signed_number_scanning() {
    let s = b"-5,".to_vec();
    assert_eq!(orrient::reader::scan_i32(&s, 0), Some((-5, 2)));
    let s = b"2147483647".to_vec();
    assert_eq!(orrient::reader::scan_i32(&s, 0), Some((i32::MAX, 10)));
    let s = b"-2147483648".to_vec();
    assert_eq!(orrient::reader::scan_i32(&s, 0), Some((i32::MIN, 11)));
    let s = b"2147483648".to_vec();
    assert_eq!(orrient::reader::scan_i32(&s, 0), None);
    let s = b"-0".to_vec();
    assert_eq!(orrient::reader::scan_i32(&s, 0), None, "a negative zero is not canonical");
}

#[test]
fn string_escapes_decode() {
    // short escapes, a u-escape and a raw UTF-8 run all map to characters
    let s = b"\"a\\n\\u0041\\\"z\\\\ \xc3\xa9\"".to_vec();
    let (st, used) = orrient::json::scan_jstring(&s, 0).expect("well-formed string");
    assert_eq!(st, "a\nA\"z\\ \u{e9}");
    assert_eq!(used, s.len());
    // an unescaped control byte is rejected
    let s = b"\"a\x01b\"".to_vec();
    assert!(orrient::json::scan_jstring(&s, 0).is_none());
    // a u-escape beyond ASCII is not understood at the byte level
    let s = b"\"\\u00e9\"".to_vec();
    assert!(orrient::json::scan_jstring(&s, 0).is_none());
}

#[test]
fn string_escapes_encode() {
    let mut b = Vec::new();
    orrient::json::emit_jstring(&mut b, "a\"b\\c\n\u{e9}");
    assert_eq!(b, b"\"a\\\"b\\\\c\\u000A\xc3\xa9\"".to_vec());
}

#[test]
fn endpoint_paths() {
    assert_eq!(AllAchievementIDs::get_path(&vec![]), "v2/achievements");
    assert!(!AllAchievementIDs::authenticated());
    assert_eq!(Achievement::get_path(&vec![1, 2, 3]), "v2/achievements?ids=1,2,3");
    assert_eq!(Achievement::get_path(&vec![]), "v2/achievements?ids=");
    assert!(!Achievement::authenticated());
    assert_eq!(
        AccountAchievement::get_path(&vec![9]),
        "v2/account/achievements?ids=9"
    );
    assert!(AccountAchievement::authenticated());
    assert_eq!(AllAccountAchievements::get_path(&vec![]), "v2/account/achievements");
    assert!(AllAccountAchievements::authenticated());
    assert_eq!(Dailies::get_path(&vec![]), "v2/achievements/daily");
    assert!(!Dailies::authenticated());
}

#[test]
fn enum_tags_round_trip() {
    let mut b = Vec::new();
    orrient::writer::emit_required_access(
        &mut b,
        &RequiredAccess { product: Product::PathOfFire, condition: AccessCondition::NoAccess },
    );
    assert_eq!(
        b,
        b"{\"product\":\"PathOfFire\",\"condition\":\"NoAccess\"}".to_vec()
    );
    let (ra, used) = orrient::reader::scan_required_access(&b, 0).expect("parses back");
    assert_eq!(used, b.len());
    assert_eq!(ra.product, Product::PathOfFire);
    assert_eq!(ra.condition, AccessCondition::NoAccess);
}
