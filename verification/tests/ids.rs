use proton_usage::steam::{AppId, SteamId64, UserId};

#[test]
fn can_convert_account_id_to_community_id() {
    let id64: SteamId64 = UserId(1880504).into();

    assert_eq!(id64.0, 76561197962146232, "")
}

#[test]
fn odd_account_id_converts_too() {
    let id64 = SteamId64::from(UserId(1880505));
    assert_eq!(id64.0, 76561197962146233);
    assert_eq!(SteamId64::from(UserId(u32::MAX)).0, 0x0110_0001_0000_0000 + 0xFFFF_FFFF);
}

#[test]
fn ids_are_written_as_decimal_numerals() {
    assert_eq!(AppId::new(0).to_string(), "0");
    assert_eq!(AppId::new(2583605614).to_string(), "2583605614");
    assert_eq!(AppId::new(u64::MAX).to_string(), "18446744073709551615");
    assert_eq!(UserId(1880504).to_string(), "1880504");
    assert_eq!(SteamId64(12345678901234567).to_string(), "12345678901234567");
}

#[test]
fn app_ids_are_read_from_numerals() {
    assert_eq!(AppId::from_text("12345"), Some(AppId::new(12345)));
    assert_eq!(AppId::from_text("+12"), Some(AppId::new(12)));
    assert_eq!(AppId::from_text("007"), Some(AppId::new(7)));
    assert_eq!(AppId::from_text("18446744073709551615"), Some(AppId::new(u64::MAX)));
    assert_eq!(AppId::from_text("18446744073709551616"), None);
    assert_eq!(AppId::from_text(""), None);
    assert_eq!(AppId::from_text("+"), None);
    assert_eq!(AppId::from_text("-1"), None);
    assert_eq!(AppId::from_text("12a"), None);
    assert_eq!(AppId::from_text(" 12"), None);
}

#[test]
fn user_directories_are_named_by_their_number() {
    assert_eq!(UserId::from_dir_name("1880504"), Some(UserId(1880504)));
    assert_eq!(UserId::from_dir_name("4294967295"), Some(UserId(u32::MAX)));
    assert_eq!(UserId::from_dir_name("4294967296"), None);
    assert_eq!(UserId::from_dir_name("0"), None);
    assert_eq!(UserId::from_dir_name("ac"), None);
    assert_eq!(UserId::from_dir_name(""), None);
}
