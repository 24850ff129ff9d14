use proton_usage::steam::bin_vdf::find;
use proton_usage::steam::{app_info, parse_names_from_bin_vdf, shortcuts, AppId};

#[test]
fn bin_vdf_uses_first_potential_key() {
    let contents = [
        0x00u8, 0x73, 0x68, 0x6F, 0x72, 0x74, 0x63, 0x75, 0x74, 0x73, 0x00, 0x00, 0x30, 0x00,
        0x02, 0x61, 0x70, 0x70, 0x69, 0x64, 0x00, // appid\0
        0x6E, 0xB1, 0xFE, 0x99, 0x01, // 2583605614 (little endian u32)
        0x61, 0x70, 0x70, 0x6E, 0x61, 0x6D, 0x65, 0x00, // appname\0
        0x54, 0x68, 0x65, 0x20, 0x4e, 0x61, 0x6d, 0x65, 0x31, 0x00, // The Name1\0
        0x01, 0x65, 0x78, 0x65, 0x00, // .exe\0
        0x02, 0x61, 0x70, 0x70, 0x69, 0x64, 0x00, // appid\0
        0x6E, 0xB1, 0xFE, 0x98, 0x01, // 2566828398 (little endian u32)
        0x41, 0x70, 0x70, 0x4E, 0x61, 0x6D, 0x65, 0x00, // AppName\0
        0x54, 0x68, 0x65, 0x20, 0x4e, 0x61, 0x6d, 0x65, 0x32, 0x00, // The Name2\0
        0x01, 0x65, 0x78, 0x65, 0x00, // .exe\0
    ];
    let app_id1 = AppId::new(2583605614);
    let app_id2 = AppId::new(2566828398);
    let keys = ["appname", "AppName"];

    let result = parse_names_from_bin_vdf(&contents, &keys, &[app_id1, app_id2]);

    assert_eq!(result.len(), 2);
    assert_eq!(result.get(&app_id1).unwrap(), "The Name1");
    assert_eq!(result.get(&app_id2).unwrap(), "The Name2");
}

fn record(id: u32, key: &str, name: &[u8]) -> Vec<u8> {
    let mut bytes = b"\x02appid\0".to_vec();
    bytes.extend_from_slice(&id.to_le_bytes());
    bytes.push(0x01);
    bytes.extend_from_slice(key.as_bytes());
    bytes.push(0);
    bytes.extend_from_slice(name);
    bytes.push(0);
    bytes
}

#[test]
fn find_gives_the_leftmost_occurrence() {
    let buf = b"abcabcab";
    assert_eq!(find(buf, &b"abc".to_vec(), 0), Some(0));
    assert_eq!(find(buf, &b"abc".to_vec(), 1), Some(3));
    assert_eq!(find(buf, &b"abc".to_vec(), 4), None);
    assert_eq!(find(buf, &b"ab".to_vec(), 4), Some(6));
    assert_eq!(find(buf, &b"abcabcabc".to_vec(), 0), None);
    assert_eq!(find(buf, &b"b".to_vec(), 9), None);
}

#[test]
fn absent_markers_leave_the_application_out() {
    let mut buf = record(5, "name", b"Five");
    buf.extend(record(6, "title", b"Six"));
    buf.extend_from_slice(b"\x02appid\0\x07\0\0\0");
    let names = parse_names_from_bin_vdf(
        &buf,
        &["name"],
        &[AppId::new(5), AppId::new(6), AppId::new(7), AppId::new(8)],
    );
    assert_eq!(names.len(), 1);
    assert_eq!(names.get(&AppId::new(5)).unwrap(), "Five");
    assert!(!names.contains_key(&AppId::new(6)));
}

#[test]
fn name_without_closing_zero_is_left_out() {
    let mut buf = record(5, "name", b"Five");
    buf.pop();
    let names = parse_names_from_bin_vdf(&buf, &["name"], &[AppId::new(5)]);
    assert_eq!(names.len(), 0);
}

#[test]
fn first_key_of_the_list_decides_wherever_it_stands() {
    let mut buf = record(5, "AppName", b"Upper");
    buf.extend(record(9, "appname", b"Lower"));
    let names = parse_names_from_bin_vdf(&buf, &["appname", "AppName"], &[AppId::new(5)]);
    assert_eq!(names.get(&AppId::new(5)).unwrap(), "Lower");
    let names = parse_names_from_bin_vdf(&buf, &["AppName", "appname"], &[AppId::new(5)]);
    assert_eq!(names.get(&AppId::new(5)).unwrap(), "Upper");
}

#[test]
fn ids_are_matched_by_their_lower_32_bits() {
    let buf = record(5, "name", b"Five");
    let long = AppId::new((1u64 << 32) + 5);
    let names = parse_names_from_bin_vdf(&buf, &["name"], &[long]);
    assert_eq!(names.len(), 1);
    assert_eq!(names.get(&long).unwrap(), "Five");
    assert!(!names.contains_key(&AppId::new(5)));
}

#[test]
fn names_are_decoded_permissively() {
    let buf = record(5, "name", b"Caf\xC3\xA9 \xFF!");
    let names = app_info::parse_names(&buf, &[AppId::new(5)]);
    assert_eq!(names.get(&AppId::new(5)).unwrap(), "Caf\u{e9} \u{fffd}!");
}

#[test]
fn later_shortcut_file_wins() {
    let first = record(5, "appname", b"Old");
    let mut second = record(5, "appname", b"New");
    second.extend(record(6, "appname", b"Six"));
    let third = record(7, "name", b"Seven");
    let ids = [AppId::new(5), AppId::new(6), AppId::new(7)];
    let names = shortcuts::parse_names(&vec![first, second, third], &ids);
    assert_eq!(names.len(), 2);
    assert_eq!(names.get(&AppId::new(5)).unwrap(), "New");
    assert_eq!(names.get(&AppId::new(6)).unwrap(), "Six");
}
