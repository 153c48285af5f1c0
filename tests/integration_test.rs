use bt_sync::config::device_name;
use bt_sync::extract::{bluetooth_records, get_bt_device_info, get_bt_name_map};
use bt_sync::hive::{names_match, HiveTree, HiveValue, RegistryKeyNode, RegistryValue};
use bt_sync::number::{decimal_string, hex_string, le_number};
use bt_sync::reader::{HiveLoad, HiveReadError, KeyWant};
use bt_sync::reconcile::{is_valid_device_directory, plan_device_update, run_outcome, RunOutcome};
use bt_sync::table::{lookup, upsert};
use bt_sync::{fmt_mac, get_ltk, update_bt_info, BtDeviceInfo};

fn info(mac: &str, ltk: &str, ediv: &str, erand: &str) -> BtDeviceInfo {
    BtDeviceInfo {
        mac: mac.to_string(),
        ltk: ltk.to_string(),
        ediv: ediv.to_string(),
        erand: erand.to_string(),
    }
}

const SAMPLE: &str = "[General]
Name=Basilisk X HyperSpeed
Appearance=0x03c2

[IdentityResolvingKey]
Key=8EC94951919F694C8DBFD5E0BEA21536

[LongTermKey]
Key=D23FEDC5F5806AF8A37D41D81EE4DA5C
Authenticated=0
EncSize=16
EDiv=17209
Rand=189227263063048024

[PeripheralLongTermKey]
Key=414C87970DBAE282734D2BDCC1157C30
EDiv=27023
Rand=15138338010761522440
";

#[test]
fn test_fmt_mac() {
    assert_eq!(fmt_mac("001122334455"), "00:11:22:33:44:55");
}

#[test]
fn test_update_ltk() {
    let content = r#"
[LongTermKey]
Key=00000000000000000000000000000000
Name=test"#;
    let info = BtDeviceInfo {
        mac: "00:00:00:00:00:00".to_string(),
        ltk: "112233445566778899AABBCCDDEEFF".to_string(),
        ediv: "12345".to_string(),
        erand: "998877665544".to_string(),
    };
    let updated_content = update_bt_info(content, &info);
    assert!(updated_content.contains(&format!("Key={}", info.ltk)));
}

#[test]
fn fmt_mac_uppercases_and_groups() {
    assert_eq!(fmt_mac("e0105fa9f659"), "E0:10:5F:A9:F6:59");
    assert_eq!(fmt_mac(""), "");
    assert_eq!(fmt_mac("abc"), "AB:C");
    assert_eq!(fmt_mac("ab"), "AB");
}

#[test]
fn update_rewrites_only_the_long_term_key_section() {
    let i = info("00:11:22:33:44:55", "DEADBEEF00000000DEADBEEF00000000", "12345", "998877665544");
    let out = update_bt_info(SAMPLE, &i);
    let expected = SAMPLE
        .replace("Key=D23FEDC5F5806AF8A37D41D81EE4DA5C", "Key=DEADBEEF00000000DEADBEEF00000000")
        .replace("EDiv=17209", "EDiv=12345")
        .replace("Rand=189227263063048024", "Rand=998877665544");
    assert_eq!(out, expected);
    assert!(out.contains("Key=8EC94951919F694C8DBFD5E0BEA21536"));
    assert!(out.contains("EDiv=27023\nRand=15138338010761522440"));
}

#[test]
fn update_keeps_whitespace_of_other_lines() {
    let c = "[LongTermKey]\n  Key=untouched\r\nKey=old\r\nNote = a b \n[Other]\nKey=x";
    let i = info("AA", "NEW", "1", "2");
    assert_eq!(update_bt_info(c, &i), "[LongTermKey]\n  Key=untouched\r\nKey=NEW\nNote = a b \n[Other]\nKey=x");
}

#[test]
fn update_twice_changes_nothing_more() {
    let i = info("00:11:22:33:44:55", "DEADBEEF00000000DEADBEEF00000000", "12345", "998877665544");
    let once = update_bt_info(SAMPLE, &i);
    let twice = update_bt_info(&once, &i);
    assert_eq!(once, twice);
}

#[test]
fn update_keeps_presence_of_final_newline() {
    let i = info("AA", "NEW", "1", "2");
    assert_eq!(update_bt_info("[LongTermKey]\nKey=old", &i), "[LongTermKey]\nKey=NEW");
    assert_eq!(update_bt_info("[LongTermKey]\nKey=old\n", &i), "[LongTermKey]\nKey=NEW\n");
    assert_eq!(update_bt_info("", &i), "");
    assert_eq!(update_bt_info("\n", &i), "\n");
}

#[test]
fn get_ltk_reads_the_long_term_key_section() {
    assert_eq!(get_ltk(SAMPLE), "D23FEDC5F5806AF8A37D41D81EE4DA5C");
    assert_eq!(get_ltk("[General]\nKey=1\n"), "");
    assert_eq!(get_ltk("[LongTermKey]\nEDiv=1\n[Other]\nKey=2"), "");
    assert_eq!(get_ltk(""), "");
}

#[test]
fn device_name_takes_the_first_name_line() {
    assert_eq!(device_name(SAMPLE), Some("Basilisk X HyperSpeed".to_string()));
    assert_eq!(device_name("Alias=x\nName=\nName=b"), Some("".to_string()));
    assert_eq!(device_name(" Name=x\nname=y"), None);
    assert_eq!(device_name("Name=a\r\n"), Some("a\r".to_string()));
}

#[test]
fn numbers_and_hex_are_formatted() {
    assert_eq!(decimal_string(0), "0");
    assert_eq!(decimal_string(28781), "28781");
    assert_eq!(decimal_string(u64::MAX), "18446744073709551615");
    assert_eq!(hex_string(&[0x03, 0x9d, 0x00, 0xff]), "039D00FF");
    assert_eq!(hex_string(&[]), "");
    assert_eq!(le_number(&[0x6d, 0x70, 0, 0]), 28781);
    assert_eq!(le_number(&16975003643600944841u64.to_le_bytes()), 16975003643600944841);
    assert_eq!(le_number(&[]), 0);
}

#[test]
fn registry_names_match_without_case() {
    assert!(names_match("BTHPORT", "bthport"));
    assert!(!names_match("Keys", "Key"));
    assert!(!names_match("Keys", "Kezs"));
}

#[test]
fn table_replaces_entries_of_the_same_key() {
    let mut t: Vec<(String, String)> = Vec::new();
    upsert(&mut t, "a".to_string(), "1".to_string());
    upsert(&mut t, "b".to_string(), "2".to_string());
    upsert(&mut t, "a".to_string(), "3".to_string());
    assert_eq!(t.len(), 2);
    assert_eq!(lookup(&t, "a"), Some(&"3".to_string()));
    assert_eq!(lookup(&t, "c"), None);
}

fn node(name: &str, subkeys: Vec<usize>, values: Vec<(&str, Vec<u8>)>) -> RegistryKeyNode {
    RegistryKeyNode {
        name: name.to_string(),
        subkeys,
        values: values
            .into_iter()
            .map(|(n, b)| RegistryValue { name: n.to_string(), data_type: type_of(n), data: HiveValue::Inline(b) })
            .collect(),
    }
}

/// The types that Windows gives these values.
fn type_of(name: &str) -> u32 {
    match name {
        "ERand" => 11,
        "EDIV" => 4,
        _ => 3,
    }
}

fn hex_bytes(s: &str) -> Vec<u8> {
    (0..s.len() / 2).map(|i| u8::from_str_radix(&s[2 * i..2 * i + 2], 16).unwrap()).collect()
}

/// Three named devices; two of them have key material with an LTK.
fn synthetic_hive() -> HiveTree {
    let mut kb_name = b"BT+2.4G KB".to_vec();
    kb_name.extend_from_slice(&[0, 0x41, 0x42]);
    HiveTree {
        nodes: vec![
            node("ROOT", vec![1], vec![]),
            node("ControlSet001", vec![2], vec![]),
            node("Services", vec![3], vec![]),
            node("BTHPORT", vec![4], vec![]),
            node("Parameters", vec![5, 6], vec![]),
            node("Devices", vec![7, 8, 9], vec![]),
            node("Keys", vec![10], vec![]),
            node("e0105fa9f659", vec![], vec![("Name", kb_name)]),
            node("fc51caac5711", vec![], vec![("Name", b"Basilisk X HyperSpeed\0".to_vec())]),
            node("ac8ebd24ac52", vec![], vec![("Name", b"Xbox Wireless Controller".to_vec())]),
            node("001a7dda7113", vec![11, 12, 13], vec![]),
            node(
                "e0105fa9f659",
                vec![],
                vec![
                    ("LTK", hex_bytes("039D9DE0952391208B4F755257E6425B")),
                    ("ERand", 16975003643600944841u64.to_le_bytes().to_vec()),
                    ("EDIV", 28781u32.to_le_bytes().to_vec()),
                ],
            ),
            node(
                "fc51caac5711",
                vec![],
                vec![
                    ("ltk", hex_bytes("D23FEDC5F5806AF8A37D41D81EE4DA5C")),
                    ("ERand", 9659891662176722970u64.to_le_bytes().to_vec()),
                    ("EDIV", 34794u32.to_le_bytes().to_vec()),
                ],
            ),
            node(
                "ac8ebd24ac52",
                vec![],
                vec![("ERand", 1u64.to_le_bytes().to_vec()), ("EDIV", 2u32.to_le_bytes().to_vec())],
            ),
        ],
    }
}

#[test]
fn name_index_reads_names_up_to_the_zero_byte() {
    let t = synthetic_hive();
    let names = get_bt_name_map(&t);
    assert_eq!(names.len(), 3);
    assert_eq!(lookup(&names, "e0105fa9f659"), Some(&"BT+2.4G KB".to_string()));
    assert_eq!(lookup(&names, "fc51caac5711"), Some(&"Basilisk X HyperSpeed".to_string()));
    assert_eq!(lookup(&names, "ac8ebd24ac52"), Some(&"Xbox Wireless Controller".to_string()));
}

#[test]
fn name_index_skips_invalid_text() {
    let mut t = synthetic_hive();
    t.nodes[9].values[0].data = HiveValue::Inline(vec![0xff, 0xfe, 0x41]);
    let names = get_bt_name_map(&t);
    assert_eq!(names.len(), 2);
    assert_eq!(lookup(&names, "ac8ebd24ac52"), None);
}

#[test]
fn extraction_keeps_only_devices_with_an_ltk() {
    let t = synthetic_hive();
    let records = bluetooth_records(&t);
    assert_eq!(records.len(), 2);
    assert_eq!(
        lookup(&records, "BT+2.4G KB"),
        Some(&info("E0:10:5F:A9:F6:59", "039D9DE0952391208B4F755257E6425B", "28781", "16975003643600944841"))
    );
    assert_eq!(
        lookup(&records, "Basilisk X HyperSpeed"),
        Some(&info("FC:51:CA:AC:57:11", "D23FEDC5F5806AF8A37D41D81EE4DA5C", "34794", "9659891662176722970"))
    );
    assert_eq!(lookup(&records, "Xbox Wireless Controller"), None);
}

#[test]
fn extraction_defaults_numbers_of_another_width_to_zero() {
    let mut t = synthetic_hive();
    t.nodes[11].values[1].data = HiveValue::Inline(vec![1, 2, 3, 4]);
    t.nodes[11].values[2].data = HiveValue::Segmented(vec![vec![1, 0, 0, 0]]);
    let records = bluetooth_records(&t);
    let kb = lookup(&records, "BT+2.4G KB").unwrap();
    assert_eq!(kb.erand, "0");
    assert_eq!(kb.ediv, "0");
}

#[test]
fn extraction_drops_keys_without_a_name() {
    let t = synthetic_hive();
    let mut names: Vec<(String, String)> = Vec::new();
    upsert(&mut names, "fc51caac5711".to_string(), "Mouse".to_string());
    let records = get_bt_device_info(&t, &names);
    assert_eq!(records.len(), 1);
    assert_eq!(lookup(&records, "Mouse").unwrap().mac, "FC:51:CA:AC:57:11");
}

#[test]
fn extraction_of_a_hive_without_the_subtree_is_empty() {
    let t = HiveTree { nodes: vec![node("ROOT", vec![], vec![])] };
    assert!(get_bt_name_map(&t).is_empty());
    assert!(bluetooth_records(&t).is_empty());
}

#[test]
fn extraction_ignores_numbers_of_another_declared_type() {
    let mut t = synthetic_hive();
    t.nodes[11].values[1].data_type = 3;
    t.nodes[11].values[2].data_type = 5;
    let records = bluetooth_records(&t);
    let kb = lookup(&records, "BT+2.4G KB").unwrap();
    assert_eq!(kb.erand, "0");
    assert_eq!(kb.ediv, "0");
    assert_eq!(kb.ltk, "039D9DE0952391208B4F755257E6425B");
}

#[test]
fn hive_load_walks_the_path_then_the_subtree() {
    let mut load = HiveLoad::new(1000);
    let names = ["ROOT", "ControlSet001", "Services", "BTHPORT"];
    let segments = ["ControlSet001", "Services", "BTHPORT", "Parameters"];
    for (k, (name, segment)) in names.iter().zip(segments.iter()).enumerate() {
        assert_eq!(load.next_key(), Some(k));
        assert_eq!(load.want(k), KeyWant::Subkey(segment.to_string()));
        assert_eq!(load.deliver(name.to_string(), Vec::new(), 1), Ok(()));
    }
    assert_eq!(load.next_key(), Some(4));
    assert_eq!(load.want(4), KeyWant::AllSubkeys);
    assert_eq!(load.deliver("Parameters".to_string(), Vec::new(), 2), Ok(()));
    assert_eq!(load.deliver("Devices".to_string(), Vec::new(), 0), Ok(()));
    assert_eq!(load.deliver("Keys".to_string(), Vec::new(), 1), Ok(()));
    assert_eq!(load.want(7), KeyWant::AllSubkeys);
    assert_eq!(load.deliver("adapter".to_string(), Vec::new(), 1), Ok(()));
    assert_eq!(load.want(8), KeyWant::NoSubkeys);
    assert_eq!(load.deliver("device".to_string(), Vec::new(), 1), Err(HiveReadError::Malformed));
    assert_eq!(load.deliver("device".to_string(), Vec::new(), 0), Ok(()));
    assert_eq!(load.next_key(), None);
    let tree = load.finish();
    assert_eq!(tree.nodes.len(), 9);
    assert_eq!(tree.nodes[4].subkeys, vec![5, 6]);
    assert_eq!(tree.nodes[6].subkeys, vec![7]);
    assert_eq!(tree.nodes[8].name, "device");
}

#[test]
fn hive_load_refuses_extra_keys() {
    let mut load = HiveLoad::new(1);
    assert_eq!(load.deliver("ROOT".to_string(), Vec::new(), 2), Err(HiveReadError::Malformed));
    assert_eq!(load.deliver("ROOT".to_string(), Vec::new(), 1), Ok(()));
    assert_eq!(load.deliver("ControlSet001".to_string(), Vec::new(), 1), Err(HiveReadError::TooManyKeys));
    assert_eq!(load.deliver("ControlSet001".to_string(), Vec::new(), 0), Ok(()));
    assert_eq!(load.next_key(), None);
    assert_eq!(load.finish().nodes.len(), 2);
}

#[test]
fn reconcile_renames_and_rewrites_a_matching_device() {
    let mut records: Vec<(String, BtDeviceInfo)> = Vec::new();
    let new_ltk = "DEADBEEF00000000DEADBEEF00000000";
    upsert(
        &mut records,
        "Basilisk X HyperSpeed".to_string(),
        info("00:11:22:33:44:55", new_ltk, "12345", "998877665544"),
    );
    let u = plan_device_update("00:00:00:00:00:00", SAMPLE, &records).unwrap();
    assert_eq!(u.rename_to, Some("00:11:22:33:44:55".to_string()));
    assert_eq!(get_ltk(&u.content), new_ltk);
    assert_eq!(u.result.display_name, "Basilisk X HyperSpeed");
    assert_eq!(u.result.old_dir, "00:00:00:00:00:00");
    assert_eq!(u.result.new_mac, "00:11:22:33:44:55");
    assert_eq!(u.result.old_ltk, "D23FEDC5F5806AF8A37D41D81EE4DA5C");
    assert_eq!(u.result.new_ltk, new_ltk);

    let again = plan_device_update("00:11:22:33:44:55", &u.content, &records).unwrap();
    assert_eq!(again.rename_to, None);
    assert_eq!(again.content, u.content);
}

#[test]
fn reconcile_leaves_unknown_devices_alone() {
    let mut records: Vec<(String, BtDeviceInfo)> = Vec::new();
    upsert(&mut records, "Other".to_string(), info("00:11:22:33:44:55", "AA", "1", "2"));
    assert!(plan_device_update("00:00:00:00:00:00", SAMPLE, &records).is_none());
    assert!(plan_device_update("00:00:00:00:00:00", "[General]\n", &records).is_none());
    assert!(plan_device_update("00:00:00:00:00:00", "Name=other\n", &records).is_none());
}

#[test]
fn device_directories_hold_a_colon() {
    assert!(is_valid_device_directory("00:11:22:33:44:55"));
    assert!(!is_valid_device_directory("settings"));
    assert!(!is_valid_device_directory(""));
}

#[test]
fn run_outcome_restarts_only_after_updates() {
    assert_eq!(run_outcome(&Vec::new(), true), RunOutcome::NoMatches);
    let mut records: Vec<(String, BtDeviceInfo)> = Vec::new();
    upsert(&mut records, "Basilisk X HyperSpeed".to_string(), info("00:11:22:33:44:55", "AA", "1", "2"));
    let u = plan_device_update("x:y", SAMPLE, &records).unwrap();
    assert_eq!(run_outcome(&vec![u.result.clone()], true), RunOutcome::Updated { restart: true });
    assert_eq!(run_outcome(&vec![u.result], false), RunOutcome::Updated { restart: false });
}
