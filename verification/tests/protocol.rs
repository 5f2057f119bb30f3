use pumpkin_advancements::select_advancements_tab::CSelectAdvancementsTab;
use pumpkin_advancements::ser::{
    all_strings_fit, fits_string, write_bool, write_mc_string, write_string, write_string_list,
    write_u8, write_var_int, MAX_STRING_BYTES,
};
use pumpkin_advancements::update_advancements::{
    criterion_to_nbt, Advancement, AdvancementDisplayData, AdvancementFrameType, CUpdateAdvancements,
    Criteria, CRITERIA_IDENTIFIER_KEY, DEFAULT_BACKGROUND_TEXTURE,
};

fn var_int(v: i32) -> Vec<u8> {
    let mut buf = Vec::new();
    write_var_int(&mut buf, v);
    buf
}

fn string(s: &str) -> Vec<u8> {
    let mut buf = Vec::new();
    write_string(&mut buf, s);
    buf
}

fn prefixed(s: &str) -> Vec<u8> {
    let mut out = vec![s.len() as u8];
    out.extend_from_slice(s.as_bytes());
    out
}

#[test]
fn var_int_known_values() {
    assert_eq!(var_int(0), vec![0x00]);
    assert_eq!(var_int(1), vec![0x01]);
    assert_eq!(var_int(127), vec![0x7f]);
    assert_eq!(var_int(128), vec![0x80, 0x01]);
    assert_eq!(var_int(255), vec![0xff, 0x01]);
    assert_eq!(var_int(300), vec![0xac, 0x02]);
    assert_eq!(var_int(25565), vec![0xdd, 0xc7, 0x01]);
    assert_eq!(var_int(2097151), vec![0xff, 0xff, 0x7f]);
    assert_eq!(var_int(2147483647), vec![0xff, 0xff, 0xff, 0xff, 0x07]);
    assert_eq!(var_int(-1), vec![0xff, 0xff, 0xff, 0xff, 0x0f]);
    assert_eq!(var_int(-2147483648), vec![0x80, 0x80, 0x80, 0x80, 0x08]);
}

#[test]
fn law_var_int_reads_back_values() {
    for v in [0i32, 1, 127, 128, 300, 65535, 1 << 21, i32::MAX, -1, i32::MIN, -300] {
        let bytes = var_int(v);
        assert!(!bytes.is_empty() && bytes.len() <= 5);
        for b in &bytes[..bytes.len() - 1] {
            assert!(*b >= 0x80);
        }
        assert!(*bytes.last().unwrap() < 0x80);
        let mut value: u64 = 0;
        for (i, b) in bytes.iter().enumerate() {
            value += ((*b & 0x7f) as u64) << (7 * i);
        }
        assert_eq!(value, v as u32 as u64);
    }
}

#[test]
fn bool_and_byte_writers() {
    let mut buf = vec![9u8];
    write_bool(&mut buf, true);
    write_bool(&mut buf, false);
    write_u8(&mut buf, 200);
    assert_eq!(buf, vec![9, 1, 0, 200]);
}

#[test]
fn string_is_length_then_utf8() {
    assert_eq!(string(""), vec![0]);
    assert_eq!(string("abc"), vec![3, b'a', b'b', b'c']);
    assert_eq!(string("é"), vec![2, 0xc3, 0xa9]);
    let long = "x".repeat(200);
    let mut expected = vec![0xc8, 0x01];
    expected.extend_from_slice(long.as_bytes());
    assert_eq!(string(&long), expected);
}

#[test]
fn string_bound_is_in_bytes() {
    assert!(fits_string(&"a".repeat(MAX_STRING_BYTES)));
    assert!(!fits_string(&"a".repeat(MAX_STRING_BYTES + 1)));
    assert!(!fits_string(&"é".repeat(16384)));
    assert!(all_strings_fit(&["a".to_string(), "b".to_string()]));
    assert!(!all_strings_fit(&["a".to_string(), "b".repeat(40000)]));
}

#[test]
fn string_list_is_count_then_strings() {
    let mut buf = Vec::new();
    write_string_list(&mut buf, &["ab".to_string(), "c".to_string()]);
    assert_eq!(buf, vec![2, 2, b'a', b'b', 1, b'c']);
}

#[test]
fn nbt_string_is_big_endian_length() {
    let mut buf = Vec::new();
    write_mc_string(&mut buf, "ab");
    assert_eq!(buf, vec![0, 2, b'a', b'b']);
    let mut buf = Vec::new();
    let s = "y".repeat(300);
    write_mc_string(&mut buf, &s);
    assert_eq!(&buf[..2], &[0x01, 0x2c]);
    assert_eq!(buf.len(), 302);
}

#[test]
fn law_nbt_string_length_prefix_wraps_above_16_bits() {
    let mut buf = Vec::new();
    let s = "z".repeat(70000);
    write_mc_string(&mut buf, &s);
    assert_eq!(&buf[..2], &[0x11, 0x70]);
    assert_eq!(buf.len(), 70002);
}

#[test]
fn criterion_nbt_bytes() {
    let bytes = criterion_to_nbt("x");
    let mut expected = vec![8, 0, CRITERIA_IDENTIFIER_KEY.len() as u8];
    expected.extend_from_slice(CRITERIA_IDENTIFIER_KEY.as_bytes());
    expected.extend_from_slice(&[0, 1, b'x']);
    assert_eq!(bytes, expected);
    assert_eq!(CRITERIA_IDENTIFIER_KEY, "minecraft:criteria_identifier");
}

#[test]
fn select_tab_packets() {
    let mut buf = Vec::new();
    CSelectAdvancementsTab::empty().write_packet_data(&mut buf);
    assert_eq!(buf, vec![0]);
    let packet = CSelectAdvancementsTab::new(Some("minecraft:story/root"));
    assert!(packet.strings_fit());
    let mut buf = Vec::new();
    packet.write_packet_data(&mut buf);
    let mut expected = vec![1];
    expected.extend(prefixed("minecraft:story/root"));
    assert_eq!(buf, expected);
    let none = CSelectAdvancementsTab::new(None);
    assert!(none.tab_id.is_none());
}

#[test]
fn select_tab_too_long_does_not_fit() {
    let long = "t".repeat(40000);
    assert!(!CSelectAdvancementsTab::new(Some(&long)).strings_fit());
}

#[test]
fn criteria_new_keeps_identifier() {
    assert_eq!(Criteria::new("minecraft:crafted").identifier, "minecraft:crafted");
    assert_eq!(Criteria::new(String::from("abc")).identifier, "abc");
    assert_eq!(Criteria::new("minecraft:story/mine_stone").identifier, "minecraft:story/mine_stone");
}

#[test]
fn frame_type_numbers() {
    assert_eq!(AdvancementFrameType::Task.to_protocol_id(), 0);
    assert_eq!(AdvancementFrameType::Goal.to_protocol_id(), 1);
    assert_eq!(AdvancementFrameType::Challenge.to_protocol_id(), 2);
}

fn sample_advancement() -> Advancement {
    Advancement {
        id: "a:b".to_string(),
        parent_id: Some("a:r".to_string()),
        display_data: Some(AdvancementDisplayData {
            title: "T".to_string(),
            description: "D".to_string(),
            frame_type: AdvancementFrameType::Goal,
            flags: 6,
            icon: "i".to_string(),
            background_texture: None,
        }),
        criteria: vec!["c1".to_string(), "c2".to_string()],
        requirements: vec![vec!["c1".to_string()], vec!["c2".to_string(), "c1".to_string()]],
    }
}

#[test]
fn update_packet_bytes() {
    let advs = vec![sample_advancement()];
    let ids = vec!["gone".to_string()];
    let progress = vec![("a:b".to_string(), Criteria::new("c1"))];
    let packet = CUpdateAdvancements::new(true, &advs, &ids, &progress);
    assert!(packet.strings_fit());
    let mut buf = Vec::new();
    packet.write_packet_data(&mut buf);

    let mut expected = vec![1, 1];
    expected.extend(prefixed("a:b"));
    expected.push(1);
    expected.extend(prefixed("a:r"));
    expected.push(1);
    expected.extend(prefixed("T"));
    expected.extend(prefixed("D"));
    expected.push(1);
    expected.push(6);
    expected.extend(prefixed("i"));
    expected.extend(prefixed(DEFAULT_BACKGROUND_TEXTURE));
    expected.push(2);
    expected.extend(prefixed("c1"));
    expected.extend(prefixed("c2"));
    expected.push(2);
    expected.push(1);
    expected.extend(prefixed("c1"));
    expected.push(2);
    expected.extend(prefixed("c2"));
    expected.extend(prefixed("c1"));
    expected.push(1);
    expected.extend(prefixed("gone"));
    expected.push(1);
    expected.extend(prefixed("a:b"));
    expected.extend(criterion_to_nbt("c1"));
    assert_eq!(buf, expected);
}

#[test]
fn update_packet_without_parent_or_display() {
    let adv = Advancement {
        id: "x".to_string(),
        parent_id: None,
        display_data: None,
        criteria: vec![],
        requirements: vec![],
    };
    let advs = vec![adv];
    let packet = CUpdateAdvancements::new(false, &advs, &[], &[]);
    let mut buf = Vec::new();
    packet.write_packet_data(&mut buf);
    assert_eq!(buf, vec![0, 1, 1, b'x', 0, 0, 0, 0, 0, 0]);
}

#[test]
fn update_packet_own_background() {
    let mut adv = sample_advancement();
    if let Some(d) = adv.display_data.as_mut() {
        d.background_texture = Some("bg".to_string());
        d.frame_type = AdvancementFrameType::Challenge;
    }
    let advs = vec![adv];
    let packet = CUpdateAdvancements::new(false, &advs, &[], &[]);
    let mut buf = Vec::new();
    packet.write_packet_data(&mut buf);
    let needle = prefixed("bg");
    assert!(buf.windows(needle.len()).any(|w| w == needle.as_slice()));
    let dflt = prefixed(DEFAULT_BACKGROUND_TEXTURE);
    assert!(!buf.windows(dflt.len()).any(|w| w == dflt.as_slice()));
}

#[test]
fn update_packet_long_string_does_not_fit() {
    let mut adv = sample_advancement();
    adv.requirements[1][0] = "r".repeat(40000);
    let advs = vec![adv];
    assert!(!CUpdateAdvancements::new(false, &advs, &[], &[]).strings_fit());
    assert!(!advs[0].strings_fit());
    let progress = vec![("p".repeat(33000), Criteria::new("c"))];
    assert!(!CUpdateAdvancements::new(false, &[], &[], &progress).strings_fit());
}
