use forkcordion::{FinderFlags, FinderInfo, FourCC, MacInfo};

#[test]
fn alias_flag_word_sets_only_is_alias() {
    let flags = FinderFlags(0x8000);
    assert!(flags.is_alias());
    assert!(!flags.is_invisible());
    assert!(!flags.has_bundle());
    assert!(!flags.name_locked());
    assert!(!flags.is_stationery());
    assert!(!flags.has_custom_icon());
    assert!(!flags.has_been_inited());
    assert!(!flags.has_no_inits());
    assert!(!flags.is_shared());
    assert!(!flags.requires_switch_launch());
    assert_eq!(flags.color(), 0);
    assert!(!flags.is_on_desktop());
}

#[test]
fn color_bits_decode_to_seven_with_no_other_flags() {
    let flags = FinderFlags(0x000E);
    assert_eq!(flags.color(), 7);
    assert!(!flags.is_alias());
    assert!(!flags.is_invisible());
    assert!(!flags.has_bundle());
    assert!(!flags.name_locked());
    assert!(!flags.is_stationery());
    assert!(!flags.has_custom_icon());
    assert!(!flags.has_been_inited());
    assert!(!flags.has_no_inits());
    assert!(!flags.is_shared());
    assert!(!flags.requires_switch_launch());
    assert!(!flags.is_on_desktop());
}

#[test]
fn every_flag_bit_has_its_documented_position() {
    assert!(FinderFlags(0x4000).is_invisible());
    assert!(FinderFlags(0x2000).has_bundle());
    assert!(FinderFlags(0x1000).name_locked());
    assert!(FinderFlags(0x0800).is_stationery());
    assert!(FinderFlags(0x0400).has_custom_icon());
    assert!(FinderFlags(0x0100).has_been_inited());
    assert!(FinderFlags(0x0080).has_no_inits());
    assert!(FinderFlags(0x0040).is_shared());
    assert!(FinderFlags(0x0020).requires_switch_launch());
    assert!(FinderFlags(0x0001).is_on_desktop());
}

#[test]
fn finder_info_decodes_its_sixteen_bytes() {
    // "TEXT", "ttxt", flags 0x8000, location (-1, 2), folder 7.
    let bytes: Vec<u8> = vec![
        b'T', b'E', b'X', b'T', b't', b't', b'x', b't', 0x80, 0x00, 0xFF, 0xFF, 0x00, 0x02, 0x00,
        0x07,
    ];
    let info = FinderInfo::from_bytes(&bytes);
    assert_eq!(info.file_type.0, FourCC(0x54455854));
    assert_eq!(info.creator.0, FourCC(0x74747874));
    assert_eq!(info.flags.0, 0x8000);
    assert_eq!(info.location.vertical, -1);
    assert_eq!(info.location.horizontal, 2);
    assert_eq!(info.folder.0, 7);
}

#[test]
fn four_cc_hands_back_its_big_endian_bytes() {
    let cc = FourCC(0x54455854);
    assert_eq!(cc.bytes(), [b'T', b'E', b'X', b'T']);
}

#[test]
fn mac_info_keeps_its_two_low_bits() {
    let info = MacInfo::from_bytes(&[0x00, 0x00, 0x00, 0x03]);
    assert!(info.is_locked());
    assert!(info.is_protected());
    let locked_only = MacInfo(0x1);
    assert!(locked_only.is_locked());
    assert!(!locked_only.is_protected());
    let protected_only = MacInfo(0x2);
    assert!(!protected_only.is_locked());
    assert!(protected_only.is_protected());
    let neither = MacInfo(0xFFFF_FFFC);
    assert!(!neither.is_locked());
    assert!(!neither.is_protected());
}
