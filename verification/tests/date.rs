use forkcordion::{Date, Dates, MAC_EPOCH};

#[test]
fn mac_epoch_constant_is_the_year_2000() {
    assert_eq!(MAC_EPOCH, 946_684_800);
}

#[test]
fn zero_decodes_to_the_mac_epoch() {
    let date = Date(0);
    assert_eq!(date.as_unix_timestamp(), 946_684_800);
    let dt = date.to_datetime().expect("within calendar range");
    assert_eq!(dt.year(), 2000);
    assert_eq!(dt.month(), time::Month::January);
    assert_eq!(dt.day(), 1);
    assert_eq!(dt.hour(), 0);
    assert_eq!(dt.minute(), 0);
    assert_eq!(dt.second(), 0);
    assert_eq!(dt.offset(), time::UtcOffset::UTC);
}

#[test]
fn minus_mac_epoch_decodes_to_the_unix_epoch() {
    let date = Date(-946_684_800);
    assert_eq!(date.as_unix_timestamp(), 0);
    let dt = date.to_datetime().expect("within calendar range");
    assert_eq!(dt.year(), 1970);
    assert_eq!(dt.month(), time::Month::January);
    assert_eq!(dt.day(), 1);
    assert_eq!(dt.hour(), 0);
    assert_eq!(dt.minute(), 0);
    assert_eq!(dt.second(), 0);
}

#[test]
fn extreme_counts_still_convert() {
    assert!(Date(i32::MIN).to_datetime().is_some());
    assert!(Date(i32::MAX).to_datetime().is_some());
}

#[test]
fn dates_block_decodes_all_four_big_endian_counts() {
    let mut bytes = Vec::new();
    bytes.extend_from_slice(&[0x00, 0x00, 0x00, 0x01]);
    bytes.extend_from_slice(&[0xFF, 0xFF, 0xFF, 0xFF]);
    bytes.extend_from_slice(&[0x80, 0x00, 0x00, 0x00]);
    bytes.extend_from_slice(&[0x7F, 0xFF, 0xFF, 0xFF]);
    let dates = Dates::from_bytes(&bytes);
    assert_eq!(dates.create, Date(1));
    assert_eq!(dates.modify, Date(-1));
    assert_eq!(dates.backup, Date(i32::MIN));
    assert_eq!(dates.access, Date(i32::MAX));
}
