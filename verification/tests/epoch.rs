use jalali_rs::{
    gregorian_to_jdn, gregorian_to_unix, jalali_to_unix, jdn_to_gregorian, unix_to_gregorian,
    unix_to_jalali,
};

#[test]
fn test_unix_to_jalali() {
    let result = unix_to_jalali(0);
    assert_eq!(result, Some((1348, 10, 11)));
}

#[test]
fn test_jalali_to_unix() {
    let result = jalali_to_unix(1348, 10, 11);
    assert_eq!(result, Some(0));
}

#[test]
fn unix_to_jalali_rejects_negative_timestamps() {
    assert_eq!(unix_to_jalali(-1), None);
    assert_eq!(unix_to_jalali(-86_400), None);
    assert_eq!(unix_to_jalali(i64::MIN), None);
    assert_eq!(unix_to_gregorian(-1), None);
}

#[test]
fn unix_to_jalali_takes_the_day_of_the_timestamp() {
    assert_eq!(unix_to_jalali(86_399), Some((1348, 10, 11)));
    assert_eq!(unix_to_jalali(86_400), Some((1348, 10, 12)));
    assert_eq!(unix_to_jalali(1_766_806_014), Some((1404, 10, 6)));
    assert_eq!(unix_to_jalali(951_782_400), Some((1378, 12, 10)));
    assert_eq!(unix_to_jalali(1_710_892_800), Some((1403, 1, 1)));
}

#[test]
fn unix_to_gregorian_takes_the_day_of_the_timestamp() {
    assert_eq!(unix_to_gregorian(0), Some((1970, 1, 1)));
    assert_eq!(unix_to_gregorian(86_399), Some((1970, 1, 1)));
    assert_eq!(unix_to_gregorian(951_782_400), Some((2000, 2, 29)));
    assert_eq!(unix_to_gregorian(2_147_483_647), Some((2038, 1, 19)));
}

#[test]
fn jalali_to_unix_rejects_days_before_1970() {
    assert_eq!(jalali_to_unix(1348, 10, 10), None);
    assert_eq!(jalali_to_unix(1300, 1, 1), None);
    assert_eq!(jalali_to_unix(1, 1, 1), None);
    assert_eq!(jalali_to_unix(i32::MIN, 1, 1), None);
    assert_eq!(jalali_to_unix(1348, 10, u32::MAX), None);
}

#[test]
fn jalali_to_unix_gives_midnight() {
    assert_eq!(jalali_to_unix(1348, 10, 12), Some(86_400));
    assert_eq!(jalali_to_unix(1404, 10, 6), Some(1_766_793_600));
    assert_eq!(jalali_to_unix(1403, 1, 1), Some(1_710_892_800));
}

#[test]
fn jalali_to_unix_takes_any_month_and_day() {
    assert_eq!(jalali_to_unix(1404, 0, 0), Some(1_739_750_400));
    assert_eq!(jalali_to_unix(1404, 4_000_000_000, 7), Some(10_368_001_740_960_000));
}

#[test]
fn midnight_timestamps_come_back() {
    let mut timestamp: i64 = 0;
    while timestamp < 86_400 * 366 * 200 {
        let (jy, jm, jd) = unix_to_jalali(timestamp).unwrap();
        assert_eq!(jalali_to_unix(jy, jm, jd), Some(timestamp));
        timestamp += 86_400;
    }
}

#[test]
fn timestamps_within_a_day_come_back_as_its_midnight() {
    for timestamp in [1i64, 86_399, 1_766_806_014, 4_102_444_799] {
        let (jy, jm, jd) = unix_to_jalali(timestamp).unwrap();
        assert_eq!(jalali_to_unix(jy, jm, jd), Some(timestamp - timestamp % 86_400));
    }
}

#[test]
fn timestamps_come_back_up_to_the_last_32_bit_year() {
    let last_midnight: i64 = 67_767_976_233_446_400;
    assert_eq!(unix_to_gregorian(last_midnight), Some((i32::MAX, 12, 31)));
    assert_eq!(unix_to_jalali(last_midnight), Some((2147483472, 3, 14)));
    assert_eq!(jalali_to_unix(2147483472, 3, 14), Some(last_midnight));
    assert_eq!(unix_to_jalali(last_midnight + 86_399), Some((2147483472, 3, 14)));
}

#[test]
fn timestamps_past_the_last_32_bit_year_do_not_come_back() {
    let first_lost: i64 = 67_767_976_233_532_800;
    assert_eq!(unix_to_gregorian(first_lost), Some((i32::MIN, 1, 1)));
    let (jy, jm, jd) = unix_to_jalali(first_lost).unwrap();
    assert_eq!((jy, jm, jd), (2147482583, 4294967278, 4294967287));
    assert_eq!(jalali_to_unix(jy, jm, jd), None);
    assert_eq!(unix_to_jalali(i64::MAX), Some((219249893, 3, 7)));
    assert_eq!(jalali_to_unix(219249893, 3, 7), Some(6_918_814_356_681_600));
}

#[test]
fn julian_day_numbers() {
    assert_eq!(gregorian_to_jdn(1970, 1, 1), 2_440_588);
    assert_eq!(gregorian_to_jdn(1969, 12, 31), 2_440_587);
    assert_eq!(gregorian_to_jdn(2000, 1, 1), 2_451_545);
    assert_eq!(gregorian_to_jdn(0, 1, 1), 1_721_060);
    assert_eq!(gregorian_to_jdn(-4713, 11, 24), 0);
    assert_eq!(gregorian_to_jdn(2025, 12, 27), 2_461_037);
}

#[test]
fn dates_of_julian_days() {
    assert_eq!(jdn_to_gregorian(2_440_588), (1970, 1, 1));
    assert_eq!(jdn_to_gregorian(2_451_545), (2000, 1, 1));
    assert_eq!(jdn_to_gregorian(1_721_060), (0, 1, 1));
    assert_eq!(jdn_to_gregorian(0), (-4713, 11, 24));
    assert_eq!(jdn_to_gregorian(2_461_037), (2025, 12, 27));
}

#[test]
fn julian_days_come_back() {
    let mut jdn: i64 = 1_721_060;
    while jdn < 1_721_060 + 146_097 * 3 {
        let (year, month, day) = jdn_to_gregorian(jdn);
        assert_eq!(gregorian_to_jdn(year, month as i32, day as i32), jdn);
        jdn += 1;
    }
}

#[test]
fn gregorian_to_unix_gives_midnight_or_nothing() {
    assert_eq!(gregorian_to_unix(1970, 1, 1), Some(0));
    assert_eq!(gregorian_to_unix(1969, 12, 31), None);
    assert_eq!(gregorian_to_unix(2038, 1, 19), Some(2_147_472_000));
    assert_eq!(gregorian_to_unix(1970, 1, u32::MAX), None);
    assert_eq!(gregorian_to_unix(i32::MAX, 12, 31), Some(67_767_976_233_446_400));
}
