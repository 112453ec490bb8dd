//! Conversion of dates between the Gregorian and the Jalali (Persian)
//! calendar, with Unix timestamps and dates written as text.

pub mod arith;
pub mod assumed;
pub mod convert;
pub mod date;
pub mod decimal;
pub mod digits;
pub mod epoch;
pub mod gregorian;
pub mod jalali;
pub mod julian_day;
pub mod split;
pub mod text;

pub use convert::{gregorian_to_jalali, jalali_to_gregorian};
pub use digits::{latin_digits_to_persian, persian_or_arabic_digits_to_latin};
pub use epoch::{gregorian_to_unix, jalali_to_unix, unix_to_gregorian, unix_to_jalali};
pub use julian_day::{gregorian_to_jdn, jdn_to_gregorian};
pub use text::{parse_gregorian_string_to_jalali_string, parse_jalali_string_to_gregorian_string};
