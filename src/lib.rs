//! Generation of unique alphanumeric codes ("coupons").
//!
//! A request names a total length, a prefix and a number of codes. After
//! validation against the size of the code space, codes are produced by
//! random draws against a registry that accepts each suffix once, either all
//! at once (`buffered`) or one per pull (`stream`), and can be exported as a
//! one-column table with a `Coupon` header (`export`).
//!
//! `pig_latin` and `stats` hold two small text and number helpers.

use vstd::prelude::*;

pub mod charset;
pub mod code;
pub mod registry;
pub mod request;
pub mod random;
pub mod tickets;
pub mod generator;
pub mod stream;
pub mod buffered;
pub mod export;
pub mod pig_latin;
pub mod stats;

verus! {

} // verus!
