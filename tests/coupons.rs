use std::collections::HashSet;

use coupons::buffered::{generate_coupons, generate_coupons_seeded};
use coupons::charset::symbol_for_byte;
use coupons::code::{digits_from_bytes, encode_index, render_code};
use coupons::export::{coupon_row, header_row, read_coupon_csv, write_coupon_list_to_csv, write_coupons_to_csv};
use coupons::generator::generate_coupon;
use coupons::pig_latin::{convert_to_pig, is_first_letter_consonant, word_translation};
use coupons::registry::DedupRegistry;
use coupons::request::{capped_space, validate, CouponError, SPACE_CAP};
use coupons::stats::mode;
use coupons::stream::{coupon_generator, coupon_generator_seeded, entropy_rng, StreamState};
use coupons::tickets::WorkTickets;

fn is_alphabet(c: char) -> bool {
    c.is_ascii_uppercase() || c.is_ascii_digit()
}

fn check_code_set(codes: &[String], count: usize, total: usize, prefix: &str) {
    assert_eq!(codes.len(), count);
    let set: HashSet<&String> = codes.iter().collect();
    assert_eq!(set.len(), count);
    for c in codes {
        assert_eq!(c.chars().count(), total);
        assert!(c.starts_with(prefix));
        assert!(c.chars().skip(prefix.chars().count()).all(is_alphabet));
    }
}

#[test]
fn symbols_follow_byte_modulo() {
    assert_eq!(symbol_for_byte(0), 'A');
    assert_eq!(symbol_for_byte(25), 'Z');
    assert_eq!(symbol_for_byte(26), '0');
    assert_eq!(symbol_for_byte(35), '9');
    assert_eq!(symbol_for_byte(36), 'A');
    assert_eq!(symbol_for_byte(255), 'D');
}

#[test]
fn digits_and_rendering() {
    assert_eq!(digits_from_bytes(&vec![0, 37, 255]), vec![0, 1, 3]);
    assert_eq!(encode_index(37, 2), vec![1, 1]);
    assert_eq!(encode_index(5, 3), vec![5, 0, 0]);
    assert_eq!(render_code("X", &vec![0, 35, 26]), "XA90");
}

#[test]
fn space_is_a_power_of_36() {
    assert_eq!(capped_space(0), 1);
    assert_eq!(capped_space(2), 1296);
    assert_eq!(capped_space(5), 60_466_176);
    assert_eq!(capped_space(40), SPACE_CAP);
}

#[test]
fn prefix_longer_than_length_is_refused() {
    assert_eq!(validate(3, 1, "LISA").err(), Some(CouponError::InitialsTooLong(4, 3)));
    assert_eq!(generate_coupons(3, 1, "LISA", 1).err(), Some(CouponError::InitialsTooLong(4, 3)));
    assert!(matches!(coupon_generator(3, 1, "LISA"), Err(CouponError::InitialsTooLong(4, 3))));
}

#[test]
fn boundary_of_the_space() {
    let ok = validate(2, 1296, "").unwrap();
    assert_eq!(ok.space, 1296);
    assert_eq!(ok.suffix_len, 2);
    assert_eq!(validate(2, 1297, "").err(), Some(CouponError::TooManyCoupons(1297, 1296)));
    let all = generate_coupons_seeded(2, 1296, "", 4, 7).unwrap();
    check_code_set(&all, 1296, 2, "");
}

#[test]
fn prefix_filling_the_length() {
    let one = generate_coupons(3, 1, "ABC", 2).unwrap();
    assert_eq!(one, vec!["ABC".to_string()]);
    assert_eq!(generate_coupons(3, 2, "ABC", 2).err(), Some(CouponError::TooManyCoupons(2, 1)));
}

#[test]
fn validation_is_repeatable() {
    let a = validate(6, 100, "Q").unwrap();
    let b = validate(6, 100, "Q").unwrap();
    assert_eq!(a.space, b.space);
    assert_eq!(a.space, 60_466_176);
    assert_eq!(validate(1, 37, "").err(), validate(1, 37, "").err());
}

#[test]
fn unique_for_any_worker_count() {
    for workers in [1usize, 2, 8] {
        let codes = generate_coupons(6, 500, "W", workers).unwrap();
        check_code_set(&codes, 500, 6, "W");
    }
    let none = generate_coupons(6, 10, "W", 0).unwrap();
    check_code_set(&none, 10, 6, "W");
}

#[test]
fn export_round_trip() {
    let codes = generate_coupons(8, 50, "RT", 2).unwrap();
    let text = write_coupon_list_to_csv(&codes).unwrap();
    assert_eq!(text.lines().count(), 51);
    assert_eq!(text.lines().next(), Some("Coupon"));
    let back = read_coupon_csv(&text).unwrap();
    assert_eq!(back, codes);
    let a: HashSet<String> = back.into_iter().collect();
    let b: HashSet<String> = codes.into_iter().collect();
    assert_eq!(a, b);
}

#[test]
fn export_text_is_exact() {
    let text = write_coupon_list_to_csv(&vec!["AB1".to_string(), "ZZ9".to_string()]).unwrap();
    assert_eq!(text, "Coupon\nAB1\nZZ9\n");
    assert_eq!(write_coupon_list_to_csv(&vec![]).unwrap(), "Coupon\n");
    let quoted = write_coupon_list_to_csv(&vec!["A,B".to_string()]).unwrap();
    assert_eq!(quoted, "Coupon\n\"A,B\"\n");
}

#[test]
fn reading_refuses_malformed_text() {
    assert_eq!(read_coupon_csv("Coupon"), None);
    assert_eq!(read_coupon_csv("Coupon\nAB"), None);
    assert_eq!(read_coupon_csv("Header\nAB\n"), None);
    assert_eq!(read_coupon_csv("Coupon\n"), Some(vec![]));
    assert_eq!(read_coupon_csv("Coupon\nX1\n\n"), Some(vec!["X1".to_string(), String::new()]));
}

#[test]
fn two_ten_symbol_codes() {
    let codes = generate_coupons(10, 2, "", 4).unwrap();
    check_code_set(&codes, 2, 10, "");
    assert_ne!(codes[0], codes[1]);
}

#[test]
fn one_code_after_two_letter_prefix() {
    let codes = generate_coupons(3, 1, "AB", 1).unwrap();
    check_code_set(&codes, 1, 3, "AB");
}

#[test]
fn large_request_is_accepted() {
    let v = validate(5, 10_000_000, "").unwrap();
    assert_eq!(v.space, 60_466_176);
    let codes = generate_coupons(5, 1000, "", 8).unwrap();
    check_code_set(&codes, 1000, 5, "");
}

#[test]
fn stream_yields_required_count_then_stops() {
    let mut s = coupon_generator(7, 20, "ST").unwrap();
    let mut got = Vec::new();
    assert!(!s.is_exhausted());
    assert_eq!(s.state(), StreamState::Pending);
    while let Some(c) = s.next() {
        got.push(c);
        if got.len() < 20 {
            assert_eq!(s.state(), StreamState::Emitting);
        }
    }
    assert!(s.is_exhausted());
    assert_eq!(s.state(), StreamState::Exhausted);
    assert_eq!(s.next(), None);
    check_code_set(&got, 20, 7, "ST");
}

#[test]
fn stream_export_drains_it() {
    let mut s = coupon_generator_seeded(6, 30, "E", 11).unwrap();
    let first = s.next().unwrap();
    let text = write_coupons_to_csv(&mut s).unwrap();
    assert!(s.is_exhausted());
    let rest = read_coupon_csv(&text).unwrap();
    assert_eq!(rest.len(), 29);
    assert!(!rest.contains(&first));
    let mut all = rest.clone();
    all.push(first);
    check_code_set(&all, 30, 6, "E");
}

#[test]
fn stream_of_an_exhausted_space() {
    let mut s = coupon_generator_seeded(1, 36, "", 3).unwrap();
    let mut got = Vec::new();
    while let Some(c) = s.next() {
        got.push(c);
    }
    check_code_set(&got, 36, 1, "");
    let all: HashSet<String> = "ABCDEFGHIJKLMNOPQRSTUVWXYZ0123456789".chars().map(|c| c.to_string()).collect();
    let seen: HashSet<String> = got.into_iter().collect();
    assert_eq!(seen, all);
}

#[test]
fn seeded_runs_repeat() {
    let a = generate_coupons_seeded(9, 40, "S", 3, 99).unwrap();
    let b = generate_coupons_seeded(9, 40, "S", 3, 99).unwrap();
    assert_eq!(a, b);
}

#[test]
fn random_suffixes_are_not_constant() {
    let mut rng = entropy_rng();
    let mut seen = HashSet::new();
    for _ in 0..10 {
        let c = generate_coupon(&mut rng, 10, "P");
        assert_eq!(c.len(), 11);
        assert!(c.starts_with('P'));
        seen.insert(c);
    }
    assert!(seen.len() > 1);
    assert!(!seen.contains("PAAAAAAAAAA"));
}

#[test]
fn registry_accepts_each_suffix_once() {
    let mut r = DedupRegistry::new();
    assert!(r.try_accept(vec![1, 2, 3]));
    assert!(!r.try_accept(vec![1, 2, 3]));
    assert!(r.try_accept(vec![3, 2, 1]));
    assert!(r.contains(&vec![3, 2, 1]));
    assert!(!r.contains(&vec![0, 0, 0]));
    assert_eq!(r.len(), 2);
    assert_eq!(r.into_entries(), vec![vec![1, 2, 3], vec![3, 2, 1]]);
}

#[test]
fn tickets_are_issued_once() {
    let mut t = WorkTickets::new(2);
    assert_eq!(t.claim_next_ticket(), Some(0));
    assert_eq!(t.claim_next_ticket(), Some(1));
    assert_eq!(t.claim_next_ticket(), None);
    assert!(t.is_exhausted());
}

#[test]
fn pig_latin_words() {
    assert_eq!(convert_to_pig("lisa"), "isa-lay");
    assert_eq!(convert_to_pig("first"), "irst-fay");
    assert_eq!(convert_to_pig("apple"), "apple-hay");
    assert_eq!(word_translation("first"), "irst");
    assert_eq!(word_translation(""), "");
    assert_eq!(is_first_letter_consonant("apple"), (false, 'a'));
    assert_eq!(is_first_letter_consonant("zoo"), (true, 'z'));
}

#[test]
fn mode_of_numbers() {
    assert_eq!(mode(&vec![1, 2, 3, 4, 5, 6, 7, 2, 3, 4, 4, 4]), Some(4));
    assert_eq!(mode(&vec![]), None);
    assert_eq!(mode(&vec![9, 8, 8, 9]), Some(9));
}

#[test]
fn rows_one_at_a_time() {
    assert_eq!(header_row().unwrap(), "Coupon\n");
    assert_eq!(coupon_row("AB1").unwrap(), "AB1\n");
    assert_eq!(coupon_row("A\"B").unwrap(), "\"A\"\"B\"\n");
}

#[test]
fn empty_stream_exports_header_only() {
    let mut s = coupon_generator(5, 0, "").unwrap();
    assert_eq!(write_coupons_to_csv(&mut s).unwrap(), "Coupon\n");
    assert!(s.is_exhausted());
}

#[test]
fn stream_export_has_one_line_per_code() {
    let mut s = coupon_generator(4, 25, "K").unwrap();
    let text = write_coupons_to_csv(&mut s).unwrap();
    assert_eq!(text.lines().count(), 26);
    assert_eq!(text.lines().next(), Some("Coupon"));
    let codes = read_coupon_csv(&text).unwrap();
    check_code_set(&codes, 25, 4, "K");
}
