use rep_str::IntoRepStr;
use rep_str::RepStr;

#[test]
fn rep_str_new_and_repeat_unwrap() {
    let repstr = RepStr::new("#", 50);
    assert!(format!("{empty:#>width$}", empty = "", width = 20) == repstr.repeat_unwrap(20));
    assert!(repstr.repeat_unwrap(20).as_ptr() == repstr.repeat(12).unwrap().as_ptr())
}

#[test]
fn rep_str_into_rep_str_check() {
    let repstr = "#".repeat_cache(20);
    assert!(format!("{empty:#>width$}", empty = "", width = 20) == repstr.repeat(20).unwrap());
    assert!(None == repstr.repeat(21));
}

#[test]
fn hash_pattern_scenario() {
    let repstr = RepStr::new("#", 50);
    assert_eq!(repstr.repeat(10), Some("##########"));
    assert_eq!(repstr.repeat(20), Some("####################"));
    assert_eq!(repstr.repeat(51), None);
}

#[test]
fn multi_byte_unit_scenario() {
    let repstr = RepStr::new("\u{1F980}", 20);
    assert_eq!(repstr.repeat(20), Some("\u{1F980}".repeat(20).as_str()));
    assert_eq!(repstr.repeat(21), None);
    assert_eq!(repstr.repeat_unwrap(3), "\u{1F980}\u{1F980}\u{1F980}");
}

#[test]
fn round_trip_small_counts() {
    let base = "ab";
    let repstr = RepStr::new(base, 6);
    for r in 0..=6 {
        assert_eq!(repstr.repeat(r), Some(base.repeat(r).as_str()));
        assert_eq!(repstr.repeat_unwrap(r), base.repeat(r));
    }
}

#[test]
fn boundary_full_and_one_past() {
    let repstr = RepStr::new("ab", 5);
    assert_eq!(repstr.repeat(5), Some("ababababab"));
    assert_eq!(repstr.repeat_unwrap(5), "ababababab");
    assert_eq!(repstr.repeat(6), None);
}

#[test]
fn empty_base_every_count_is_empty() {
    let repstr = RepStr::new("", 7);
    for r in 0..=7 {
        assert_eq!(repstr.repeat(r), Some(""));
        assert_eq!(repstr.repeat_unwrap(r), "");
    }
}

#[test]
fn zero_max_repeat_time() {
    let repstr = RepStr::new("x", 0);
    assert_eq!(repstr.repeat(0), Some(""));
    assert_eq!(repstr.repeat(1), None);
    assert_eq!(repstr.repeat_unwrap(0), "");
}

#[test]
fn views_alias_one_buffer() {
    let repstr = RepStr::new("xyz", 9);
    let base = repstr.repeat_unwrap(9).as_ptr();
    for r in 0..=9 {
        assert_eq!(repstr.repeat_unwrap(r).as_ptr(), base);
        assert_eq!(repstr.repeat(r).unwrap().as_ptr(), base);
    }
}

#[test]
fn conversion_matches_constructor() {
    let by_trait = "#".repeat_cache(20);
    let by_new = RepStr::new("#", 20);
    for r in 0..=21 {
        assert_eq!(by_trait.repeat(r), by_new.repeat(r));
    }
    for r in 0..=20 {
        assert_eq!(by_trait.repeat_unwrap(r), by_new.repeat_unwrap(r));
    }
}
