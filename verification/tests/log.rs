use tola::utils::log::{
    calc_prefix_len, truncate_str, BAR_WRAPPER_LEN, BRACKET_LEN, MAX_BAR_WIDTH, MIN_BAR_WIDTH,
    SPACE_AFTER_PREFIX, SPACE_BEFORE_COUNT,
};

#[test]
fn test_calc_prefix_len_short_module() {
    assert_eq!(calc_prefix_len(1), 4);
}

#[test]
fn test_calc_prefix_len_typical_module() {
    assert_eq!(calc_prefix_len(7), 10);
}

#[test]
fn test_calc_prefix_len_empty() {
    assert_eq!(calc_prefix_len(0), 3);
}

#[test]
fn test_calc_prefix_len_long_module() {
    assert_eq!(calc_prefix_len(12), 15);
}

#[test]
fn test_truncate_str_short_string() {
    assert_eq!(truncate_str("hello", 10), "hello");
}

#[test]
fn test_truncate_str_exact_length() {
    assert_eq!(truncate_str("hello", 5), "hello");
}

#[test]
fn test_truncate_str_needs_truncation() {
    assert_eq!(truncate_str("hello world", 5), "hello");
}

#[test]
fn test_truncate_str_unicode_boundary() {
    assert_eq!(truncate_str("你好", 4), "你");
}

#[test]
fn test_truncate_str_unicode_exact() {
    assert_eq!(truncate_str("你好", 3), "你");
}

#[test]
fn test_truncate_str_unicode_full() {
    assert_eq!(truncate_str("你好", 6), "你好");
}

#[test]
fn test_truncate_str_empty() {
    assert_eq!(truncate_str("", 10), "");
}

#[test]
fn test_truncate_str_zero_limit() {
    assert_eq!(truncate_str("hello", 0), "");
}

#[test]
fn test_truncate_str_mixed_unicode() {
    let s = "a你b";
    assert_eq!(truncate_str(s, 4), "a你");
    assert_eq!(truncate_str(s, 3), "a");
    assert_eq!(truncate_str(s, 2), "a");
}

#[test]
fn test_constants_values() {
    assert_eq!(BRACKET_LEN, 2);
    assert_eq!(SPACE_AFTER_PREFIX, 1);
    assert_eq!(BAR_WRAPPER_LEN, 3);
    assert_eq!(SPACE_BEFORE_COUNT, 1);
    assert_eq!(MIN_BAR_WIDTH, 10);
    assert_eq!(MAX_BAR_WIDTH, 40);
}

#[test]
fn test_bar_width_constraints() {
    assert!(MIN_BAR_WIDTH < MAX_BAR_WIDTH);
}

// A truncated string is a prefix of the input and never longer than the limit.
#[test]
fn truncation_is_a_prefix_within_the_limit() {
    for s in ["héllo wörld", "你好世界", "", "abc"] {
        for n in 0..12 {
            let t = truncate_str(s, n);
            assert!(s.starts_with(t));
            assert!(t.len() <= n);
        }
    }
}
