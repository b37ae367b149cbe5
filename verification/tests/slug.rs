use tola::config::SlugCase;
use tola::utils::slug::{apply_case, capitalize_words, collapse_consecutive_separators, sanitize, FORBIDDEN_CHARS};

const SEP_UNDERSCORE: char = '_';
const SEP_DASH: char = '-';

fn collapse(s: &str, sep: char) -> String {
    let v: Vec<char> = s.chars().collect();
    collapse_consecutive_separators(&v, sep).into_iter().collect()
}

#[test]
fn test_sanitize_replaces_forbidden_chars() {
    assert_eq!(sanitize("Hello<World>", SEP_UNDERSCORE), "Hello_World");
}

#[test]
fn test_sanitize_replaces_all_forbidden_chars() {
    assert_eq!(
        sanitize("a<b>c:d|e?f*g#h\\i(j)k[l]m", SEP_UNDERSCORE),
        "a_b_c_d_e_f_g_h_i_j_k_l_m"
    );
}

#[test]
fn test_sanitize_replaces_whitespace() {
    assert_eq!(sanitize("Hello World", SEP_UNDERSCORE), "Hello_World");
}

#[test]
fn test_sanitize_replaces_various_whitespace() {
    assert_eq!(sanitize("Hello\tWorld\nTest", SEP_UNDERSCORE), "Hello_World_Test");
}

#[test]
fn test_sanitize_trims() {
    assert_eq!(sanitize("  Hello World  ", SEP_UNDERSCORE), "Hello_World");
}

#[test]
fn test_sanitize_preserves_unicode() {
    assert_eq!(sanitize("CaféWorld", SEP_UNDERSCORE), "CaféWorld");
}

#[test]
fn test_sanitize_complex_input() {
    assert_eq!(
        sanitize("  Hello (World) [Test]: #anchor?  ", SEP_UNDERSCORE),
        "Hello_World_Test_anchor"
    );
}

#[test]
fn test_sanitize_empty_string() {
    assert_eq!(sanitize("", SEP_UNDERSCORE), "");
}

#[test]
fn test_sanitize_only_forbidden_chars() {
    assert_eq!(sanitize("<>:?*#", SEP_UNDERSCORE), "");
}

#[test]
fn test_sanitize_mixed_content() {
    assert_eq!(
        sanitize("My Article (2024) - Part #1", SEP_UNDERSCORE),
        "My_Article_2024_-_Part_1"
    );
}

#[test]
fn test_sanitize_consecutive_separators() {
    assert_eq!(sanitize("A:   B", SEP_DASH), "A-B");
    assert_eq!(sanitize("A::::  ::: ::B", SEP_DASH), "A-B");
    assert_eq!(sanitize("Hello:::World", SEP_DASH), "Hello-World");
    assert_eq!(sanitize("a   b", SEP_DASH), "a-b");
    assert_eq!(sanitize("a<><><>b", SEP_DASH), "a-b");
    assert_eq!(sanitize("test::: :::test", SEP_UNDERSCORE), "test_test");
    assert_eq!(sanitize("A[[[B]]]C", SEP_DASH), "A-B-C");
    assert_eq!(sanitize("a((((b))))c", SEP_DASH), "a-b-c");
}

#[test]
fn test_collapse_consecutive_separators() {
    assert_eq!(collapse("a--b--c", SEP_DASH), "a-b-c");
    assert_eq!(collapse("--abc--", SEP_DASH), "abc");
    assert_eq!(collapse("------", SEP_DASH), "");
    assert_eq!(collapse("a-b-c", SEP_DASH), "a-b-c");
}

#[test]
fn test_sanitize_unicode_text() {
    assert_eq!(sanitize("Café", SEP_UNDERSCORE), "Café");
    assert_eq!(sanitize("München", SEP_UNDERSCORE), "München");
    assert_eq!(sanitize("Über", SEP_UNDERSCORE), "Über");
}

#[test]
fn test_sanitize_unicode_with_forbidden() {
    assert_eq!(sanitize("Café#World", SEP_UNDERSCORE), "Café_World");
    assert_eq!(sanitize("Über(Mich)", SEP_UNDERSCORE), "Über_Mich");
    assert_eq!(sanitize("Ich[Ich]", SEP_UNDERSCORE), "Ich_Ich");
    assert_eq!(sanitize("Start：End", SEP_UNDERSCORE), "Start：End");
    assert_eq!(sanitize("Start:End", SEP_UNDERSCORE), "Start_End");
}

#[test]
fn test_sanitize_unicode_with_spaces() {
    assert_eq!(sanitize("Café World", SEP_UNDERSCORE), "Café_World");
    assert_eq!(sanitize("  Über Mich  ", SEP_UNDERSCORE), "Über_Mich");
}

#[test]
fn test_sanitize_japanese() {
    assert_eq!(sanitize("こんにちは", SEP_UNDERSCORE), "こんにちは");
    assert_eq!(sanitize("コンニチハ", SEP_UNDERSCORE), "コンニチハ");
    assert_eq!(sanitize("日本語#テスト", SEP_UNDERSCORE), "日本語_テスト");
}

#[test]
fn test_sanitize_korean() {
    assert_eq!(sanitize("안녕하세요", SEP_UNDERSCORE), "안녕하세요");
    assert_eq!(sanitize("한글 테스트", SEP_UNDERSCORE), "한글_테스트");
}

#[test]
fn test_sanitize_cyrillic() {
    assert_eq!(sanitize("Привет", SEP_UNDERSCORE), "Привет");
    assert_eq!(sanitize("Москва#Россия", SEP_UNDERSCORE), "Москва_Россия");
}

#[test]
fn test_sanitize_european_accents() {
    assert_eq!(sanitize("café", SEP_UNDERSCORE), "café");
    assert_eq!(sanitize("naïve", SEP_UNDERSCORE), "naïve");
    assert_eq!(sanitize("über", SEP_UNDERSCORE), "über");
    assert_eq!(sanitize("señor", SEP_UNDERSCORE), "señor");
}

#[test]
fn test_sanitize_mixed_unicode_ascii() {
    assert_eq!(sanitize("Hello Café", SEP_UNDERSCORE), "Hello_Café");
    assert_eq!(sanitize("About Über", SEP_UNDERSCORE), "About_Über");
    assert_eq!(sanitize("2024år", SEP_UNDERSCORE), "2024år");
    assert_eq!(sanitize("No1", SEP_UNDERSCORE), "No1");
}

#[test]
fn test_sanitize_emoji() {
    assert_eq!(sanitize("Hello 🎉", SEP_UNDERSCORE), "Hello_🎉");
    assert_eq!(sanitize("测试 🚀 emoji", SEP_UNDERSCORE), "测试_🚀_emoji");
}

#[test]
fn test_apply_case_lower() {
    assert_eq!(apply_case("Hello World", &SlugCase::Lower), "hello world");
    assert_eq!(apply_case("HELLO", &SlugCase::Lower), "hello");
}

#[test]
fn test_apply_case_upper() {
    assert_eq!(apply_case("Hello World", &SlugCase::Upper), "HELLO WORLD");
    assert_eq!(apply_case("hello", &SlugCase::Upper), "HELLO");
}

#[test]
fn test_apply_case_capitalize() {
    assert_eq!(apply_case("hello world", &SlugCase::Capitalize), "Hello World");
    assert_eq!(apply_case("hello-world", &SlugCase::Capitalize), "Hello-World");
    assert_eq!(apply_case("hello_world", &SlugCase::Capitalize), "Hello_World");
    assert_eq!(apply_case("HELLO WORLD", &SlugCase::Capitalize), "Hello World");
}

#[test]
fn test_apply_case_preserve() {
    assert_eq!(apply_case("Hello World", &SlugCase::Preserve), "Hello World");
    assert_eq!(apply_case("hElLo", &SlugCase::Preserve), "hElLo");
}

#[test]
fn test_capitalize_words() {
    assert_eq!(capitalize_words("hello world"), "Hello World");
    assert_eq!(capitalize_words("hello-world-test"), "Hello-World-Test");
    assert_eq!(capitalize_words("hello_world_test"), "Hello_World_Test");
    assert_eq!(capitalize_words("HELLO"), "Hello");
    assert_eq!(capitalize_words(""), "");
}

#[test]
fn test_forbidden_chars_constant() {
    let expected = ['<', '>', ':', '|', '?', '*', '#', '\\', '(', ')', '[', ']', '\t', '\r', '\n'];
    for c in &expected {
        assert!(FORBIDDEN_CHARS.contains(c), "Missing forbidden char: {:?}", c);
    }
}

// ---------------------------------------------------------------------------
// Paths and configured slugs
// ---------------------------------------------------------------------------

use tola::config::{SlugConfig, SlugMode, SlugSeparator};
use tola::utils::slug::{slugify_fragment, slugify_full, slugify_path, transform_path_components};

const CASE: SlugCase = SlugCase::Preserve;

fn mode(s: &str) -> SlugMode {
    match s {
        "no" => SlugMode::No,
        "full" => SlugMode::Full,
        "safe" => SlugMode::Safe,
        _ => SlugMode::Ascii,
    }
}

fn make_config(path_mode: &str, fragment_mode: &str, case: &str, sep: char) -> SlugConfig {
    SlugConfig {
        path: mode(path_mode),
        fragment: mode(fragment_mode),
        case: match case {
            "lower" => SlugCase::Lower,
            "upper" => SlugCase::Upper,
            "capitalize" => SlugCase::Capitalize,
            _ => SlugCase::Preserve,
        },
        separator: if sep == '-' { SlugSeparator::Dash } else { SlugSeparator::Underscore },
    }
}

#[test]
fn test_transform_path_simple() {
    let result = transform_path_components("content/posts/hello-world", SEP_UNDERSCORE, &CASE, false);
    assert_eq!(result, "content/posts/hello-world");
}

#[test]
fn test_transform_path_with_forbidden_chars() {
    let result = transform_path_components("content/posts/hello<world>", SEP_UNDERSCORE, &CASE, false);
    assert_eq!(result, "content/posts/hello_world");
}

#[test]
fn test_transform_path_with_spaces() {
    let result = transform_path_components("content/my posts/hello world", SEP_UNDERSCORE, &CASE, false);
    assert_eq!(result, "content/my_posts/hello_world");
}

#[test]
fn test_transform_path_unicode() {
    let result = transform_path_components("content/Artikel/Café", SEP_UNDERSCORE, &CASE, false);
    assert_eq!(result, "content/Artikel/Café");
}

#[test]
fn test_transform_path_unicode_with_forbidden() {
    let result = transform_path_components("content/Artikel#1/Café[World]", SEP_UNDERSCORE, &CASE, false);
    assert_eq!(result, "content/Artikel_1/Café_World");
}

#[test]
fn test_transform_path_mixed_unicode() {
    let result = transform_path_components("posts/2024年/第一篇 文章", SEP_UNDERSCORE, &CASE, false);
    assert_eq!(result, "posts/2024年/第一篇_文章");
}

#[test]
fn test_transform_path_japanese() {
    let result = transform_path_components("ブログ/記事/こんにちは", SEP_UNDERSCORE, &CASE, false);
    assert_eq!(result, "ブログ/記事/こんにちは");
}

#[test]
fn test_transform_path_with_hyphen_separator() {
    let result = transform_path_components("content/my posts/hello world", SEP_DASH, &CASE, false);
    assert_eq!(result, "content/my-posts/hello-world");
}

#[test]
fn test_transform_path_ascii_mode() {
    let result = transform_path_components("content/Artikel/Café", SEP_DASH, &SlugCase::Preserve, true);
    assert_eq!(result, "content/Artikel/Cafe");
}

#[test]
fn test_transform_path_ascii_with_case_lower() {
    let result = transform_path_components("content/Artikel/Café", SEP_DASH, &SlugCase::Lower, true);
    assert_eq!(result, "content/artikel/cafe");
}

#[test]
fn test_transform_path_with_case_lower() {
    let result = transform_path_components("Content/Posts/Hello World", SEP_DASH, &SlugCase::Lower, false);
    assert_eq!(result, "content/posts/hello-world");
}

#[test]
fn test_transform_path_with_case_upper() {
    let result = transform_path_components("content/posts/hello world", SEP_DASH, &SlugCase::Upper, false);
    assert_eq!(result, "CONTENT/POSTS/HELLO-WORLD");
}

#[test]
fn test_transform_path_with_case_capitalize() {
    let result = transform_path_components("content/posts/hello world", SEP_DASH, &SlugCase::Capitalize, false);
    assert_eq!(result, "Content/Posts/Hello-World");
}

#[test]
fn test_slugify_full_basic() {
    assert_eq!(slugify_full("Hello World", SEP_DASH), "hello-world");
    assert_eq!(slugify_full("Hello World", SEP_UNDERSCORE), "hello_world");
}

#[test]
fn test_slugify_full_unicode_to_ascii() {
    assert_eq!(slugify_full("München", SEP_DASH), "munchen");
    assert_eq!(slugify_full("Åland", SEP_DASH), "aland");
    assert_eq!(slugify_full("café", SEP_DASH), "cafe");
    assert_eq!(slugify_full("über", SEP_DASH), "uber");
    assert_eq!(slugify_full("naïve", SEP_DASH), "naive");
}

#[test]
fn test_slugify_full_mixed() {
    assert_eq!(slugify_full("Hello München", SEP_DASH), "hello-munchen");
    assert_eq!(slugify_full("2024år", SEP_DASH), "2024ar");
}

#[test]
fn test_slugify_fragment_modes() {
    let config = make_config("safe", "full", "lower", SEP_DASH);
    assert_eq!(slugify_fragment("Hello World", &config), "hello-world");
    assert_eq!(slugify_fragment("München", &config), "munchen");

    let config = make_config("safe", "safe", "preserve", SEP_UNDERSCORE);
    assert_eq!(slugify_fragment("Hello World", &config), "Hello_World");
    assert_eq!(slugify_fragment("München", &config), "München");

    let config = make_config("safe", "ascii", "lower", SEP_DASH);
    assert_eq!(slugify_fragment("Hello World", &config), "hello-world");
    assert_eq!(slugify_fragment("München", &config), "munchen");

    let config = make_config("safe", "no", "preserve", SEP_DASH);
    assert_eq!(slugify_fragment("Hello World", &config), "Hello World");
}

#[test]
fn test_slugify_path_modes() {
    let config = make_config("full", "safe", "lower", SEP_DASH);
    assert_eq!(slugify_path("content/My Posts/Hello", &config), "content/my-posts/hello");

    let config = make_config("safe", "safe", "preserve", SEP_UNDERSCORE);
    assert_eq!(slugify_path("content/My Posts/Hello", &config), "content/My_Posts/Hello");

    let config = make_config("ascii", "safe", "lower", SEP_DASH);
    assert_eq!(slugify_path("content/My Posts/München", &config), "content/my-posts/munchen");

    let config = make_config("no", "safe", "preserve", SEP_DASH);
    assert_eq!(slugify_path("content/My Posts/Hello", &config), "content/My Posts/Hello");
}

#[test]
fn test_slugify_path_full_mode_preserves_structure() {
    let config = make_config("full", "safe", "lower", SEP_DASH);
    assert_eq!(slugify_path("posts/北京/天安门", &config), "posts/bei-jing/tian-an-men");
    assert_eq!(slugify_path("a/b/c/d/e", &config), "a/b/c/d/e");
    assert_eq!(slugify_path("Blog Posts/2024/Hello World", &config), "blog-posts/2024/hello-world");
    assert_eq!(slugify_path("posts/C++ Guide/Part #1", &config), "posts/c++-guide/part-1");
    assert_eq!(slugify_path("Hello World", &config), "hello-world");
}

// Laws on concrete values: collapsing is idempotent and leaves clean text.
#[test]
fn collapse_is_idempotent_on_examples() {
    for s in ["a--b--c", "--x-", "-", "", "abc", "a---"] {
        let once = collapse(s, SEP_DASH);
        assert_eq!(collapse(&once, SEP_DASH), once);
        assert!(!once.starts_with('-') && !once.ends_with('-') && !once.contains("--"));
    }
}
