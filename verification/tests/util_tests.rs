use tdo::text::{blank_from, join, same_text, starts_with, to_lowercase, trim};
use tdo::util::{candidate, generate_id, id_of, slug_from_lowercase, slugify, MAX_DRAWS, SLUG_MAX};

#[test]
fn slugify_simple() {
    assert_eq!(slugify("fix the login bug"), "fix-the-login-bug");
}

#[test]
fn slugify_special_chars() {
    assert_eq!(slugify("hello, world! #42"), "hello-world-42");
}

#[test]
fn slugify_leading_trailing_special() {
    assert_eq!(slugify("--hello--"), "hello");
}

#[test]
fn slugify_empty() {
    assert_eq!(slugify(""), "");
}

#[test]
fn slugify_all_special() {
    assert_eq!(slugify("!@#$%"), "");
}

#[test]
fn slugify_unicode() {
    assert_eq!(slugify("caf√© latte"), "caf-latte");
}

#[test]
fn slugify_truncates_long_title() {
    let long = "a".repeat(100);
    let slug = slugify(&long);
    assert_eq!(slug.len(), 50);
}

#[test]
fn slugify_consecutive_separators() {
    assert_eq!(slugify("hello   ---   world"), "hello-world");
}

#[test]
fn slugify_lowercases_ascii_and_unicode() {
    assert_eq!(slugify("Fix THE Bug"), "fix-the-bug");
    // The Kelvin sign has the ASCII letter k as its lowercase form.
    assert_eq!(slugify("10 \u{212a}"), "10-k");
    assert_eq!(slugify("\u{c9}T\u{c9}"), "t");
}

#[test]
fn slugify_is_idempotent_on_its_output() {
    for title in ["fix the login bug", "hello, world! #42", "--hello--", "", "A  b  C"] {
        let once = slugify(title);
        assert_eq!(slugify(&once), once);
    }
}

#[test]
fn slugify_cut_behind_a_hyphen_keeps_the_hyphen() {
    let title = format!("{} b", "a".repeat(49));
    let slug = slugify(&title);
    assert_eq!(slug, format!("{}-", "a".repeat(49)));
    assert_eq!(slug.chars().count(), SLUG_MAX);
    // Here alone a second pass changes the slug: the hyphen at the end goes.
    assert_eq!(slugify(&slug), "a".repeat(49));
}

#[test]
fn slugify_caps_at_fifty_characters() {
    let title = "ab ".repeat(40);
    let slug = slugify(&title);
    assert_eq!(slug.chars().count(), 50);
    assert_eq!(slug, "ab-".repeat(17)[..50].to_string());
}

#[test]
fn slug_from_lowercase_keeps_letters_and_digits_only() {
    let lower: Vec<char> = "a_b  c9!".chars().collect();
    assert_eq!(slug_from_lowercase(&lower), "a-b-c9");
    let upper: Vec<char> = "aBc".chars().collect();
    assert_eq!(slug_from_lowercase(&upper), "a-c");
}

#[test]
fn generate_id_format() {
    let (id, _) = generate_id(|_| false);
    let id = id.unwrap();
    assert_eq!(id.len(), 4);
    assert!(id.chars().all(|c| c.is_ascii_hexdigit()));
}

#[test]
fn generate_id_retries_on_collision() {
    let mut calls = 0;
    let (id, _) = generate_id(|_| {
        calls += 1;
        calls < 3 // reject first two attempts
    });
    let id = id.unwrap();
    assert_eq!(id.len(), 4);
    assert!(calls >= 3);
}

#[test]
fn generate_id_draws_once_more_than_it_is_turned_down() {
    for rejected in [0u32, 1, 2, 7, 100] {
        let mut calls = 0u32;
        let (id, _) = generate_id(|_| {
            calls += 1;
            calls <= rejected
        });
        assert!(id.is_some());
        assert_eq!(calls, rejected + 1);
    }
}

#[test]
fn generate_id_never_returns_a_taken_id() {
    let taken: Vec<String> = (0u16..=0xffff).filter(|n| n % 16 != 5).map(id_of).collect();
    let set: std::collections::HashSet<String> = taken.into_iter().collect();
    for _ in 0..20 {
        let (id, _) = generate_id(|c| set.contains(c));
        let id = id.unwrap();
        assert!(!set.contains(&id));
        assert!(id.ends_with('5'));
    }
}

#[test]
fn generate_id_gives_up_when_everything_is_taken() {
    let mut calls = 0u32;
    let (id, _) = generate_id(|_| {
        calls += 1;
        true
    });
    assert!(id.is_none());
    assert_eq!(calls, MAX_DRAWS);
}

#[test]
fn generate_id_is_lowercase_hex() {
    for _ in 0..200 {
        let (id, _) = generate_id(|_| false);
        let id = id.unwrap();
        assert_eq!(id.chars().count(), 4);
        assert!(id.chars().all(|c| c.is_ascii_digit() || ('a'..='f').contains(&c)));
    }
}

#[test]
fn id_of_pads_with_zeros() {
    assert_eq!(id_of(0), "0000");
    assert_eq!(id_of(0x00af), "00af");
    assert_eq!(id_of(0xa3f9), "a3f9");
    assert_eq!(id_of(0xffff), "ffff");
    assert_eq!(id_of(4096), "1000");
}

#[test]
fn candidate_passes_a_free_id_only() {
    let mut free = |_: &str| false;
    assert_eq!(candidate(0x1234, &mut free), Some("1234".to_string()));
    let mut taken = |s: &str| s == "1234";
    assert_eq!(candidate(0x1234, &mut taken), None);
    assert_eq!(candidate(0x1235, &mut taken), Some("1235".to_string()));
}

#[test]
fn to_lowercase_follows_unicode() {
    let lower: String = to_lowercase("HeLLo \u{c9}\u{130}Z").into_iter().collect();
    assert_eq!(lower, "HeLLo \u{c9}\u{130}Z".chars().flat_map(|c| c.to_lowercase()).collect::<String>());
    assert_eq!(to_lowercase("ABC xyz 09").into_iter().collect::<String>(), "abc xyz 09");
}

#[test]
fn trim_removes_white_space_around() {
    assert_eq!(trim("  buy milk \n"), "buy milk");
    assert_eq!(trim("\u{a0}x\u{3000}"), "x");
    assert_eq!(trim(" \t "), "");
    assert_eq!(trim(""), "");
    assert_eq!(trim("a  b"), "a  b");
    let text: Vec<char> = "ab \n\t".chars().collect();
    assert!(blank_from(&text, 2));
    assert!(blank_from(&text, 5));
    assert!(!blank_from(&text, 1));
}

#[test]
fn text_comparisons() {
    assert!(starts_with("a3f9", "a3"));
    assert!(starts_with("a3f9", ""));
    assert!(starts_with("a3f9", "a3f9"));
    assert!(!starts_with("a3f9", "a3f90"));
    assert!(!starts_with("a3f9", "3f"));
    assert!(same_text("caf\u{e9}", "caf\u{e9}"));
    assert!(!same_text("a", "ab"));
    assert!(!same_text("ab", "a"));
}

#[test]
fn join_puts_the_separator_between() {
    let none: Vec<String> = Vec::new();
    assert_eq!(join(&none, ", "), "");
    assert_eq!(join(&vec!["a".to_string()], ", "), "a");
    assert_eq!(join(&vec!["a".to_string(), "b".to_string(), "".to_string()], ", "), "a, b, ");
}
