use bargo::names::{sanitize_lowercase, sanitize_name};

#[test]
fn capitals_become_small_and_other_characters_dashes() {
    assert_eq!(sanitize_name("My_App v2"), "my-app-v2");
    assert_eq!(sanitize_name("Billing/API"), "billing-api");
}

#[test]
fn dns_names_stay_as_they_are() {
    assert_eq!(sanitize_name("my-app.v2"), "my-app.v2");
    assert_eq!(sanitize_name("a"), "a");
    assert_eq!(sanitize_name(&"x".repeat(253)), "x".repeat(253));
}

#[test]
fn sanitizing_twice_is_sanitizing_once() {
    for name in ["My_App v2", "--Team.A--", "ÄÖÜ-x", "plain", "", "-._-"] {
        let once = sanitize_name(name);
        assert_eq!(sanitize_name(&once), once);
    }
}

#[test]
fn long_names_are_cut_to_253_characters() {
    let name = sanitize_name(&"A".repeat(300));
    assert_eq!(name, "a".repeat(253));
    let name = sanitize_name(&"é".repeat(300));
    assert_eq!(name, "");
}

#[test]
fn separators_at_the_cut_are_dropped() {
    let mut name = "a".repeat(252);
    name.push_str("-bcd");
    assert_eq!(sanitize_name(&name), "a".repeat(252));
}

#[test]
fn names_start_and_end_with_an_alphanumeric_character() {
    assert_eq!(sanitize_name("-app-"), "app");
    assert_eq!(sanitize_name(".app."), "app");
    assert_eq!(sanitize_name("_.app-."), "app");
    assert_eq!(sanitize_name("_a_"), "a");
}

#[test]
fn separators_alone_leave_nothing() {
    assert_eq!(sanitize_name("-._-"), "");
    assert_eq!(sanitize_name(""), "");
}

#[test]
fn characters_beyond_ascii_are_replaced_one_by_one() {
    assert_eq!(sanitize_name("aÉÉb"), "a--b");
    assert_eq!(sanitize_name("a\nb"), "a-b");
}

#[test]
fn the_text_in_small_letters_is_cleaned() {
    assert_eq!(sanitize_lowercase("team_a"), "team-a");
    assert_eq!(sanitize_lowercase("teamAb"), "team-b");
    assert_eq!(sanitize_lowercase("team$b"), "team-b");
}

#[test]
fn small_letters_first_make_no_difference() {
    assert_eq!(sanitize_name("AB"), "ab");
    for name in ["AB", "My_App v2", "ÄÖÜ-X", "\u{212a}elvin", "ΑΣ", "İ", ""] {
        assert_eq!(sanitize_name(&name.to_lowercase()), sanitize_name(name));
    }
    for c in '\0'..'\u{250}' {
        let name = format!("a{c}b");
        assert_eq!(sanitize_name(&name.to_lowercase()), sanitize_name(&name));
    }
}
