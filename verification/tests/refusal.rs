use atlas_spark::refusal::{detect, refusal_sentence};

#[test]
fn matches_canonical_refusal() {
    let r = detect("I cannot help with that request. Here is why…", None).unwrap();
    assert_eq!(r, "I cannot help with that request.");
}

#[test]
fn matches_with_leading_whitespace() {
    let r = detect("   I'm sorry, but I can't assist with weapons design.", None).unwrap();
    assert_eq!(r, "I'm sorry, but I can't assist with weapons design.");
}

#[test]
fn mixed_case_matches() {
    assert!(detect("As AN ai, I cannot provide that.", None).is_some());
}

#[test]
fn non_refusal_returns_none() {
    assert!(detect("Sure, here's how to do that.", None).is_none());
    assert!(detect("", None).is_none());
    assert!(detect("I can do that for you.", None).is_none());
}

#[test]
fn kill_switch_returns_none() {
    let got = detect("I cannot help with that.", Some("1"));
    assert!(got.is_none());
}

#[test]
fn no_terminator_falls_back_to_line() {
    let r = detect("I cannot answer that\nnext paragraph", None).unwrap();
    assert_eq!(r, "I cannot answer that");
}

#[test]
fn other_switch_values_leave_detection_on() {
    assert_eq!(detect("I cannot help.", Some("0")).unwrap(), "I cannot help.");
    assert_eq!(detect("I cannot help.", Some("true")).unwrap(), "I cannot help.");
}

#[test]
fn question_and_exclamation_marks_end_the_sentence() {
    assert_eq!(detect("I must decline! Really.", None).unwrap(), "I must decline!");
    assert_eq!(detect("I won't help? Yes.", None).unwrap(), "I won't help?");
}

#[test]
fn the_models_own_words_come_back() {
    let r = detect("\t I CANNOT Do That. x", None).unwrap();
    assert_eq!(r, "I CANNOT Do That.");
    assert!("\t I CANNOT Do That. x".contains(&r));
}

#[test]
fn letters_are_lowered_before_they_are_compared() {
    // The Kelvin sign lowers to an ordinary k, which no opening starts with.
    assert!(detect("\u{212a} cannot help.", None).is_none());
    // A dotted capital I lowers to two characters, which no opening has.
    assert!(detect("\u{130} cannot help.", None).is_none());
    assert!(detect("I APOLOGIZE, BUT I CAN'T.", None).is_some());
}

#[test]
fn a_terminator_past_the_bound_is_not_looked_for() {
    let long: String = format!("I cannot {}\nmore.", "a".repeat(600));
    let r = detect(&long, None).unwrap();
    assert_eq!(r, format!("I cannot {}", "a".repeat(600)));
}

#[test]
fn trailing_blanks_of_the_line_are_cut() {
    assert_eq!(detect("I cannot say   \nx", None).unwrap(), "I cannot say");
    assert_eq!(detect("I cannot say   ", None).unwrap(), "I cannot say");
}

#[test]
fn only_the_opening_decides() {
    assert!(detect("Well, I cannot help.", None).is_none());
    assert!(detect("i can't help with it", None).is_some());
    assert!(detect("i can't say", None).is_none());
}

#[test]
fn sentence_follows_the_head_that_is_given() {
    let head: Vec<char> = "i cannot ".chars().collect();
    assert_eq!(refusal_sentence("  Anything. Else", &head).unwrap(), "Anything.");
    let other: Vec<char> = "sure".chars().collect();
    assert!(refusal_sentence("I cannot help.", &other).is_none());
}

#[test]
fn an_ascii_opening_decides_whatever_follows_it() {
    assert!(detect("I cannot \u{e9}couter.", None).is_some());
    assert!(detect("I must decline\u{2014}sorry.", None).is_some());
    assert!(detect("Of course \u{2014} I cannot wait!", None).is_none());
    assert!(detect("I can\u{2019}t help with that.", None).is_none());
}
