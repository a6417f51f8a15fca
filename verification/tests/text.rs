use shelf_viewer::text::{
    byte_length, push_centered, push_padded_end, push_padded_start, push_repeated, same_text,
};

#[test]
fn runs_of_one_character() {
    let mut out = String::from("a");
    push_repeated(&mut out, '\u{2581}', 3);
    assert_eq!(out, "a\u{2581}\u{2581}\u{2581}");
    push_repeated(&mut out, 'x', 0);
    assert_eq!(out, "a\u{2581}\u{2581}\u{2581}");
}

#[test]
fn padding_counts_characters() {
    let mut out = String::new();
    push_padded_end(&mut out, "ab", 4);
    assert_eq!(out, "ab  ");
    push_padded_start(&mut out, "cd", 5);
    assert_eq!(out, "ab     cd");
    let mut out = String::new();
    push_padded_end(&mut out, "é", 2);
    push_padded_start(&mut out, "é", 2);
    assert_eq!(out, "é  é");
}

#[test]
fn padding_never_cuts() {
    let mut out = String::new();
    push_padded_end(&mut out, "abcdef", 3);
    push_padded_start(&mut out, "ghijkl", 0);
    push_centered(&mut out, "mno", 2, '-');
    assert_eq!(out, "abcdefghijklmno");
}

#[test]
fn centering_puts_the_longer_half_behind() {
    let mut out = String::new();
    push_centered(&mut out, "ab", 7, '-');
    assert_eq!(out, "--ab---");
    let mut out = String::new();
    push_centered(&mut out, "ab", 6, '*');
    assert_eq!(out, "**ab**");
    let mut out = String::new();
    push_centered(&mut out, "", 3, '-');
    assert_eq!(out, "---");
}

#[test]
fn length_in_bytes() {
    assert_eq!(byte_length(""), 0);
    assert_eq!(byte_length("abc"), 3);
    assert_eq!(byte_length("é"), 2);
    assert_eq!(byte_length("🚨"), 4);
}

#[test]
fn texts_are_compared_whole() {
    assert!(same_text("", ""));
    assert!(same_text("sda", "sda"));
    assert!(!same_text("sda", "sdb"));
    assert!(!same_text("sda", "sda1"));
    assert!(!same_text("sda1", "sda"));
    assert!(same_text("é🚨", "é🚨"));
}
