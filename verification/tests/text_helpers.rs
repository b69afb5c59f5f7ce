use en_croissant::commands::{folder_listing, is_directory_entry, mebibytes};
use en_croissant::text::{join_strings, push_decimal, push_signed_decimal, str_eq};

fn u64_to_string(n: u64) -> String {
    let mut text = String::new();
    push_decimal(&mut text, n);
    text
}

#[test]
fn decimal_numerals() {
    assert_eq!(u64_to_string(0), "0");
    assert_eq!(u64_to_string(7), "7");
    assert_eq!(u64_to_string(10), "10");
    assert_eq!(u64_to_string(1905), "1905");
    assert_eq!(u64_to_string(u64::MAX), "18446744073709551615");
    let mut text = "n=".to_string();
    push_decimal(&mut text, 120);
    assert_eq!(text, "n=120");
}

#[test]
fn signed_decimal_numerals() {
    let cases: [(i64, &str); 5] = [
        (0, "0"),
        (-5, "-5"),
        (1700000000123, "1700000000123"),
        (i64::MAX, "9223372036854775807"),
        (i64::MIN, "-9223372036854775808"),
    ];
    for (value, expected) in cases {
        let mut text = String::new();
        push_signed_decimal(&mut text, value);
        assert_eq!(text, expected);
    }
}

#[test]
fn joining_with_a_separator() {
    let none: Vec<String> = vec![];
    assert_eq!(join_strings(&none, "/"), "");
    assert_eq!(join_strings(&vec!["a".to_string()], "/"), "a");
    assert_eq!(
        join_strings(&vec!["a".to_string(), "".to_string(), "c".to_string()], ", "),
        "a, , c"
    );
}

#[test]
fn comparing_texts() {
    assert!(str_eq("", ""));
    assert!(str_eq("ping", "ping"));
    assert!(!str_eq("ping", "pong"));
    assert!(!str_eq("ping", "pin"));
    assert!(str_eq("\u{e9}t\u{e9}", "\u{e9}t\u{e9}"));
}

#[test]
fn folders_are_listed_with_commas() {
    assert_eq!(folder_listing(&vec![]), "");
    assert_eq!(folder_listing(&vec!["engines".to_string()]), "engines");
    assert_eq!(
        folder_listing(&vec!["engines".to_string(), "db".to_string(), "presets".to_string()]),
        "engines,db,presets"
    );
}

#[test]
fn archive_entries_ending_in_a_slash_are_directories() {
    assert!(is_directory_entry("stockfish/"));
    assert!(is_directory_entry("/"));
    assert!(!is_directory_entry("stockfish/readme.txt"));
    assert!(!is_directory_entry(""));
}

#[test]
fn memory_in_mebibytes() {
    assert_eq!(mebibytes(0), 0);
    assert_eq!(mebibytes(1024 * 1024 - 1), 0);
    assert_eq!(mebibytes(16 * 1024 * 1024 * 1024), 16384);
    assert_eq!(mebibytes(u64::MAX), u32::MAX);
    assert_eq!(mebibytes(1u64 << 52), 0);
    assert_eq!(mebibytes((1u64 << 52) + (5u64 << 20)), 5);
}
