use authenticate_kerberos::calendar::seconds;
use authenticate_kerberos::text::{join, push_decimal, push_hex, push_signed, split, written};

fn parts(words: &[&str]) -> Vec<String> {
    words.iter().map(|word| word.to_string()).collect()
}

fn decimal(n: u64) -> String {
    let mut text = String::new();
    push_decimal(&mut text, n);
    text
}

fn signed(n: i64) -> String {
    let mut text = String::new();
    push_signed(&mut text, n);
    text
}

fn hex(byte: u8) -> String {
    let mut text = String::new();
    push_hex(&mut text, byte);
    text
}

#[test]
fn components_are_joined_by_slashes() {
    assert_eq!(join(&parts(&[])), "");
    assert_eq!(join(&parts(&["alice"])), "alice");
    assert_eq!(join(&parts(&["HTTP", "xmip.example"])), "HTTP/xmip.example");
    assert_eq!(join(&parts(&["", "", ""])), "//");
}

#[test]
fn a_name_is_split_at_its_slashes() {
    assert_eq!(split(""), [""]);
    assert_eq!(split("alice"), ["alice"]);
    assert_eq!(split("HTTP/xmip.example"), ["HTTP", "xmip.example"]);
    assert_eq!(split("/a//b/"), ["", "a", "", "b", ""]);
    assert_eq!(split("b\u{e4}r/\u{20ac}"), ["b\u{e4}r", "\u{20ac}"]);
}

#[test]
fn splitting_and_joining_undo_each_other() {
    for text in ["", "a", "a/b", "/a//b/", "\u{e4}/\u{1f600}"] {
        assert_eq!(join(&split(text)), text);
    }
    for words in [&["a"][..], &["a", "b"][..], &["", "b", ""][..]] {
        assert_eq!(split(&join(&parts(words))), parts(words));
    }
}

#[test]
fn a_principal_is_its_components_at_its_realm() {
    assert_eq!(
        written(&parts(&["HTTP", "xmip.example"]), "EXAMPLE.COM"),
        "HTTP/xmip.example@EXAMPLE.COM"
    );
    assert_eq!(written(&parts(&["alice"]), ""), "alice@");
}

#[test]
fn numbers_are_written_in_decimal() {
    for n in [0, 1, 9, 10, 99, 100, 1_800_000_000, u64::MAX] {
        assert_eq!(decimal(n), n.to_string());
    }
    for n in [0, 7, -7, 10, -10, i64::MAX, i64::MIN] {
        assert_eq!(signed(n), n.to_string());
    }
}

#[test]
fn a_number_is_written_behind_what_is_there() {
    let mut text = "it is ".to_string();
    push_signed(&mut text, -12);
    assert_eq!(text, "it is -12");
}

#[test]
fn a_byte_is_written_in_two_hex_digits() {
    for byte in 0..=255u8 {
        assert_eq!(hex(byte), format!("{byte:#04x}"));
    }
}

#[test]
fn kerberos_times_are_seconds_since_the_epoch() {
    assert_eq!(seconds(b"19700101000000Z"), Some(0));
    assert_eq!(seconds(b"19700101000001Z"), Some(1));
    assert_eq!(seconds(b"19691231235959Z"), Some(-1));
    assert_eq!(seconds(b"20000229120000Z"), Some(951_825_600));
    assert_eq!(seconds(b"20270115080000Z"), Some(1_800_000_000));
    assert_eq!(seconds(b"20380119031407Z"), Some(2_147_483_647));
    assert_eq!(seconds(b"99991231235959Z"), Some(253_402_300_799));
    assert_eq!(seconds(b"00000101000000Z"), Some(-62_167_219_200));
}

#[test]
fn leap_years_have_a_twenty_ninth_of_february() {
    assert!(seconds(b"20240229000000Z").is_some());
    assert!(seconds(b"20230229000000Z").is_none());
    assert!(seconds(b"20000229000000Z").is_some());
    assert!(seconds(b"19000229000000Z").is_none());
    assert_eq!(
        seconds(b"20240301000000Z").expect("a time") - seconds(b"20240228000000Z").expect("a time"),
        2 * 86_400
    );
    assert_eq!(
        seconds(b"20230301000000Z").expect("a time") - seconds(b"20230228000000Z").expect("a time"),
        86_400
    );
}

#[test]
fn what_names_no_moment_is_no_time() {
    for text in [
        &b""[..],
        b"20270115080000",
        b"20270115080000z",
        b"20270115080000ZZ",
        b"20270115080000.0Z",
        b"20270115080000+0000",
        b"2027011508000 Z",
        b"-0270115080000Z",
        b"20270015080000Z",
        b"20271315080000Z",
        b"20270100080000Z",
        b"20270132080000Z",
        b"20270431080000Z",
        b"20270115240000Z",
        b"20270115086000Z",
        b"20270115080060Z",
    ] {
        assert_eq!(seconds(text), None);
    }
}
