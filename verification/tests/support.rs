use x11_mcp::allowlist::Allowlist;
use x11_mcp::command::{expand_exec_token, tokenize_exec};
use x11_mcp::error::ErrorCode;
use x11_mcp::ieee::{finite, fraction, le};
use x11_mcp::rate::RateLimiter;
use x11_mcp::sort::{sort_texts, sorted_order};
use x11_mcp::text::{
    contains_text, eq_ignore_ascii_case, format_decimal, format_hex, format_signed, parse_u16,
    rsplit_once, split, split_once, strip_suffix, text_at_most, trim,
};
use x11_mcp::tools::{success_content, Content};

#[test]
fn rate_limiter_rejects_burst_over_capacity() {
    let mut limiter = RateLimiter::new(2, 0);
    assert!(limiter.consume(2, 0).is_ok());
    assert_eq!(
        limiter.consume(1, 0).expect_err("limited").code,
        ErrorCode::RateLimited
    );
}

#[test]
fn limiters_refill_with_time() {
    let mut limiter = RateLimiter::new(2, 0);
    assert!(limiter.consume(2, 0).is_ok());
    assert!(limiter.consume(1, 499_999_999).is_err());
    assert!(limiter.consume(1, 500_000_000).is_ok());
    assert!(limiter.consume(3, 60_000_000_000).is_err());
    assert!(limiter.consume(2, 60_000_000_000).is_ok());
}

#[test]
fn pictures_are_handed_back_in_base64() {
    let images = vec![
        b"Man".to_vec(),
        b"Ma".to_vec(),
        b"M".to_vec(),
        vec![0xfb, 0xff, 0xbf, 0x00],
        Vec::new(),
    ];
    let contents = success_content("{}".to_owned(), &images);
    assert!(matches!(&contents[0], Content::Text { text } if text == "{}"));
    let data: Vec<&str> = contents[1..]
        .iter()
        .map(|content| match content {
            Content::Image { data, mime_type } => {
                assert_eq!(mime_type, "image/png");
                data.as_str()
            }
            other => panic!("{other:?}"),
        })
        .collect();
    assert_eq!(data, vec!["TWFu", "TWE=", "TQ==", "+/+/AA==", ""]);
}

#[test]
fn allowlists_match_globs() {
    let patterns = vec!["org.example.*".to_owned(), "tool?".to_owned()];
    let list = Allowlist::build(&patterns, "glob ", "list ").unwrap();
    assert!(list.is_enabled());
    assert!(list.is_allowed("org.example.App"));
    assert!(list.is_allowed("tool1"));
    assert!(!list.is_allowed("tool"));
    assert!(!list.is_allowed("Org.example.App"));
    let open = Allowlist::build(&Vec::new(), "glob ", "list ").unwrap();
    assert!(!open.is_enabled());
    assert!(open.is_allowed("anything"));
    let broken = Allowlist::build(&vec!["{a".to_owned()], "glob ", "list ").unwrap_err();
    assert_eq!(broken.code, ErrorCode::InvalidInput);
    assert!(broken.message.starts_with("glob \"{a\": "));
}

#[test]
fn binary_fractions_are_compared_by_their_bits() {
    let values = [f64::NEG_INFINITY, -1.5, -0.0, 0.0, 1e-310, 0.5, 1.0, 2.0];
    for (i, left) in values.iter().enumerate() {
        for right in &values[i..] {
            assert!(le(left.to_bits(), right.to_bits()));
        }
        assert_eq!(finite(left.to_bits()), left.is_finite());
        assert_eq!(
            fraction(left.to_bits()),
            left.is_finite() && (0.0..=1.0).contains(left)
        );
    }
    assert!(le(0.0f64.to_bits(), (-0.0f64).to_bits()));
    assert!(!le(f64::NAN.to_bits(), 1.0f64.to_bits()));
    assert!(!le(1.0f64.to_bits(), f64::NAN.to_bits()));
    assert!(!le(2.0f64.to_bits(), 1.0f64.to_bits()));
}

#[test]
fn texts_are_taken_apart() {
    assert_eq!(
        split_once("a@b@c", '@'),
        Some(("a".to_owned(), "b@c".to_owned()))
    );
    assert_eq!(
        rsplit_once("a@b@c", '@'),
        Some(("a@b".to_owned(), "c".to_owned()))
    );
    assert_eq!(split("a;;b;", ';'), vec!["a", "", "b", ""]);
    assert_eq!(trim("\u{a0} x y\t"), "x y");
    assert_eq!(strip_suffix("a.desktop", ".desktop").as_deref(), Some("a"));
    assert_eq!(strip_suffix("a", ".desktop"), None);
    assert!(contains_text("größe", "öß"));
    assert!(!contains_text("größe", "Öß"));
    assert!(contains_text("x", ""));
    assert!(eq_ignore_ascii_case("PUSH Ä", "push Ä"));
    assert!(!eq_ignore_ascii_case("Ä", "ä"));
}

#[test]
fn numbers_are_written_and_read() {
    assert_eq!(format_decimal(0), "0");
    assert_eq!(format_decimal(u64::MAX), "18446744073709551615");
    assert_eq!(format_signed(i32::MIN), "-2147483648");
    assert_eq!(format_hex(0x1a, 8), "0000001a");
    assert_eq!(parse_u16("65535"), Some(65_535));
    assert_eq!(parse_u16("+7"), Some(7));
    assert_eq!(parse_u16("65536"), None);
    assert_eq!(parse_u16(""), None);
    assert_eq!(parse_u16("-1"), None);
}

#[test]
fn texts_are_sorted() {
    let list = vec!["b".to_owned(), "a".to_owned(), "B".to_owned(), "a".to_owned()];
    assert_eq!(sort_texts(list), vec!["B", "a", "a", "b"]);
    let pairs = vec![
        ("x".to_owned(), "2".to_owned()),
        ("a".to_owned(), "9".to_owned()),
        ("x".to_owned(), "1".to_owned()),
    ];
    assert_eq!(sorted_order(&pairs), vec![1, 2, 0]);
    assert!(text_at_most("a", "ab"));
    assert!(!text_at_most("b", "ab"));
}

#[test]
fn commands_are_split_without_a_shell() {
    assert_eq!(
        tokenize_exec("run  \"a \\\"b\\\"\" c").unwrap(),
        vec!["run", "a \"b\"", "c"]
    );
    assert!(tokenize_exec("run \"open").is_err());
    assert!(tokenize_exec("a | b").is_err());
    let name = Some("Name".to_owned());
    let icon = Some("icon".to_owned());
    assert_eq!(
        expand_exec_token("%k", &name, "/x.desktop", &icon).unwrap(),
        vec!["/x.desktop"]
    );
    assert_eq!(
        expand_exec_token("--title=%c%%", &name, "/x.desktop", &icon).unwrap(),
        vec!["--title=Name%"]
    );
    assert!(expand_exec_token("%F", &name, "/x.desktop", &icon)
        .unwrap()
        .is_empty());
    assert!(expand_exec_token("%z", &name, "/x.desktop", &icon).is_err());
}

#[test]
fn quoted_words_come_back_unchanged() {
    let words = [
        "plain",
        "",
        "two words",
        "a\"b`c$d\\e",
        "> < ~ | & ; * ? # ( ) '",
        "\u{2003}\u{3000}",
    ];
    let quoted: Vec<String> = words
        .iter()
        .map(|word| {
            let mut text = String::from("\"");
            for c in word.chars() {
                if matches!(c, '"' | '`' | '$' | '\\') {
                    text.push('\\');
                }
                text.push(c);
            }
            text.push('"');
            text
        })
        .collect();
    assert_eq!(tokenize_exec(&quoted.join(" ")).unwrap(), words);
    assert!(tokenize_exec("").unwrap().is_empty());
}

#[test]
fn white_space_is_that_of_unicode() {
    for c in [
        '\t', '\n', '\u{b}', '\u{c}', '\r', ' ', '\u{85}', '\u{a0}', '\u{1680}', '\u{2000}',
        '\u{200a}', '\u{2028}', '\u{2029}', '\u{202f}', '\u{205f}', '\u{3000}',
    ] {
        assert_eq!(trim(&format!("{c}a{c}")), "a");
        assert_eq!(tokenize_exec(&format!("a{c}b")).unwrap(), ["a", "b"]);
    }
    for c in ['\u{8}', '\u{e}', '\u{1f}', '\u{200b}', '\u{2060}', '\u{feff}', '\u{180e}'] {
        assert_eq!(trim(&format!("{c}a")), format!("{c}a"));
    }
}

#[test]
fn patterns_that_cannot_be_compiled_are_reported() {
    let nested = format!("{}a{}", "{".repeat(400), "}".repeat(400));
    let refused = Allowlist::build(&vec![nested], "glob ", "list ").unwrap_err();
    assert_eq!(refused.code, ErrorCode::InvalidInput);
    assert!(refused.message.starts_with("list "));
}
