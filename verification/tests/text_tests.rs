use portman::text::{chars_of, decimal_chars, lines_of, parse_uint_chars, words_of};
use portman::ui::{fmt_col, lang_color, trunc, Tint};

fn lines(s: &str) -> Vec<String> {
    lines_of(&chars_of(s)).iter().map(|l| l.iter().collect()).collect()
}

#[test]
fn lines_like_std() {
    for s in ["", "a", "a\n", "a\nb", "a\r\nb\r\n", "\n", "\n\n", "a\r", "x\ry\n"] {
        let want: Vec<String> = s.lines().map(|l| l.to_string()).collect();
        assert_eq!(lines(s), want, "input {:?}", s);
    }
}

#[test]
fn words_like_std() {
    for s in ["", "  a  b ", "next dev --turbo", "\tx\u{3000}y"] {
        let got: Vec<String> = words_of(&chars_of(s)).iter().map(|w| w.iter().collect()).collect();
        let want: Vec<String> = s.split_whitespace().map(|w| w.to_string()).collect();
        assert_eq!(got, want);
    }
}

#[test]
fn numbers() {
    assert_eq!(parse_uint_chars(&chars_of("65535"), 65535), Some(65535));
    assert_eq!(parse_uint_chars(&chars_of("65536"), 65535), None);
    assert_eq!(parse_uint_chars(&chars_of("+7"), 65535), Some(7));
    assert_eq!(parse_uint_chars(&chars_of("+"), 65535), None);
    assert_eq!(parse_uint_chars(&chars_of(""), 65535), None);
    assert_eq!(parse_uint_chars(&chars_of("-1"), 65535), None);
    assert_eq!(parse_uint_chars(&chars_of("4294967295"), 4294967295), Some(4294967295));
    assert_eq!(parse_uint_chars(&chars_of("99999999999999999999"), 4294967295), None);
    let d: String = decimal_chars(1203).iter().collect();
    assert_eq!(d, "1203");
    let z: String = decimal_chars(0).iter().collect();
    assert_eq!(z, "0");
}

#[test]
fn truncation() {
    assert_eq!(trunc("hello", 3), "he…");
    assert_eq!(trunc("hello", 5), "hello");
    assert_eq!(trunc("", 0), "");
    assert_eq!(trunc("héllo wörld", 6), "héllo…");
}

#[test]
fn columns() {
    assert_eq!(fmt_col("ab", 4), "ab  ");
    assert_eq!(fmt_col("abcdef", 4), "abcdef");
    assert_eq!(fmt_col("é", 3), format!("{:<3}", "é"));
}

#[test]
fn language_colours() {
    assert_eq!(lang_color("JS/TS"), Tint::Yellow);
    assert_eq!(lang_color("Python"), Tint::Blue);
    assert_eq!(lang_color("Kotlin"), Tint::Red);
    assert_eq!(lang_color("Go"), Tint::Cyan);
    assert_eq!(lang_color("Rust"), Tint::LightRed);
    assert_eq!(lang_color("Elixir"), Tint::Magenta);
    assert_eq!(lang_color("PHP"), Tint::LightMagenta);
    assert_eq!(lang_color("Unknown"), Tint::Reset);
}
