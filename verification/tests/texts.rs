use aula::days::{day_or_head, local_date};
use aula::html::{strip_html, strip_tags};
use aula::paths::{extension, file_name, file_stem, join_path, sane};
use aula::text;
use std::path::{Path, PathBuf};

#[test]
fn character_classes_are_those_of_std() {
    for n in 0..=0x10FFFFu32 {
        if let Some(c) = char::from_u32(n) {
            assert_eq!(text::is_white_space(c), c.is_whitespace(), "{:x}", n);
            assert_eq!(text::is_control(c), c.is_control(), "{:x}", n);
        }
    }
}

#[test]
fn trimming_is_that_of_std() {
    for s in ["", " ", "a", "  a b \t\n", "\u{a0}x\u{2003}", "é ", "\u{3000}\u{3000}", "a\u{85}"] {
        assert_eq!(text::trim(s), s.trim());
        assert_eq!(text::is_blank(s), s.trim().is_empty());
    }
}

#[test]
fn cutting_is_that_of_std() {
    let cases = [
        ("", ","),
        ("a", ","),
        ("a,b,,c,", ","),
        (",", ","),
        ("aaa", "aa"),
        ("aXXXb", "XX"),
        ("niño,año", "ñ"),
    ];
    for (s, sep) in cases {
        let want: Vec<&str> = s.split(sep).collect();
        assert_eq!(text::split_text(s, sep), want, "{:?} {:?}", s, sep);
        assert_eq!(text::replace(s, sep, "<>"), s.replace(sep, "<>"));
    }
    for s in ["", " a  b\tc\n", "uno", "\u{2003}dos\u{a0}tres "] {
        let want: Vec<&str> = s.split_whitespace().collect();
        assert_eq!(text::split_words(s), want);
    }
}

#[test]
fn prefixes_and_suffixes_are_those_of_std() {
    for s in ["course filescourse files/x", "/a", "///", "a//", "", "course file"] {
        assert_eq!(text::strip_prefixes(s, "course files"), s.trim_start_matches("course files"));
        assert_eq!(text::strip_last(s, '/'), s.trim_end_matches('/'));
        assert_eq!(text::starts_with(s, "course"), s.starts_with("course"));
    }
}

#[test]
fn searching_is_that_of_std() {
    let words = ["", "a", "lab", "laboratorio", "abab", "ñandú", "aab"];
    for h in words {
        for k in words {
            assert_eq!(text::has(h, k), h.contains(k), "{} {}", h, k);
        }
    }
}

#[test]
fn order_is_that_of_std() {
    let words = ["", "a", "b", "ab", "aa", "Z", "ñ", "page-01", "page-1", "page-10", "p\u{1F393}", "p\u{FF5E}"];
    for a in words {
        for b in words {
            assert_eq!(text::before(a, b), a < b, "{} {}", a, b);
            assert_eq!(text::same(a, b), a == b);
        }
    }
}

#[test]
fn numbers_are_written_in_decimal() {
    for n in [0u64, 7, 10, 99, 1234567890, u64::MAX] {
        assert_eq!(text::number(n), n.to_string());
    }
}

#[test]
fn first_characters_and_bytes() {
    assert_eq!(text::take_chars("ñandú", 3), "ñan");
    assert_eq!(text::take_chars("ñ", 3), "ñ");
    assert_eq!(text::byte_len("ñandú"), 7);
    assert!(text::can_cut("ñandú", 2));
    assert!(!text::can_cut("ñandú", 1));
    assert!(!text::can_cut("ñ", 3));
    assert_eq!(text::byte_head("ñandú", 3), "ña");
}

#[test]
fn paths_are_taken_apart_as_by_std() {
    let paths = [
        "", ".", "..", "/", "a", "a.pdf", "a.tar.gz", ".bashrc", ".a.b", "a.", "dir/a.txt", "dir/", "dir/.",
        "dir/..", "/x/y.PDF", "a..b", "...", "x/.hidden", "ñ.md", "a/b/./c.csv/.",
    ];
    for p in paths {
        let std_path = Path::new(p);
        assert_eq!(file_name(p), std_path.file_name().map(|s| s.to_str().unwrap().to_string()), "{:?}", p);
        assert_eq!(file_stem(p), std_path.file_stem().map(|s| s.to_str().unwrap().to_string()), "{:?}", p);
        assert_eq!(extension(p), std_path.extension().map(|s| s.to_str().unwrap().to_string()), "{:?}", p);
    }
}

#[test]
fn paths_are_joined_as_by_std() {
    for base in ["", "/", "a", "a/", "/x/y"] {
        for p in ["", "b", "/b", "b/c", "b/"] {
            let mut want = PathBuf::from(base);
            want.push(p);
            assert_eq!(join_path(base, p), want.to_str().unwrap(), "{:?} {:?}", base, p);
        }
    }
}

#[test]
fn names_are_made_sane() {
    assert_eq!(sane("  Guía 1/2: ¿qué? \"x\" <a|b>*\\ "), "Guía 1_2_ ¿qué_ _x_ _a_b___");
    assert_eq!(sane("a\u{7}b\u{85}"), "a_b_");
    assert_eq!(sane(" \t "), "_");
    assert_eq!(sane("  "), "");
    let once = sane(" x/y ");
    assert_eq!(sane(&once), once);
}

#[test]
fn html_becomes_text() {
    assert_eq!(
        strip_html("<p>Hola&nbsp;<b>mundo</b></p>\n\n <i>a &lt; b &amp;&amp; c&#39;s &quot;x&quot;</i>"),
        "Hola mundo a < b && c's \"x\""
    );
    assert_eq!(strip_html("a < b"), "a");
    assert_eq!(strip_html("&amp;lt;"), "<");
    assert_eq!(strip_html(""), "");
    assert_eq!(strip_tags(" <b>It&#x27;s</b>  a&nbsp;b&gt; "), "It's  a b>");
    assert_eq!(strip_tags("x > y"), "x  y");
}

#[test]
fn local_days_of_instants() {
    let want = chrono::DateTime::parse_from_rfc3339("2026-06-10T23:59:59Z")
        .unwrap()
        .with_timezone(&chrono::Local)
        .format("%Y-%m-%d")
        .to_string();
    assert_eq!(local_date("2026-06-10T23:59:59Z"), want);
    let noon = local_date("2026-06-10T12:00:00+00:00");
    assert!(["2026-06-09", "2026-06-10", "2026-06-11"].contains(&noon.as_str()));
    assert_eq!(local_date("2026-06-10 a las 12"), "2026-06-10");
    assert_eq!(local_date("10 de ñoño junio"), "10 de ñoño");
    assert_eq!(local_date(""), "");
    assert_eq!(day_or_head("2026-06-10T23:59:59Z", Some("2026-06-11".to_string())), "2026-06-11");
    assert_eq!(day_or_head("mañana", None), "mañana");
}
