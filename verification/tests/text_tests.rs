use fritztv::http::parse_range;
use fritztv::playlist::{first_segment_name, rewrite_playlist};
use fritztv::text::{
    chars_of, find_char, has_prefix, has_suffix, has_text, join_with, push_decimal, read_unsigned,
    same_str, same_text, slice_of, space, split_at_each, split_lines, split_once_at, string_of, trimmed,
};
use fritztv::url::avm_from_rtsp_url;

fn text(v: &[char]) -> String {
    v.iter().collect()
}

#[test]
fn characters_and_strings_convert_both_ways() {
    for s in ["", "a", "rtsp://h/?x=1", "gr\u{fc}n \u{1f4fa}"] {
        let v = chars_of(s);
        assert_eq!(v, s.chars().collect::<Vec<char>>());
        assert_eq!(string_of(&v), s);
    }
}

#[test]
fn white_space_is_the_unicode_set() {
    for code in 0u32..=0x3100 {
        if let Some(c) = char::from_u32(code) {
            assert_eq!(space(c), c.is_whitespace(), "U+{:04X}", code);
        }
    }
    assert!(!space('\u{feff}'));
    assert!(!space('\u{200b}'));
}

#[test]
fn trimming_matches_the_standard_library() {
    for s in ["", " ", "  a b  ", "\t\r\nx\u{a0}", "x", "\u{3000}", " \u{2003}y z\u{85}"] {
        assert_eq!(text(&trimmed(&chars_of(s))), s.trim(), "{:?}", s);
    }
}

#[test]
fn splitting_matches_the_standard_library() {
    for s in ["", "a", "a&b", "&", "a&&b&", "&a", "abc&def&ghi"] {
        let got: Vec<String> = split_at_each(&chars_of(s), '&').iter().map(|p| text(p)).collect();
        let want: Vec<String> = s.split('&').map(|p| p.to_string()).collect();
        assert_eq!(got, want, "{:?}", s);
        let once = split_once_at(&chars_of(s), '&').map(|(a, b)| (text(&a), text(&b)));
        let want_once = s.split_once('&').map(|(a, b)| (a.to_string(), b.to_string()));
        assert_eq!(once, want_once, "{:?}", s);
    }
}

#[test]
fn lines_match_the_standard_library() {
    for s in [
        "", "\n", "a", "a\n", "a\nb", "a\r\nb\r\n", "a\r", "a\r\n\r\nb", "\r\n", "a\n\n", "a\rb\n",
        "a\r\r\n", "\n\na",
    ] {
        let got: Vec<String> = split_lines(&chars_of(s)).iter().map(|p| text(p)).collect();
        let want: Vec<String> = s.lines().map(|p| p.to_string()).collect();
        assert_eq!(got, want, "{:?}", s);
    }
    assert_eq!(first_segment_name("seg_1.ts\r"), None);
    assert_eq!(first_segment_name("seg_1.ts\r\n"), Some("seg_1.ts".to_string()));
    assert_eq!(rewrite_playlist("#EXTM3U\r", 1), "#EXTM3U\r\n");
}

#[test]
fn unsigned_numbers_match_the_standard_library() {
    for s in [
        "", "0", "7", "007", "+7", "++7", "-7", "+", "7+", " 7", "7 ", "4294967295", "4294967296",
        "18446744073709551615", "18446744073709551616", "99999999999999999999999999", "1_000", "0x10",
        "\u{663}",
    ] {
        let v = chars_of(s);
        assert_eq!(read_unsigned(&v, u32::MAX as u64).map(|n| n as u32), s.parse::<u32>().ok(), "{:?}", s);
        assert_eq!(read_unsigned(&v, u64::MAX), s.parse::<u64>().ok(), "{:?}", s);
        assert_eq!(avm_from_rtsp_url(&format!("x?avm={}", s)), s.parse::<u32>().ok(), "{:?}", s);
    }
    assert_eq!(parse_range("bytes=18446744073709551615-0").map(|r| r.0 as u64), Some(u64::MAX).filter(|_| usize::MAX as u64 == u64::MAX));
}

#[test]
fn decimal_writing_matches_the_standard_library() {
    for n in [0u64, 1, 9, 10, 11, 99, 100, 12345, 4294967295, u64::MAX] {
        let mut out = vec!['x'];
        push_decimal(&mut out, n);
        assert_eq!(text(&out), format!("x{}", n));
    }
}

#[test]
fn searching_and_comparing() {
    let v = chars_of("seg_00001.ts");
    assert_eq!(find_char(&v, 0, '_'), 3);
    assert_eq!(find_char(&v, 4, '0'), 4);
    assert_eq!(find_char(&v, 0, '/'), v.len());
    assert_eq!(find_char(&v, v.len(), 's'), v.len());
    assert!(has_prefix(&v, &chars_of("seg_")));
    assert!(!has_prefix(&v, &chars_of("seg_x")));
    assert!(has_prefix(&v, &chars_of("")));
    assert!(has_suffix(&v, &chars_of(".ts")));
    assert!(!has_suffix(&v, &chars_of("ts.")));
    assert!(has_text(&v, &chars_of("0000")));
    assert!(has_text(&v, &chars_of("")));
    assert!(!has_text(&v, &chars_of("..")));
    assert!(!has_text(&chars_of("a"), &chars_of("ab")));
    assert!(same_text(&v, &chars_of("seg_00001.ts")));
    assert!(!same_text(&v, &chars_of("seg_00001.tz")));
    assert!(same_str("abc", "abc"));
    assert!(!same_str("abc", "abd"));
    assert_eq!(text(&slice_of(&v, 4, 9)), "00001");
    let pieces = vec![chars_of("a"), chars_of(""), chars_of("bc")];
    assert_eq!(text(&join_with(&pieces, &chars_of(", "))), "a, , bc");
    assert_eq!(text(&join_with(&Vec::new(), &chars_of(", "))), "");
}
