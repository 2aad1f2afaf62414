use mini_poml::render::tag_renderer::attribute_utils::{get_caption_style_and_colon, CaptionStyle};
use mini_poml::render::tag_renderer::find_attribute;
use mini_poml::render::utils::{
    buf_match_str, find_bytes, is_false_value, join_bytes, space_len_at, trim_bytes,
};
use mini_poml::render::{guess_from_parsed, expect_json, split_loop_header, strip_quotes, loop_variable};
use mini_poml::text::{decimal_bytes, same_bytes, signed_decimal_bytes};
use mini_poml::value::{less_bytes, put_entry, find_entry, values_match, PomlValue};

#[test]
fn trimming_is_that_of_text() {
    let samples = [
        "", " ", "a", " a ", "\t\n a b \r\n", "\u{a0}x\u{a0}", "\u{85}x\u{2003}", "\u{3000}\u{1680}x y\u{2028}\u{2029}",
        "\u{202f}\u{205f}", "\u{200b}x", "é ", " \u{c2}", "x\u{0b}\u{0c}", "\u{2000}\u{200a}z\u{2001}",
    ];
    for s in samples {
        assert_eq!(trim_bytes(s.as_bytes()), s.trim().as_bytes(), "{:?}", s);
    }
    for c in 0..0x3100u32 {
        if let Some(ch) = char::from_u32(c) {
            let s = ch.to_string();
            let expect = if ch.is_whitespace() { s.len() } else { 0 };
            assert_eq!(space_len_at(s.as_bytes(), 0), expect, "{:x}", c);
        }
    }
}

#[test]
fn false_texts() {
    for s in ["0", "false", "", "null", "NaN", " 0 ", "\tfalse\n", "   "] {
        assert!(is_false_value(s), "{:?}", s);
    }
    for s in ["1", "true", "00", "nan", "False", "0.0", "n ull", "x"] {
        assert!(!is_false_value(s), "{:?}", s);
    }
}

#[test]
fn test_buf_match_str() {
    assert!(buf_match_str(b"abc", 0, "ab"));
    assert!(buf_match_str(b"abc", 1, "bc"));
    assert!(buf_match_str(b"abc", 3, ""));
    assert!(!buf_match_str(b"abc", 2, "bc"));
    assert!(!buf_match_str(b"abc", 4, ""));
    assert!(!buf_match_str(b"abc", usize::MAX, "a"));
    assert!(!buf_match_str(b"abc", 0, "abd"));
}

#[test]
fn finding() {
    assert_eq!(find_bytes(b"a in b in c", b" in ", 0), Some(1));
    assert_eq!(find_bytes(b"a in b in c", b" in ", 2), Some(6));
    assert_eq!(find_bytes(b"a in b in c", b" in ", 7), None);
    assert_eq!(find_bytes(b"abc", b"", 3), Some(3));
    assert_eq!(find_bytes(b"abc", b"", 4), None);
    assert_eq!(find_bytes(b"", b"a", 0), None);
}

#[test]
fn loop_headers() {
    assert_eq!(split_loop_header(b"v in [1]"), Some((&b"v"[..], &b"[1]"[..])));
    assert_eq!(split_loop_header(b"  v  in   xs  "), Some((&b"v"[..], &b"xs"[..])));
    assert_eq!(split_loop_header(b"a in in b"), Some((&b"a"[..], &b"in b"[..])));
    assert_eq!(split_loop_header(b"a in  in b"), None);
    assert_eq!(split_loop_header(b"a in b in c"), None);
    assert_eq!(split_loop_header(b"ainb"), None);
    assert_eq!(split_loop_header(b" in "), Some((&b""[..], &b""[..])));
}

#[test]
fn quotes() {
    assert_eq!(strip_quotes(b"\"ab\""), b"ab");
    assert_eq!(strip_quotes(b"\"\""), b"");
    assert_eq!(strip_quotes(b"\""), b"");
    assert_eq!(strip_quotes(b""), b"");
}

#[test]
fn loop_values() {
    assert_eq!(
        loop_variable(0, 1),
        PomlValue::Object(vec![
            (b"first".to_vec(), PomlValue::Bool(true)),
            (b"index".to_vec(), PomlValue::Int(0)),
            (b"last".to_vec(), PomlValue::Bool(true)),
            (b"length".to_vec(), PomlValue::Int(1)),
        ])
    );
}

#[test]
fn decimals() {
    for n in [0u64, 1, 9, 10, 11, 99, 100, 12345, u64::MAX] {
        assert_eq!(decimal_bytes(n), n.to_string().into_bytes());
    }
    for n in [0i64, 1, -1, 10, -10, i64::MAX, i64::MIN] {
        assert_eq!(signed_decimal_bytes(n), n.to_string().into_bytes());
    }
}

#[test]
fn joining_and_comparing() {
    assert_eq!(join_bytes(&vec![b"ab".to_vec(), vec![], b"c".to_vec()]), b"abc");
    assert_eq!(join_bytes(&vec![]), b"");
    assert!(same_bytes(b"ab", b"ab"));
    assert!(!same_bytes(b"ab", b"abc"));
    for (a, b) in [("", ""), ("", "a"), ("a", ""), ("a", "b"), ("ab", "a"), ("a", "ab"), ("b", "ab"), ("é", "z")] {
        assert_eq!(less_bytes(a.as_bytes(), b.as_bytes()), a < b, "{:?} {:?}", a, b);
    }
}

#[test]
fn entries_stay_ordered() {
    let mut entries: Vec<(Vec<u8>, PomlValue)> = Vec::new();
    for (k, v) in [("m", 1), ("a", 2), ("z", 3), ("m", 4), ("b", 5)] {
        put_entry(&mut entries, k.as_bytes().to_vec(), PomlValue::Int(v));
    }
    let keys: Vec<&[u8]> = entries.iter().map(|e| e.0.as_slice()).collect();
    assert_eq!(keys, vec![&b"a"[..], b"b", b"m", b"z"]);
    assert_eq!(find_entry(&entries, b"m"), Some(&PomlValue::Int(4)));
    assert_eq!(find_entry(&entries, b"q"), None);
}

#[test]
fn matching_values() {
    let zero = PomlValue::Float(0.0f64.to_bits());
    let minus_zero = PomlValue::Float((-0.0f64).to_bits());
    assert!(values_match(&zero, &minus_zero, true));
    assert!(!values_match(&zero, &minus_zero, false));
    assert!(values_match(&zero, &zero.clone(), false));
    let nan = PomlValue::Float(f64::NAN.to_bits());
    assert!(!values_match(&nan, &nan, true));
    assert!(values_match(&nan, &nan, false));
    assert!(!values_match(&PomlValue::Int(0), &zero, true));
}

#[test]
fn json_results() {
    let array = PomlValue::Array(vec![PomlValue::Int(1)]);
    let object = PomlValue::Object(vec![(b"a".to_vec(), PomlValue::Null)]);
    assert_eq!(guess_from_parsed(b"[1]", Some(array.clone())), array);
    assert_eq!(guess_from_parsed(b"{}", Some(object.clone())), object);
    assert_eq!(guess_from_parsed(b"\"s\"", Some(PomlValue::String(b"s".to_vec()))), PomlValue::String(b"\"s\"".to_vec()));
    assert_eq!(guess_from_parsed(b"x", None), PomlValue::String(b"x".to_vec()));
    assert_eq!(expect_json(Some(array.clone()), true).unwrap(), array);
    assert!(expect_json(Some(array.clone()), false).is_err());
    assert_eq!(expect_json(Some(object.clone()), false).unwrap(), object);
    assert!(expect_json(Some(object), true).is_err());
    assert!(expect_json(Some(PomlValue::Int(1)), true).is_err());
    assert!(expect_json(None, false).is_err());
}

#[test]
fn caption_attributes() {
    let attrs = |pairs: &[(&str, &str)]| -> Vec<(Vec<u8>, Vec<u8>)> {
        pairs.iter().map(|(k, v)| (k.as_bytes().to_vec(), v.as_bytes().to_vec())).collect()
    };
    assert_eq!(get_caption_style_and_colon(&attrs(&[]), CaptionStyle::Header), (CaptionStyle::Header, false));
    assert_eq!(get_caption_style_and_colon(&attrs(&[]), CaptionStyle::Hidden), (CaptionStyle::Hidden, false));
    assert_eq!(get_caption_style_and_colon(&attrs(&[]), CaptionStyle::Bold), (CaptionStyle::Bold, true));
    assert_eq!(get_caption_style_and_colon(&attrs(&[]), CaptionStyle::Plain), (CaptionStyle::Plain, true));
    assert_eq!(
        get_caption_style_and_colon(&attrs(&[("captionStyle", "plain"), ("captionColon", "0")]), CaptionStyle::Header),
        (CaptionStyle::Plain, false)
    );
    assert_eq!(
        get_caption_style_and_colon(&attrs(&[("captionStyle", "Bold"), ("captionColon", "yes")]), CaptionStyle::Header),
        (CaptionStyle::Header, true)
    );
    let a = attrs(&[("x", "1"), ("y", "2"), ("x", "3")]);
    assert_eq!(find_attribute(&a, "x"), Some(&b"1".to_vec()));
    assert_eq!(find_attribute(&a, "z"), None);
}
