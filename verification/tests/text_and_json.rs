use agentplug::json;
use agentplug::json::Json;
use agentplug::order;
use agentplug::path;
use agentplug::strmap::StrMap;
use agentplug::text;

fn texts(list: &[&str]) -> Vec<String> {
    list.iter().map(|s| s.to_string()).collect()
}

#[test]
fn trimming_takes_white_space_away() {
    assert_eq!(text::trim("  a b\t\n"), "a b");
    assert_eq!(text::trim_start("\u{a0} x "), "x ");
    assert_eq!(text::trim_end(" x \u{3000}"), " x");
    assert!(text::blank(" \r\n"));
    assert!(!text::blank(" . "));
}

#[test]
fn white_space_is_that_of_the_standard_library() {
    for n in 0u32..0x3100 {
        if let Some(c) = char::from_u32(n) {
            assert_eq!(text::char_is_space(c), c.is_whitespace(), "{n:x}");
            assert_eq!(text::char_is_digit(c), c.is_ascii_digit(), "{n:x}");
            assert_eq!(text::char_is_alnum(c), c.is_ascii_alphanumeric(), "{n:x}");
        }
    }
}

#[test]
fn lines_are_those_of_the_standard_library() {
    for s in ["", "a", "a\n", "a\r\nb", "\n", "\r\n", "a\r", "a\n\nb\n", "a\r\r\nb"] {
        assert_eq!(text::lines_of(s), s.lines().collect::<Vec<_>>(), "{s:?}");
        assert_eq!(text::words_of(s), s.split_whitespace().collect::<Vec<_>>(), "{s:?}");
        assert_eq!(text::split_on(s, 'a'), s.split('a').collect::<Vec<_>>(), "{s:?}");
    }
}

#[test]
fn numbers_read_back() {
    for n in [0u64, 1, 9, 10, 99, 1_000_000, u64::MAX] {
        assert_eq!(text::u64_text(n), n.to_string());
        assert_eq!(text::parse_u64(&n.to_string()), Some(n));
    }
    assert_eq!(text::i64_text(i64::MIN), i64::MIN.to_string());
    assert_eq!(text::parse_u64("+5"), "+5".parse::<u64>().ok());
    assert_eq!(text::parse_u64("-5"), None);
    assert_eq!(text::parse_u64(""), None);
    assert_eq!(text::parse_u64("+"), None);
    assert_eq!(text::parse_u64("18446744073709551616"), None);
    assert_eq!(text::parse_u32("4294967296"), None);
    assert_eq!(text::parse_u32("007"), Some(7));
}

#[test]
fn finding_is_that_of_the_standard_library() {
    for (s, p) in [("abcabc", "bc"), ("abc", ""), ("", "a"), ("aaa", "aa"), ("\u{e9}x", "x")] {
        assert_eq!(text::contains(s, p), s.contains(p), "{s:?} {p:?}");
        assert_eq!(text::starts_with(s, p), s.starts_with(p), "{s:?} {p:?}");
        assert_eq!(text::ends_with(s, p), s.ends_with(p), "{s:?} {p:?}");
        assert_eq!(text::strip_prefix(s, p), s.strip_prefix(p), "{s:?} {p:?}");
        assert_eq!(text::strip_suffix(s, p), s.strip_suffix(p), "{s:?} {p:?}");
    }
    assert_eq!(text::find("abcabc", "bc"), Some(1));
    assert_eq!(text::rfind("abcabc", "bc"), Some(4));
    assert_eq!(text::rcut("a:b:c", ':'), Some(("a:b", "c")));
    assert_eq!(text::cut("a:b:c", ':'), ("a", Some("b:c")));
    assert_eq!(text::cut("abc", ':'), ("abc", None));
}

#[test]
fn masking_twice_is_masking_once() {
    let once = text::mask("a b/c-d_\u{e9}", "-_", '_');
    assert_eq!(once, "a_b_c-d__");
    assert_eq!(text::mask(&once, "-_", '_'), once);
}

#[test]
fn letter_case_of_ascii_is_ignored() {
    assert!(text::eq_but_case("AbC1", "aBc1"));
    assert!(!text::eq_but_case("abc", "abd"));
    assert!(!text::eq_but_case("abc", "ab"));
    assert!(!text::eq_but_case("\u{c9}", "\u{e9}"));
    assert_eq!(text::trim_leading("vvv1.2v", 'v'), "1.2v");
    assert_eq!(text::word_one("  abc def"), Some("abc"));
    assert_eq!(text::word_one(" \n"), None);
}

#[test]
fn sorted_names_are_sorted_like_the_standard_library() {
    let list = texts(&["b", "a", "b", "", "ab", "\u{e9}", "Z", "0.10.0", "0.9.0"]);
    let mut want = list.clone();
    want.sort();
    want.dedup();
    assert_eq!(order::sorted_names(&list), want);
    let mut sorted = want.clone();
    assert!(!order::insert_sorted(&mut sorted, "ab"));
    assert!(order::insert_sorted(&mut sorted, "aa"));
    want.push("aa".to_string());
    want.sort();
    assert_eq!(sorted, want);
}

#[test]
fn paths_are_joined_and_normalized() {
    assert_eq!(path::join("/a", "b"), "/a/b");
    assert_eq!(path::join("/a/", "b"), "/a/b");
    assert_eq!(path::join("/a", "/b"), "/b");
    assert_eq!(path::join("", "b"), "b");
    assert_eq!(path::normalize_lexically("/a/./b/../c", false), Some("/a/c".to_string()));
    assert_eq!(path::normalize_lexically("../a", false), None);
    assert!(!path::normalize_lexically("/a/b/..", false).unwrap().contains(".."));
    let root = path::normalize("/a", false).unwrap();
    assert!(path::normalize("/a/b", false).unwrap().under(&root));
    assert!(!path::normalize("/ab", false).unwrap().under(&root));
}

#[test]
fn extensions_are_replaced_like_the_standard_library() {
    for (p, e) in [
        ("/a/b.txt", "md"),
        ("/a/b", "md"),
        ("/a/.b", "md"),
        ("b.tar.gz", "x"),
        ("/a.d/b.c", ""),
        ("/a.d/b", ""),
        ("/x/1.txt", "txt.inflight"),
    ] {
        let want = std::path::Path::new(p).with_extension(e);
        assert_eq!(path::replace_extension(p, e), want.to_string_lossy(), "{p} {e}");
        let name = path::last_segment_of(p);
        let std_name = std::path::Path::new(p).file_name().unwrap().to_str().unwrap();
        assert_eq!(name, std_name);
        assert_eq!(
            path::extension_of(name),
            std::path::Path::new(p).extension().map(|e| e.to_str().unwrap())
        );
        assert_eq!(
            path::stem_of(name),
            std::path::Path::new(p).file_stem().unwrap().to_str().unwrap()
        );
    }
    assert_eq!(path::add_suffix("/x/run.exe", "new"), "/x/run.exe.new");
    assert_eq!(path::add_suffix("/x/run", "new"), "/x/run.new");
}

#[test]
fn json_reads_and_writes() {
    let j = json::parse(r#" {"b": [1, 2.5, "x"], "a": null, "t": true} "#).unwrap();
    assert_eq!(json::to_text(&j), r#"{"a":null,"b":[1,2.5,"x"],"t":true}"#);
    assert_eq!(j.bool_field("t"), Some(true));
    assert!(j.get("a").unwrap().is_null());
    match j.get("b") {
        Some(Json::Array(a)) => {
            assert_eq!(a[0].as_u64(), Some(1));
            assert_eq!(a[1].as_u64(), None);
            assert_eq!(a[2].as_str(), Some("x"));
        }
        _ => panic!("no list"),
    }
    assert!(json::parse("{").is_err());
    assert_eq!(json::parse("{").err().unwrap(), serde_json::from_str::<serde_json::Value>("{").unwrap_err().to_string());
}

#[test]
fn json_numbers_read_as_the_outside_crate_reads_them() {
    for n in ["0", "-1", "18446744073709551615", "-9223372036854775808", "1e3", "2.50", "-0.0", "18446744073709551616"] {
        let want = serde_json::from_str::<serde_json::Value>(n).unwrap();
        let j = json::parse(n).unwrap();
        assert_eq!(json::to_text(&j), want.to_string(), "{n}");
        assert_eq!(j.as_u64(), want.as_u64(), "{n}");
        assert_eq!(j.as_i64(), want.as_i64(), "{n}");
    }
}

#[test]
fn written_json_reads_back() {
    let j = json::object3(
        "a\"\n",
        json::str("\u{1f600}\u{0}"),
        "n",
        json::signed(-5),
        "l",
        json::str_list(&texts(&["x", ""])),
    );
    let again = json::parse(&json::to_text(&j)).unwrap();
    assert_eq!(json::to_text(&again), json::to_text(&j));
    assert_eq!(again.str_field("a\"\n"), Some("\u{1f600}\u{0}"));
    assert_eq!(again.i64_field("n"), Some(-5));
    assert_eq!(json::texts_of(again.get("l").unwrap()), Some(texts(&["x", ""])));
    assert_eq!(json::texts_of(&json::uint(1)), None);
}

#[test]
fn fields_are_replaced_and_removed() {
    let j = json::object1("a", json::uint(1)).with("a", json::uint(2)).with("b", json::boolean(false));
    assert_eq!(j.u64_field("a"), Some(2));
    let j = j.without("a");
    assert!(j.get("a").is_none());
    assert_eq!(j.bool_field("b"), Some(false));
}

#[test]
fn a_map_by_text_keeps_the_last_value() {
    let mut m: StrMap<u64> = StrMap::new();
    m.insert("a".to_string(), 1);
    m.insert("b".to_string(), 2);
    m.insert("a".to_string(), 3);
    assert_eq!(m.len(), 2);
    assert_eq!(m.get("a"), Some(&3));
    assert_eq!(m.remove("a"), Some(3));
    assert_eq!(m.remove("a"), None);
    assert!(!m.contains("a"));
    assert_eq!(m.key_at(0), "b");
    assert_eq!(m.value_at(0), &2);
}

#[test]
fn a_path_is_the_same_however_it_is_written() {
    assert!(path::same("/p", "/p/"));
    assert!(path::same("/p//a/./b", "/p/a/b/"));
    assert!(path::same("a/.", "a"));
    assert!(!path::same("p", "/p"));
    assert!(!path::same("./p", "p"));
    assert!(!path::same("/p/a/..", "/p"));
    assert!(!path::same("/p", "/q"));
    assert!(path::list_contains_path(&vec!["/q".to_string(), "/p/".to_string()], "/p"));
    assert!(!path::list_contains_path(&vec!["/q".to_string()], "/p"));
}

#[test]
fn windows_paths_have_drives_and_two_separators() {
    let normal = |p: &str| path::normalize_lexically(p, true);
    assert_eq!(normal("C:\\a\\.\\b\\..\\c"), Some("C:/a/c".to_string()));
    assert_eq!(normal("C:\\.."), None);
    assert_eq!(normal("C:a\\..\\.."), None);
    assert_eq!(normal("..\\x"), None);
    assert_eq!(normal("\\\\server\\share\\a\\..\\b"), Some("//server/share/b".to_string()));
    assert_eq!(normal("\\\\server\\share\\.."), None);
    assert_eq!(path::normalize_lexically("..\\x", false), Some("..\\x".to_string()));
    let root = path::normalize("c:\\p", true).unwrap();
    assert!(path::normalize("C:/p/a", true).unwrap().under(&root));
    assert!(!path::normalize("D:\\p\\a", true).unwrap().under(&root));
    assert!(!path::normalize("\\p\\a", true).unwrap().under(&root));
    assert!(!path::normalize("C:p\\a", true).unwrap().under(&root));
    assert_eq!(path::join_on("C:\\p", "a\\b", true), "C:/p/a/b");
    assert_eq!(path::join_on("C:\\p", "\\a", true), "C:/a");
    assert_eq!(path::join_on("C:", "a", true), "C:a");
    assert_eq!(path::join_on("C:\\p", "D:a", true), "D:a");
    assert_eq!(path::join_on("/p", "a\\b", false), "/p/a\\b");
}

#[test]
fn a_field_that_is_set_again_is_written_once() {
    let v = json::object2("ok", json::boolean(true), "a", json::uint(1)).with("ok", json::boolean(false)).with("a", json::uint(2));
    let t = json::to_text(&v);
    assert_eq!(t, r#"{"a":2,"ok":false}"#);
    let nested = json::object1("o", v);
    assert_eq!(json::to_text(&nested), r#"{"o":{"a":2,"ok":false}}"#);
}

#[test]
fn a_path_has_one_key() {
    assert_eq!(path::key_of("/p//a/."), path::key_of("/p/a/"));
    assert_eq!(path::key_of("/p/a"), "/p/a/");
    assert_ne!(path::key_of("p/a"), path::key_of("/p/a"));
    assert_ne!(path::key_of("/p"), path::key_of("/p/a"));
    assert_eq!(path::key_of("/"), "/");
    assert_eq!(path::key_of(""), "");
}

#[test]
fn windows_shares_are_known_in_both_forms() {
    assert_eq!(path::prefix_of("//server/share/x", true), "//server/share");
    assert_eq!(path::prefix_of("//?/UNC/server/share/x", true), "//?/UNC/server/share");
    assert_eq!(path::prefix_of("//?/UNC/server", true), "//?/UNC/server");
    assert_eq!(path::prefix_of("//?/C:/x", true), "//?/C:");
    assert_eq!(path::prefix_of("D:/x", true), "D:");
    assert_eq!(path::prefix_of("/x", true), "");
    assert_eq!(path::prefix_of("D:/x", false), "");
}
