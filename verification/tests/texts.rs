use codeindex::hashing::sha256_hex;
use codeindex::json::{quote, write_object};
use codeindex::lines::{line_of, lines_in};
use codeindex::order::{size_order, sort_order, weight_order};
use codeindex::path::{
    components_of, is_below, is_rooted, name_of, parent_path, relative_path, same_path,
};
use codeindex::replace::{replace, split_on};
use codeindex::text::{
    contains, decimal_text, join, join_path, lower_ascii, parse_number, signed_text, split_once,
    split_words, trim, trim_end,
};
use codeindex::text_map::TextMap;
use codeindex::utf8::{byte_offset, slice_text};

#[test]
fn numbers_are_written_and_read() {
    assert_eq!(decimal_text(0), "0");
    assert_eq!(decimal_text(u64::MAX), "18446744073709551615");
    assert_eq!(signed_text(i64::MIN), "-9223372036854775808");
    assert_eq!(parse_number("42", 100), Some(42));
    assert_eq!(parse_number("101", 100), None);
    assert_eq!(parse_number("", 100), None);
    assert_eq!(parse_number("4x", 100), None);
}

#[test]
fn texts_are_cut_and_joined() {
    assert_eq!(split_once("a=b=c", '='), Some(("a".into(), "b=c".into())));
    assert_eq!(split_once("abc", '='), None);
    assert_eq!(split_words("  a \t b\n"), vec!["a".to_string(), "b".to_string()]);
    assert_eq!(trim("\u{3000} x \n"), "x");
    assert_eq!(trim_end(" x \n"), " x");
    assert_eq!(join(&vec!["a".into(), "b".into()], ", "), "a, b");
    assert_eq!(join_path("/a", "b"), "/a/b");
    assert!(contains("hello", "ell"));
    assert_eq!(lower_ascii("ÀBC"), "Àbc");
    assert_eq!(replace("aXbXc", "X", "--"), "a--b--c");
    assert_eq!(split_on("a::b::c", "::"), vec!["a".to_string(), "b".into(), "c".into()]);
    assert_eq!(lines_in("a\nb\r\nc"), 3);
    assert_eq!(line_of("a\nb\r\nc", 1).as_deref(), Some("b"));
    assert_eq!(line_of("a", 1), None);
}

#[test]
fn bytes_and_characters_are_told_apart() {
    assert_eq!(slice_text("aπb", 1, 3), "π");
    let chars: Vec<char> = "aπb".chars().collect();
    assert_eq!(byte_offset(&chars, 2), 3);
}

#[test]
fn paths_are_made_of_components() {
    assert!(is_rooted("/a"));
    assert_eq!(components_of("/a/./b"), vec!["/".to_string(), "a".into(), "b".into()]);
    assert!(is_below("/a/b/c", "/a/b"));
    assert!(!is_below("/a/bc", "/a/b"));
    assert!(same_path("/a//b/", "/a/b"));
    assert_eq!(relative_path("/a/b/c", "/a").as_deref(), Some("b/c"));
    assert_eq!(relative_path("/x", "/a"), None);
    assert_eq!(relative_path("/a/./b//c/", "/a").as_deref(), Some("b//c"));
    assert_eq!(relative_path("./a/b/.", "").as_deref(), Some("./a/b"));
    assert_eq!(relative_path("/a/b", "/").as_deref(), Some("a/b"));
    assert_eq!(relative_path("/a", "/a").as_deref(), Some(""));
    assert_eq!(parent_path("/a//b/./c/").as_deref(), Some("/a//b"));
    assert_eq!(parent_path("/a").as_deref(), Some("/"));
    assert_eq!(parent_path("a").as_deref(), Some(""));
    assert_eq!(parent_path("./a").as_deref(), Some("."));
    assert_eq!(parent_path("/"), None);
    for path in ["/a//b/./c/", "./a", "a/..", ".", "a/b", "/a", ".a/b", "a/."] {
        let parent = std::path::Path::new(path).parent().map(|p| p.to_string_lossy().into_owned());
        assert_eq!(parent_path(path), parent);
    }
    let paths = [
        "", ".", "/", "a", "./a", "/a", "a/b", "/a//b/", "/a/./b/c", "a/./b", "./a//b/.", "//a/b", "/.",
        "/./a", "a/../b", "../a", ".a", "/a/b//./c/.",
    ];
    for path in paths {
        for base in paths {
            let rest = std::path::Path::new(path).strip_prefix(base).ok();
            let rest = rest.map(|rest| rest.to_string_lossy().into_owned());
            assert_eq!(relative_path(path, base), rest, "{path} below {base}");
        }
        let parent = std::path::Path::new(path).parent().map(|p| p.to_string_lossy().into_owned());
        assert_eq!(parent_path(path), parent, "{path}");
    }
    assert_eq!(name_of("/a/b.rs").as_deref(), Some("b.rs"));
}

#[test]
fn orders_are_stable() {
    let keys = vec!["b".to_string(), "a".into(), "b".into()];
    assert_eq!(sort_order(&keys), vec![1, 0, 2]);
    assert_eq!(size_order(&keys, &vec![1, 2, 3]), vec![2, 1, 0]);
    assert_eq!(weight_order(&vec![5, 9, 5], &vec![2, 0, 1]), vec![1, 2, 0]);
}

#[test]
fn maps_keep_their_keys_in_order() {
    let mut map = TextMap::new();
    assert_eq!(map.insert("b".into(), 1), None);
    assert_eq!(map.insert("a".into(), 2), None);
    assert_eq!(map.insert("b".into(), 3), Some(1));
    assert_eq!(map.entries[0].0, "a");
    assert_eq!(map.get("b"), Some(&3));
    assert_eq!(map.find("c"), None);
    assert_eq!(map.remove("a"), Some(2));
    assert_eq!(map.entries.len(), 1);
}

#[test]
fn digests_and_literals_come_from_outside() {
    assert_eq!(
        sha256_hex("abc"),
        "ba7816bf8f01cfea414140de5dae2223b00361a396177a9cb410ff61f20015ad"
    );
    assert_eq!(
        write_object(&vec![("a\n", "1".to_string()), ("b", "[]".to_string())]),
        "{\"a\\n\":1,\"b\":[]}"
    );
}

#[test]
fn literals_are_escaped() {
    let mut all: String = (0u8..128).map(char::from).collect();
    all.push_str("\u{80}\u{2028}é😀");
    for text in ["", "plain", "a\"b\\c", "\u{1f}\u{7f}\n\t", all.as_str()] {
        assert_eq!(quote(text), serde_json::to_string(text).unwrap());
    }
    assert_eq!(quote("a\"\u{1}"), "\"a\\\"\\u0001\"");
}
