use omnimind_server::order::{TextMap, TextSet};
use omnimind_server::paths::{
    file_name_of, is_absolute_path, named_file_of, normalize_path, normalize_path_components, parts_of_bytes, path_starts_with,
    project_name_from_path, project_path_matches, relative_to_project, safe_join, safe_media_slug,
    strip_root,
};
use omnimind_server::startup::Platform;
use omnimind_server::text::{decimal_text, parsed_size, split_text, trimmed};
use omnimind_server::url::{
    is_decodable, is_query_decodable, parameter_of, parse_query, percent_decode, split_url,
};

#[test]
fn urls_are_taken_apart() {
    assert_eq!(
        split_url("/a?b=c?d"),
        ("/a".to_string(), "b=c?d".to_string())
    );
    assert_eq!(split_url("/a"), ("/a".to_string(), String::new()));
}

#[test]
fn texts_are_percent_decoded() {
    assert_eq!(percent_decode("a%20b+c"), "a b c");
    assert_eq!(percent_decode("%E9%97%A8"), "门");
    assert_eq!(percent_decode("100%"), "100%");
    let encoded: String = "a 门+%".bytes().map(|b| format!("%{b:02X}")).collect();
    assert_eq!(percent_decode(&encoded), "a 门+%");
    let small: String = "a 门+%".bytes().map(|b| format!("%{b:02x}")).collect();
    assert_eq!(percent_decode(&small), "a 门+%");
    assert_eq!(percent_decode("a+%e9%97%A8%2B%25"), "a 门+%");
    assert_eq!(percent_decode("%zz%4"), "%zz%4");
    assert_eq!(percent_decode("%ff"), "\u{fffd}");
    assert_eq!(percent_decode("门店"), "门店");
    assert!(is_decodable("a%20"));
    assert!(!is_decodable("%a中"));
    assert!(is_decodable("%a"));
}

#[test]
fn signs_count_in_hexadecimal_digits() {
    assert_eq!(percent_decode("%+1"), "\u{1}");
    assert_eq!(percent_decode("%-1"), "%-1");
}

#[test]
fn queries_are_read() {
    let params = parse_query("a=1&&b=x%26y&a=2&c&=e");
    assert_eq!(parameter_of(&params, "a"), Some("2"));
    assert_eq!(parameter_of(&params, "b"), Some("x&y"));
    assert_eq!(parameter_of(&params, "c"), Some(""));
    assert_eq!(parameter_of(&params, ""), Some("e"));
    assert_eq!(parameter_of(&params, "d"), None);
    assert!(is_query_decodable("a=%20&b"));
    assert!(!is_query_decodable("a=%a中"));
}

#[test]
fn paths_stay_inside() {
    assert_eq!(safe_join(Platform::Other, "/p", "a/b"), Ok("/p/a/b".to_string()));
    assert_eq!(safe_join(Platform::Other, "/p/", "//a"), Ok("/p/a".to_string()));
    assert_eq!(safe_join(Platform::Other, "/p", "./a/."), Ok("/p/./a/.".to_string()));
    assert_eq!(safe_join(Platform::Other, "/p", ""), Ok("/p/".to_string()));
    assert_eq!(safe_join(Platform::Other, "", "a"), Ok("a".to_string()));
    assert_eq!(safe_join(Platform::Other, "/p", "a..b/..."), Ok("/p/a..b/...".to_string()));
    let refused = Err("Path traversal is not allowed".to_string());
    assert_eq!(safe_join(Platform::Other, "/p", "a/../b"), refused);
    assert_eq!(safe_join(Platform::Other, "/p", "/.."), refused);
}

#[test]
fn paths_are_absolute_by_platform() {
    assert!(is_absolute_path(Platform::Other, "/a"));
    assert!(!is_absolute_path(Platform::Other, "C:\\x"));
    assert!(!is_absolute_path(Platform::Other, ""));
    assert!(is_absolute_path(Platform::Windows, "C:\\x"));
    assert!(is_absolute_path(Platform::Windows, "c:/x"));
    assert!(!is_absolute_path(Platform::Windows, "C:x"));
    assert!(!is_absolute_path(Platform::Windows, "\\x"));
    assert!(!is_absolute_path(Platform::Windows, "/x"));
    assert!(is_absolute_path(Platform::Windows, "\\\\server\\share"));
    assert!(!is_absolute_path(Platform::Windows, "\\\\server"));
    assert!(!is_absolute_path(Platform::Windows, "\\\\server\\"));
    let name = |path: &str| named_file_of(Platform::Windows, path);
    assert_eq!(name("C:\\x\\y.md"), Some("y.md".to_string()));
    assert_eq!(name("C:y.md"), Some("y.md".to_string()));
    assert_eq!(name("C:"), None);
    assert_eq!(name("\\\\server\\share"), None);
    assert_eq!(
        named_file_of(Platform::Other, "x\\y"),
        Some("x\\y".to_string())
    );
}

#[test]
fn paths_are_normal() {
    assert_eq!(normalize_path("C:\\a\\b\\"), "C:/a/b");
    assert_eq!(normalize_path("/a//"), "/a");
    assert_eq!(normalize_path("/"), "");
    assert_eq!(normalize_path(&normalize_path("\\a\\\\")), normalize_path("\\a\\\\"));
    assert!(project_path_matches("/a/", "/a", Platform::Other));
    assert!(!project_path_matches("/A", "/a", Platform::Other));
    assert!(project_path_matches("/A", "/a", Platform::Windows));
}

#[test]
fn names_come_from_paths() {
    assert_eq!(project_name_from_path("/w/my wiki"), "my wiki");
    assert_eq!(project_name_from_path("/w/.."), "Project");
    assert_eq!(project_name_from_path(""), "Project");
    assert_eq!(file_name_of("a/b/."), Some("b".to_string()));
    assert_eq!(file_name_of("a/b//"), Some("b".to_string()));
}

#[test]
fn slugs_are_plain() {
    assert_eq!(safe_media_slug("My Report (1).pdf"), "My-Report-1");
    assert_eq!(safe_media_slug("门店.pdf"), "source");
    assert_eq!(safe_media_slug("a__b.tar.gz"), "a__b.tar");
    assert_eq!(safe_media_slug(""), "source");
    assert_eq!(safe_media_slug("..-x-.._"), "x");
}

#[test]
fn shown_paths_are_relative() {
    assert_eq!(relative_to_project("/p", b"/p/wiki/a.md"), "wiki/a.md");
    assert_eq!(relative_to_project("/p/", b"/p//wiki"), "wiki");
    assert_eq!(relative_to_project("/p", b"/q/a\\b"), "/q/a/b");
    assert_eq!(relative_to_project("/p", b"/p2/a"), "/p2/a");
    assert_eq!(
        relative_to_project("/p", &[b'/', b'p', b'/', 0xff]),
        "\u{fffd}"
    );
    assert_eq!(strip_root(b"/a/b/c", b"/a/"), Some(b"b/c".to_vec()));
    assert_eq!(strip_root(b"/a/b", b"/a/b/c"), None);
}

#[test]
fn dots_are_taken_out_of_paths() {
    let normal = |path: &str| normalize_path_components(parts_of_bytes(path.as_bytes()));
    let begins = |path: &str, root: &str| path_starts_with(&normal(path), &normal(root));
    assert!(begins("/a/./b/../c", "/a/c"));
    assert!(begins("/../../a", "/a"));
    assert!(!begins("/a/../b", "/a"));
    assert!(begins("/a/b", "/a"));
    assert!(!begins("/a", "/a/b"));
    assert!(!begins("/ab", "/a"));
}

#[test]
fn sets_and_maps_go_by_order() {
    let set = TextSet::new()
        .with("b".to_string())
        .with("é".to_string())
        .with("a".to_string())
        .with("b".to_string());
    assert_eq!(set.items(), &vec!["a", "b", "é"]);
    assert!(set.contains("é"));
    assert!(!set.contains("c"));
    let map = TextMap::new()
        .put("x".to_string(), 1)
        .put("a".to_string(), 2)
        .put("x".to_string(), 3);
    assert_eq!(map.get("x"), Some(&3));
    assert_eq!(map.get("b"), None);
    let (keys, values) = map.into_entries();
    assert_eq!(keys.items(), &vec!["a", "x"]);
    assert_eq!(values, vec![2, 3]);
}

#[test]
fn numbers_are_read_and_written() {
    assert_eq!(parsed_size("0012"), Some(12));
    assert_eq!(parsed_size("+7"), Some(7));
    assert_eq!(parsed_size(""), None);
    assert_eq!(parsed_size("+"), None);
    assert_eq!(parsed_size("-1"), None);
    assert_eq!(parsed_size(" 1"), None);
    assert_eq!(parsed_size("18446744073709551616"), None);
    assert_eq!(decimal_text(0), "0");
    assert_eq!(decimal_text(u64::MAX), "18446744073709551615");
    assert_eq!(trimmed("\u{3000} a b\u{85}"), "a b");
    assert_eq!(split_text("a//b", '/'), vec!["a", "", "b"]);
}
