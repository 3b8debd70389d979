use tessera::utils::{
    decimal, file_name, is_absolute, join, path_extension, resolve_uri, strip_query_and_fragment,
    ends_with_ascii_lowercase, str_eq,
};

#[test]
fn strip_removes_query_then_fragment() {
    assert_eq!(strip_query_and_fragment("a/b.b3dm?v=1#frag"), "a/b.b3dm");
    assert_eq!(strip_query_and_fragment("a/b.b3dm#frag?x"), "a/b.b3dm");
    assert_eq!(strip_query_and_fragment("a/b.b3dm"), "a/b.b3dm");
    assert_eq!(strip_query_and_fragment("?only"), "");
    assert_eq!(strip_query_and_fragment("é/ü.glb?q"), "é/ü.glb");
}

#[test]
fn resolve_joins_relative_and_keeps_absolute() {
    assert_eq!(resolve_uri("/data/set", "tiles/0.b3dm?v=2"), "/data/set/tiles/0.b3dm");
    assert_eq!(resolve_uri("/data/set/", "0.b3dm"), "/data/set/0.b3dm");
    assert_eq!(resolve_uri("", "0.b3dm"), "0.b3dm");
    assert_eq!(resolve_uri("/data/set", "/abs/0.b3dm#f"), "/abs/0.b3dm");
}

#[test]
fn join_matches_path_join() {
    assert_eq!(join("a", "b"), "a/b");
    assert_eq!(join("a/", "b"), "a/b");
    assert_eq!(join("a", "/b"), "/b");
    assert_eq!(join("a", ""), "a/");
    assert!(is_absolute("/x"));
    assert!(!is_absolute("x/y"));
    assert!(!is_absolute(""));
}

#[test]
fn file_names_and_extensions() {
    assert_eq!(file_name("a/b/c.json"), Some("c.json"));
    assert_eq!(file_name("a/b/"), Some("b"));
    assert_eq!(file_name("a/b/."), Some("b"));
    assert_eq!(file_name("a/.."), None);
    assert_eq!(file_name("/"), None);
    assert_eq!(file_name(""), None);
    assert_eq!(path_extension("a/b.tar.gz"), Some("gz"));
    assert_eq!(path_extension("a/.hidden"), None);
    assert_eq!(path_extension("a/.hidden.glb"), Some("glb"));
    assert_eq!(path_extension("a/name."), Some(""));
    assert_eq!(path_extension("a.b/name"), None);
}

#[test]
fn string_helpers() {
    assert!(str_eq("abc", "abc"));
    assert!(!str_eq("abc", "abd"));
    assert!(!str_eq("abc", "ab"));
    assert!(ends_with_ascii_lowercase("Tileset.JSON", ".json"));
    assert!(!ends_with_ascii_lowercase("tileset.jsonx", ".json"));
    assert!(!ends_with_ascii_lowercase("json", ".json"));
    assert_eq!(decimal(0), "0");
    assert_eq!(decimal(907), "907");
    assert_eq!(decimal(u64::MAX), u64::MAX.to_string());
}
