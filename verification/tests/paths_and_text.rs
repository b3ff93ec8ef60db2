//! Path normalization, containment, naming, kind detection, and text
//! utilities.
use nexusmap_sync::events::tail_lines;
use nexusmap_sync::kind::detect_kind;
use nexusmap_sync::paths::{
    conflict_rel_path, events_path, file_name_of, has_md_extension, is_safe_relative, mapping_path,
    nexusmap_dir, parent_rel_of, push_gate, to_rel_posix, trash_dest_path, trash_dir, vault_join,
};
use nexusmap_sync::strutil::{
    is_blank, split_segments, str_concat, str_eq, str_lt, trim_trailing_char, u32_to_string,
    vec_contains_str,
};
use nexusmap_sync::sync_key;

#[test]
fn internal_locations_live_under_the_vault() {
    assert_eq!(nexusmap_dir("/v"), "/v/.nexusmap");
    assert_eq!(mapping_path("/v"), "/v/.nexusmap/sync.json");
    assert_eq!(events_path("/v"), "/v/.nexusmap/events.jsonl");
    assert_eq!(trash_dir("/v"), "/v/.nexusmap/trash");
    assert_eq!(
        trash_dest_path("/v", "2024-01-03T000000Z", "a/b/note.md"),
        "/v/.nexusmap/trash/2024-01-03T000000Z/a/b/note.md"
    );
    assert_eq!(vault_join("/v", "a/b.md"), "/v/a/b.md");
    assert_eq!(sync_key("/v", "P"), "/v|P");
}

#[test]
fn relative_paths_strip_the_root() {
    assert_eq!(to_rel_posix("/v", "/v/a/b.md"), Some("a/b.md".to_string()));
    assert_eq!(to_rel_posix("/v", "/v"), Some("".to_string()));
    assert_eq!(to_rel_posix("/v", "/w/x.md"), None);
    assert_eq!(to_rel_posix("/v", "/vault/x.md"), None);
    // Redundant separators do not survive: the result is built from
    // components, so it never begins with a separator.
    assert_eq!(to_rel_posix("/v", "/v//x.md"), Some("x.md".to_string()));
    // A vault path given with a trailing slash still matches its subtree.
    assert_eq!(to_rel_posix("/v/", "/v/a/b.md"), Some("a/b.md".to_string()));
}

#[test]
fn containment_rejects_escapes() {
    // P8: parent components and absolute paths never resolve in the vault.
    assert!(!is_safe_relative("../foo"));
    assert!(!is_safe_relative("/etc/passwd"));
    assert!(!is_safe_relative("a/../b"));
    assert!(!is_safe_relative("a/b/.."));
    assert!(is_safe_relative("a/b.md"));
    assert!(is_safe_relative(""));
    assert!(is_safe_relative("a/./b"));
}

#[test]
fn the_gate_names_the_relative_path() {
    assert_eq!(push_gate("/v", "/v/a/b/note.md"), Some("a/b/note.md".to_string()));
    assert_eq!(push_gate("/v", "/v/.nexusmap/trash/x"), None);
    assert_eq!(push_gate("/v", "/v/resources"), None);
    assert_eq!(push_gate("/v", "/v/rag"), None);
    assert_eq!(push_gate("/v", "/v/ragtime.md"), Some("ragtime.md".to_string()));
    assert_eq!(push_gate("/v", "/w/a.md"), None);
}

#[test]
fn names_split_as_paths_do() {
    assert_eq!(file_name_of("a/b/note.md"), "note.md");
    assert_eq!(file_name_of("note.md"), "note.md");
    assert_eq!(parent_rel_of("a/b/note.md"), "a/b");
    assert_eq!(parent_rel_of("note.md"), "");
    assert!(has_md_extension("a/b/note.md"));
    assert!(has_md_extension("a.tar.md"));
    assert!(!has_md_extension("note.txt"));
    assert!(!has_md_extension("README"));
    assert!(!has_md_extension(".md"));
    assert!(!has_md_extension("a/.md"));
}

#[test]
fn conflict_siblings_keep_directory_and_extension() {
    assert_eq!(
        conflict_rel_path("a/b/note.md", "2024-01-03T000000Z"),
        "a/b/note (conflict from NexusMap 2024-01-03T000000Z).md"
    );
    assert_eq!(
        conflict_rel_path("note.md", "T"),
        "note (conflict from NexusMap T).md"
    );
    assert_eq!(
        conflict_rel_path("README", "T"),
        "README (conflict from NexusMap T).md"
    );
}

#[test]
fn kind_comes_from_the_fenced_header() {
    assert_eq!(detect_kind("plain text"), "note");
    assert_eq!(
        detect_kind("```nexus-doc\n{\"kind\": \"recipe\"}\n```\nbody"),
        "recipe"
    );
    // A malformed header falls back to a note.
    assert_eq!(detect_kind("```nexus-doc\n{not json}\n```\n"), "note");
    // A header without the field falls back too.
    assert_eq!(detect_kind("```nexus-doc\n{\"title\": \"x\"}\n```\n"), "note");
    // An unterminated fence is no header.
    assert_eq!(detect_kind("```nexus-doc\n{\"kind\": \"recipe\"}"), "note");
}

#[test]
fn strings_behave_like_their_specs() {
    assert!(str_eq("abc", "abc"));
    assert!(!str_eq("abc", "abd"));
    assert!(str_lt("2024-01-02T00:00:00Z", "2024-02-01T00:00:00Z"));
    assert!(!str_lt("2024-02-01T00:00:00Z", "2024-01-02T00:00:00Z"));
    assert!(!str_lt("abc", "abc"));
    assert!(str_lt("ab", "abc"));
    assert_eq!(u32_to_string(0), "0");
    assert_eq!(u32_to_string(12034), "12034");
    assert_eq!(trim_trailing_char("https://x.y//", '/'), "https://x.y");
    assert_eq!(str_concat("a", "b"), "ab");
    assert!(is_blank(" \t\r\n"));
    assert!(!is_blank(" x "));
    assert_eq!(split_segments("a//b/"), vec!["a".to_string(), "b".to_string()]);
    let xs = vec!["p".to_string(), "q".to_string()];
    assert!(vec_contains_str(&xs, "q"));
    assert!(!vec_contains_str(&xs, "r"));
}

#[test]
fn the_tail_is_the_last_lines_in_order() {
    let text = "one\ntwo\nthree\n";
    assert_eq!(tail_lines(text, 2), vec!["two".to_string(), "three".to_string()]);
    assert_eq!(
        tail_lines(text, 10),
        vec!["one".to_string(), "two".to_string(), "three".to_string()]
    );
    assert_eq!(tail_lines("", 5), Vec::<String>::new());
    assert_eq!(tail_lines("solo", 5), vec!["solo".to_string()]);
    assert_eq!(tail_lines(text, 0), Vec::<String>::new());
}
