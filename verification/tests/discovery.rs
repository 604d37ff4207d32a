use patronus::discovery::{
    is_candidate, is_dylib, search_directories, split_search_path, Platform,
};
use std::path::Path;

#[test]
fn default_directory_comes_first() {
    assert_eq!(
        search_directories("/usr/lib/patronus", None, Platform::Other),
        vec![String::from("/usr/lib/patronus")]
    );
    assert_eq!(
        search_directories("/usr/lib/patronus", Some("/opt/a:/opt/b"), Platform::Other),
        vec![
            String::from("/usr/lib/patronus"),
            String::from("/opt/a"),
            String::from("/opt/b")
        ]
    );
}

#[test]
fn search_path_is_split_by_the_separator_of_the_platform() {
    assert_eq!(
        search_directories("d", Some("C:\\a;C:\\b"), Platform::Windows),
        vec![String::from("d"), String::from("C:\\a"), String::from("C:\\b")]
    );
    assert_eq!(
        search_directories("d", Some("/a;/b:/c"), Platform::MacOs),
        vec![String::from("d"), String::from("/a;/b"), String::from("/c")]
    );
    assert_eq!(Platform::Other.path_separator(), ':');
    assert_eq!(Platform::MacOs.path_separator(), ':');
    assert_eq!(Platform::Windows.path_separator(), ';');
}

#[test]
fn empty_entries_of_a_search_path_are_kept() {
    assert_eq!(split_search_path("", Platform::Other), vec![String::new()]);
    assert_eq!(
        split_search_path("a::b", Platform::Other),
        vec![String::from("a"), String::new(), String::from("b")]
    );
    assert_eq!(split_search_path(":", Platform::Other), vec![String::new(), String::new()]);
    assert_eq!(split_search_path("a:", Platform::Other), vec![String::from("a"), String::new()]);
    assert_eq!(
        split_search_path("/\u{e9}t\u{e9}:/x", Platform::Other),
        vec![String::from("/\u{e9}t\u{e9}"), String::from("/x")]
    );
    assert_eq!(split_search_path(";", Platform::Windows), vec![String::new(), String::new()]);
}

#[test]
fn quoted_separator_belongs_to_its_entry() {
    let split = |path: &str| split_search_path(path, Platform::Windows);
    assert_eq!(
        split("c:\\foo;c:\\som\"e;di\"r;c:\\bar"),
        vec![String::from("c:\\foo"), String::from("c:\\some;dir"), String::from("c:\\bar")]
    );
    assert_eq!(
        split("a;\"b;c\";d"),
        vec![String::from("a"), String::from("b;c"), String::from("d")]
    );
    assert_eq!(split("\"\""), vec![String::new()]);
    assert_eq!(split("\";\""), vec![String::from(";")]);
    assert_eq!(split("a;\"b;c"), vec![String::from("a"), String::from("b;c")]);
    assert_eq!(split("\"a\"\"b\";c"), vec![String::from("ab"), String::from("c")]);
    // Elsewhere a quote is a character like any other.
    assert_eq!(
        split_search_path("a:\"b:c\"", Platform::Other),
        vec![String::from("a"), String::from("\"b"), String::from("c\"")]
    );
    assert_eq!(
        search_directories("d", Some("x;\"y;z\""), Platform::Windows),
        vec![String::from("d"), String::from("x"), String::from("y;z")]
    );
}

#[test]
fn split_entries_join_to_the_path() {
    for path in ["", "a", "a:b", ":a::b:", "/usr/lib:/opt/lib:relative"] {
        let entries = split_search_path(path, Platform::Other);
        assert_eq!(entries.join(":"), path);
        assert!(entries.iter().all(|entry| !entry.contains(':')));
    }
}

#[test]
fn shared_libraries_are_told_by_their_extension() {
    assert!(is_dylib("/usr/lib/patronus/libsample.so", Platform::Other));
    assert!(is_dylib("libsample.so", Platform::Other));
    assert!(is_dylib("libsample.dylib", Platform::MacOs));
    assert!(is_dylib("C:\\plugins\\sample.dll", Platform::Windows));
    assert!(!is_dylib("libsample.so", Platform::MacOs));
    assert!(!is_dylib("libsample.so", Platform::Windows));
    assert!(!is_dylib("libsample.dll", Platform::Other));
    assert!(!is_dylib("libsample.so.1", Platform::Other));
    assert!(!is_dylib("libsample", Platform::Other));
    assert!(!is_dylib("so", Platform::Other));
    assert!(!is_dylib(".so", Platform::Other));
    assert!(!is_dylib("/plugins/.so", Platform::Other));
    assert!(!is_dylib("/plugins.so/readme", Platform::Other));
    assert!(!is_dylib("libsample.SO", Platform::Other));
    assert!(!is_dylib("", Platform::Other));
    assert!(is_dylib("x.so/", Platform::Other));
    assert!(is_dylib("x.so//", Platform::Other));
    assert!(is_dylib("x.so/.", Platform::Other));
    assert!(!is_dylib("x.so/..", Platform::Other));
    assert!(is_dylib("C:\\plugins\\sample.dll\\", Platform::Windows));
    assert!(is_dylib("C:\\plugins\\sample.dll\\.", Platform::Windows));
    assert!(!is_dylib("plugins\\sample.so\\", Platform::Other));
    assert!(is_dylib("a.b.so", Platform::Other));
    assert!(is_dylib("..so", Platform::Other));
    assert_eq!(Platform::Other.dylib_extension(), "so");
    assert_eq!(Platform::MacOs.dylib_extension(), "dylib");
    assert_eq!(Platform::Windows.dylib_extension(), "dll");
}

#[test]
fn extension_agrees_with_the_standard_library_on_listed_paths() {
    for path in [
        "/usr/lib/patronus/libsample.so",
        "libsample.so",
        "lib.so.1",
        "/a.so/b",
        "/dir/.so",
        ".so",
        "noext",
        "dir/a.b.so",
        "dir/trailing.",
        "\u{e9}.so",
        "x.so/",
        "x.so//",
        "x.so/.",
        "x.so/./",
        "x.so/././/",
        "x.so/..",
        "x.so/../",
        "a/../x.so",
        "./x.so",
        "dir/.so/",
        ".",
        "..",
        "...",
        "..so",
        "/",
        "//",
        "/.",
        "./",
        "",
        "so",
        "x.so.",
        "x.so/.hidden",
        "x.so/.hidden.so",
        "x.txt/.",
    ] {
        let expected = Path::new(path).extension().map_or(false, |ext| ext == "so");
        assert_eq!(is_dylib(path, Platform::Other), expected, "{}", path);
    }
}

#[test]
fn only_regular_files_are_candidates() {
    assert!(is_candidate(true, "/p/libsample.so", Platform::Other));
    assert!(!is_candidate(false, "/p/libsample.so", Platform::Other));
    assert!(!is_candidate(true, "/p/notes.txt", Platform::Other));
    assert!(!is_candidate(false, "/p/notes.txt", Platform::Other));
}
