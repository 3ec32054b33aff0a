use lyra::paths::{art_cache_dir, cli_data_dir, expand_tilde, library_db_path, path_join};

#[test]
fn path_ends_with_lyra_library_db() {
    let p = library_db_path(&None, &Some("/home/u".to_string()));
    let mut comps = p.rsplit('/');
    assert_eq!(comps.next(), Some("library.db"));
    assert_eq!(comps.next(), Some("lyra"));
    assert_eq!(p, "/home/u/.local/share/lyra/library.db");
}

#[test]
fn library_db_path_prefers_xdg_data_home() {
    assert_eq!(
        library_db_path(&Some("/data".to_string()), &Some("/home/u".to_string())),
        "/data/lyra/library.db"
    );
    // An empty variable counts as unset.
    assert_eq!(
        library_db_path(&Some(String::new()), &Some("/home/u".to_string())),
        "/home/u/.local/share/lyra/library.db"
    );
    // No home: the current directory.
    assert_eq!(library_db_path(&None, &None), "./.local/share/lyra/library.db");
}

#[test]
fn art_cache_dir_from_environment() {
    assert_eq!(art_cache_dir(&None, &Some("/home/u".to_string())), "/home/u/.cache/lyra/art");
    assert_eq!(art_cache_dir(&Some("/c/".to_string()), &None), "/c/lyra/art");
}

#[test]
fn cli_data_dir_needs_absolute_xdg() {
    assert_eq!(cli_data_dir(&Some("/x".to_string()), &Some("/h".to_string())), "/x/lyra");
    assert_eq!(
        cli_data_dir(&Some("rel".to_string()), &Some("/h".to_string())),
        "/h/.local/share/lyra"
    );
    assert_eq!(cli_data_dir(&None, &None), "/tmp/.local/share/lyra");
}

#[test]
fn join_follows_unix_rules() {
    assert_eq!(path_join("/a", "b"), "/a/b");
    assert_eq!(path_join("/a/", "b"), "/a/b");
    assert_eq!(path_join("", "b"), "b");
    assert_eq!(path_join("/a", "/b"), "/b");
}

#[test]
fn tilde_expands_only_at_the_start() {
    assert_eq!(expand_tilde("~/Music", "/home/u"), "/home/u/Music");
    assert_eq!(expand_tilde("~", "/home/u"), "/home/u");
    assert_eq!(expand_tilde("~bob/x", "/home/u"), "~bob/x");
    assert_eq!(expand_tilde("/abs", "/home/u"), "/abs");
    assert_eq!(expand_tilde("", "/home/u"), "");
}
