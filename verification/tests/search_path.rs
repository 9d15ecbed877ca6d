use tpk_whisper::search_path::augmented_search_path;

#[test]
fn adds_home_and_system_dirs() {
    let p = augmented_search_path(Some("/usr/bin::/a"), Some("/home/u"));
    assert_eq!(
        p,
        "/usr/bin:/a:/home/u/.local/bin:/home/u/.cargo/bin:/opt/homebrew/bin:/usr/local/bin:/bin"
    );
}

#[test]
fn no_path_no_home() {
    assert_eq!(
        augmented_search_path(None, None),
        "/opt/homebrew/bin:/usr/local/bin:/usr/bin:/bin"
    );
}

#[test]
fn home_with_trailing_slash_and_duplicates() {
    let p = augmented_search_path(Some("/bin:/bin:/x/.local/bin"), Some("/x/"));
    assert_eq!(
        p,
        "/bin:/x/.local/bin:/x/.cargo/bin:/opt/homebrew/bin:/usr/local/bin:/usr/bin"
    );
}

#[test]
fn home_joined_like_pathbuf() {
    for home in ["/", "/Users/me", "/Users/me/", "rel"] {
        let expected = std::path::Path::new(home).join(".local/bin").to_string_lossy().into_owned();
        let p = augmented_search_path(None, Some(home));
        assert!(p.starts_with(&format!("{}:", expected)), "{} vs {}", p, expected);
    }
}
