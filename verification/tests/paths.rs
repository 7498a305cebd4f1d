use disktree::path::NativePath;

fn path(text: &str) -> NativePath {
    NativePath::from_bytes(text.as_bytes())
}

#[test]
fn components_ignore_repeated_and_trailing_separators() {
    assert_eq!(path("/a//b/"), path("/a/b"));
    assert_eq!(path("//a"), path("/a"));
    assert_eq!(path("/a/./b/."), path("/a/b"));
    assert_ne!(path("./a"), path("a"));
    assert_eq!(path("./a/."), path("./a"));
    assert_ne!(path("/a"), path("a"));
    assert_eq!(path("a/../b").to_bytes(), b"a/../b".to_vec());
    assert_eq!(path("/a//b/").to_bytes(), b"/a/b".to_vec());
    assert_eq!(path("").to_bytes(), Vec::<u8>::new());
    assert_eq!(path("/").to_bytes(), b"/".to_vec());
    assert!(path("/a").is_absolute());
    assert!(!path("a").is_absolute());
}

#[test]
fn prefixes_go_by_whole_components() {
    assert!(path("/Users/me/x").starts_with(&path("/Users/me")));
    assert!(!path("/Users/meh").starts_with(&path("/Users/me")));
    assert!(path("/a").starts_with(&path("")));
    assert!(!path("a").starts_with(&path("/")));
    assert_eq!(path("/Users/me/x").strip_prefix(&path("/Users")), Some(path("me/x")));
    assert_eq!(path("/Users").strip_prefix(&path("/Volumes")), None);
    assert!(path("/a/b").same(&path("/a//b")));
    assert!(!path("/a/b").same(&path("/a/c")));
}

#[test]
fn joining_follows_path_push() {
    assert_eq!(path("/System/Volumes/Data").join(&path("Users")), path("/System/Volumes/Data/Users"));
    assert_eq!(path("/base").join(&path("/abs")), path("/abs"));
    assert_eq!(path("/base").join(&path("./x")), path("/base/x"));
    assert_eq!(path("").join(&path("./x")), path("./x"));
    assert_eq!(path("/").join(&path("")), path("/"));
}

#[test]
fn written_paths_read_back_the_same() {
    for text in ["/a//b/", "./x/./y", "a/../b", "/", "", "//", "/Volumes/My Disk (backup)"] {
        let p = path(text);
        assert_eq!(NativePath::from_bytes(&p.to_bytes()), p);
    }
}
