use popone::text::{extension_of, file_name_of, file_stem_of};
use std::path::Path;

fn name(p: &str) -> String {
    file_name_of(&p.to_string())
}

#[test]
fn file_names_follow_std_paths() {
    assert_eq!(name("C:\\tex\\Skin.PNG"), "Skin.PNG");
    assert_eq!(name("a/b/c.png"), "c.png");
    assert_eq!(name("dir/"), "dir");
    assert_eq!(name("foo/."), "foo");
    assert_eq!(name("a//b"), "b");
    assert_eq!(name("a/.."), "");
    assert_eq!(name(".."), "");
    assert_eq!(name("."), "");
    assert_eq!(name(""), "");
    assert_eq!(name("/"), "");
    for p in ["a/b/c.png", "dir/", "foo/.", "a//b", "a/..", "..", ".", "", "/", "x.tar.gz", "./y"] {
        let std_name = Path::new(p).file_name().map(|n| n.to_string_lossy().to_string()).unwrap_or_default();
        assert_eq!(name(p), std_name, "{p}");
    }
}

#[test]
fn stems_and_extensions() {
    assert_eq!(file_stem_of(&"x.tar.gz".to_string()), "x.tar");
    assert_eq!(extension_of(&"x.tar.gz".to_string()), "gz");
    assert_eq!(file_stem_of(&".hidden".to_string()), ".hidden");
    assert_eq!(extension_of(&".hidden".to_string()), "");
    assert_eq!(file_stem_of(&"foo.".to_string()), "foo");
    assert_eq!(extension_of(&"foo.".to_string()), "");
}
