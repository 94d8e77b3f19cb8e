use vnfs::path::{
    components_bytes, cstring_from_bytes, file_name, join_components, join_path_bytes,
    normalize_bytes, parent_dir, path_bytes, path_components, path_from_bytes, split_path_bytes,
    starts_with,
};
use vnfs::vecfs::normalize_root_relative;

#[test]
fn non_utf8_components_roundtrip() {
    let (dir, name) = split_path_bytes(b"/a/b\xff/c").unwrap();
    assert_eq!(dir, b"a/b\xff");
    assert_eq!(name, b"c");
    assert_eq!(join_path_bytes(&dir, &name), b"a/b\xff/c");
    assert_eq!(normalize_bytes(b"a/./b/../c\xff"), b"a/c\xff");
}

#[test]
fn native_path_roundtrip() {
    let p = path_from_bytes(b"a\xffb/c");
    assert_eq!(path_bytes(&p), b"a\xffb/c");
}

#[test]
fn slashes_alone_have_no_final_component() {
    assert!(split_path_bytes(b"").is_err());
    assert!(split_path_bytes(b"///").is_err());
    let (dir, name) = split_path_bytes(b"//x//").unwrap();
    assert_eq!(dir, b"");
    assert_eq!(name, b"x");
}

#[test]
fn splitting_keeps_the_names() {
    let (dir, name) = split_path_bytes(b"/a//b/c/").unwrap();
    let mut parts = components_bytes(&dir);
    parts.push(name);
    assert_eq!(parts, components_bytes(b"/a//b/c/"));
}

#[test]
fn splitting_undoes_joining() {
    let joined = join_path_bytes(b"a/b", b"c");
    assert_eq!(joined, b"a/b/c");
    let (dir, name) = split_path_bytes(&joined).unwrap();
    assert_eq!((dir.as_slice(), name.as_slice()), (b"a/b".as_slice(), b"c".as_slice()));
}

#[test]
fn normalizing_twice_changes_nothing() {
    for path in [b"../a/./b//..".as_slice(), b"a/b/../../..", b"/x/../y/", b""] {
        let once = normalize_bytes(path);
        assert_eq!(normalize_bytes(&once), once);
    }
    assert_eq!(normalize_bytes(b"../a/./b//.."), b"a");
    assert_eq!(normalize_bytes(b"a/b/../../.."), b"");
}

#[test]
fn components_skip_empty_ones() {
    assert_eq!(components_bytes(b"//a///b/"), vec![b"a".to_vec(), b"b".to_vec()]);
    assert_eq!(join_components(&components_bytes(b"//a///b/")), b"a/b");
    assert!(components_bytes(b"/").is_empty());
}

#[test]
fn only_nul_is_rejected_in_c_strings() {
    assert_eq!(cstring_from_bytes(b"a\xff/"), Some(b"a\xff/\0".to_vec()));
    assert_eq!(cstring_from_bytes(b""), Some(b"\0".to_vec()));
    assert_eq!(cstring_from_bytes(b"a\0b"), None);
}

#[test]
fn components_keep_the_root_and_drop_inner_dots() {
    let parts = |p: &str| -> Vec<String> {
        path_components(p.as_bytes())
            .into_iter()
            .map(|c| String::from_utf8(c).unwrap())
            .collect()
    };
    assert_eq!(parts(""), Vec::<String>::new());
    assert_eq!(parts("/"), ["/"]);
    assert_eq!(parts("/a//b/"), ["/", "a", "b"]);
    assert_eq!(parts("a/./b"), ["a", "b"]);
    assert_eq!(parts("./a/."), [".", "a"]);
    assert_eq!(parts("/./a"), ["/", "a"]);
    assert_eq!(parts("a/../b"), ["a", "..", "b"]);
}

#[test]
fn file_names_are_last_components() {
    let name = |p: &str| file_name(p.as_bytes()).map(|n| String::from_utf8(n).unwrap());
    assert_eq!(name("a/b"), Some("b".to_string()));
    assert_eq!(name("d/."), Some("d".to_string()));
    assert_eq!(name("d//"), Some("d".to_string()));
    assert_eq!(name("d/.."), None);
    assert_eq!(name(".."), None);
    assert_eq!(name("/"), None);
    assert_eq!(name("."), None);
    assert_eq!(name(""), None);
    assert_eq!(name("..."), Some("...".to_string()));
}

#[test]
fn parents_end_before_the_last_component() {
    assert_eq!(parent_dir(b"a/b/c"), b"a/b");
    assert_eq!(parent_dir(b"a/b/."), b"a");
    assert_eq!(parent_dir(b"/a"), b"/");
    assert_eq!(parent_dir(b"a"), b"");
    assert_eq!(parent_dir(b"a//b/"), b"a");
}

#[test]
fn appending_keeps_the_components_before() {
    for (dir, rest) in [("/a/b", "c"), ("a/./b", "c/d"), ("./a", ".."), ("a", "./c")] {
        let joined = join_path_bytes(dir.as_bytes(), rest.as_bytes());
        let whole = path_components(&joined);
        assert!(starts_with(&whole, &path_components(dir.as_bytes())));
    }
}

#[test]
fn text_and_bytes_normalize_alike() {
    for path in ["", "/", "a/./b/../c", "/../x//y/", "\u{fc}/./\u{1f600}/..", "..", "a/.../b"] {
        assert_eq!(normalize_root_relative(path).as_bytes(), normalize_bytes(path.as_bytes()));
    }
    assert_eq!(normalize_bytes("/\u{fc}/./b/".as_bytes()), "\u{fc}/b".as_bytes());
}
