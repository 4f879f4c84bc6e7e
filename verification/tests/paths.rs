use std::path::Path;

use sweepy::paths::{file_name, join_path};

#[test]
fn joins_as_path_join_does() {
    assert_eq!(join_path(b"/home/u/proj", b"target"), b"/home/u/proj/target");
    assert_eq!(join_path(b"/home/u/proj/", b"target"), b"/home/u/proj/target");
    assert_eq!(join_path(b"", b"target"), b"target");
    assert_eq!(join_path(b"proj", b"/abs"), b"/abs");
    assert_eq!(join_path(b"caf\xe9", b"target"), b"caf\xe9/target");
    for (b, n) in [("a", "b"), ("a/", "b"), ("", "b"), ("a", "/b"), ("/", "x"), ("a", "")] {
        let expected = Path::new(b).join(n);
        assert_eq!(
            join_path(b.as_bytes(), n.as_bytes()),
            expected.to_str().unwrap().as_bytes(),
            "{b:?} {n:?}"
        );
    }
}

#[test]
fn takes_the_final_component_as_file_name_does() {
    assert_eq!(file_name(b"/home/u/proj").as_deref(), Some(&b"proj"[..]));
    assert_eq!(file_name(b"/home/u/proj/").as_deref(), Some(&b"proj"[..]));
    assert_eq!(file_name(b"proj/.").as_deref(), Some(&b"proj"[..]));
    assert_eq!(file_name(b"/w/\xff\xfe").as_deref(), Some(&b"\xff\xfe"[..]));
    assert_eq!(file_name(b"/"), None);
    assert_eq!(file_name(b""), None);
    assert_eq!(file_name(b"."), None);
    assert_eq!(file_name(b"a/.."), None);
    for p in ["a/b", "./a", "a//b//", "../x", "..", "./.", "/a/./b/.", "x/../y"] {
        let expected = Path::new(p)
            .file_name()
            .map(|s| s.to_str().unwrap().as_bytes().to_vec());
        assert_eq!(file_name(p.as_bytes()), expected, "{p:?}");
    }
}
