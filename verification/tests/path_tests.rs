use tourist::AbsolutePathBuf;
use tourist::RelativePathBuf;

fn home() -> String {
    let h = dirs::home_dir().expect("no home dir");
    h.to_str().expect("home dir not unicode").to_owned()
}

#[test]
fn create_abs_path() {
    let abs = format!("{}/some/path", home());
    let not_abs = "some/path".to_owned();
    assert!(AbsolutePathBuf::new(abs).is_some());
    assert!(AbsolutePathBuf::new(not_abs).is_none());
}

#[test]
fn simple_try_relative() {
    // Relativize $HOME/some/path/and/more from $HOME/some/path, expect and/more
    let root = AbsolutePathBuf::new(format!("{}/some/path", home())).expect("path not absolute");
    let path = AbsolutePathBuf::new(format!("{}/some/path/and/more", home()))
        .expect("path not absolute");
    assert_eq!(
        Some(RelativePathBuf::from_components(vec![
            "and".to_owned(),
            "more".to_owned()
        ])),
        path.try_relative(&root),
    );
}

#[test]
fn unrelated_try_relative() {
    // Relativize a path under a different root from $HOME/some/path, expect <none>
    let root = AbsolutePathBuf::new(format!("{}/some/path", home())).expect("path not absolute");
    let path =
        AbsolutePathBuf::new("/downloads/other/thing".to_owned()).expect("path not absolute");
    assert!(path.try_relative(&root).is_none());
}

#[test]
fn same_root_unrelated_try_relative() {
    // Relativize $HOME/some/path/foo from $HOME/some/path/bar, expect <none>
    let root =
        AbsolutePathBuf::new(format!("{}/some/path/foo", home())).expect("path not absolute");
    let path =
        AbsolutePathBuf::new(format!("{}/some/path/bar", home())).expect("path not absolute");
    assert!(path.try_relative(&root).is_none());
}

#[test]
fn empty_try_relative() {
    // Relativize $HOME/some/path from $HOME/some/path, expect <empty>
    let root = AbsolutePathBuf::new(format!("{}/some/path", home())).expect("path not absolute");
    let path = AbsolutePathBuf::new(format!("{}/some/path", home())).expect("path not absolute");
    assert_eq!(
        Some(RelativePathBuf::from_components(vec![])),
        path.try_relative(&root),
    );
}

#[test]
fn file_try_relative() {
    // Relativize $HOME/some/path/foo.txt from $HOME/some/path, expect foo.txt
    let root = AbsolutePathBuf::new(format!("{}/some/path", home())).expect("path not absolute");
    let path = AbsolutePathBuf::new(format!("{}/some/path/foo.txt", home()))
        .expect("path not absolute");
    assert_eq!(
        Some(RelativePathBuf::from_components(vec!["foo.txt".to_owned()])),
        path.try_relative(&root),
    );
}

#[test]
fn from_components_works() {
    let path = RelativePathBuf::from_components(vec!["some".to_owned(), "dir".to_owned()]);
    assert_eq!(path.components().len(), 2);
    assert_eq!(path.components()[0], "some");
    assert_eq!(path.components()[1], "dir");
}

#[test]
fn from_str_works() {
    {
        let path = RelativePathBuf::from_string("some/dir");
        assert_eq!(path.components().len(), 2);
        assert_eq!(path.components()[0], "some");
        assert_eq!(path.components()[1], "dir");
    }

    {
        let path = RelativePathBuf::from_string("some");
        assert_eq!(path.components().len(), 1);
        assert_eq!(path.components()[0], "some");
    }

    {
        let path = RelativePathBuf::from_string("");
        assert_eq!(path.components().len(), 0);
    }

    {
        let path = RelativePathBuf::from_string("/some//dir/");
        assert_eq!(path.components().len(), 2);
        assert_eq!(path.components()[0], "some");
        assert_eq!(path.components()[1], "dir");
    }
}

#[test]
fn join_and_render() {
    let root = AbsolutePathBuf::new("/foo".to_owned()).unwrap();
    let rel = RelativePathBuf::from_string("bar/baz.txt");
    let joined = root.join_rel(&rel);
    assert_eq!(joined.as_string(), "/foo/bar/baz.txt");
    assert_eq!(rel.as_git_path(), "bar/baz.txt");
}
