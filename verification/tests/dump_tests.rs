use tourist::dump::code_range;
use tourist::dump::usize_to_string;
use tourist::dump::Dump;
use tourist::mock::MockIndex;
use tourist::mock::MockVCS;
use tourist::types::Stop;
use tourist::types::Tour;
use tourist::RelativePathBuf;

#[test]
fn extract_context_works() {
    assert_eq!(
        "    1\n -> 2\n    3".to_owned(),
        code_range("1\n2\n3".to_owned(), 2, 1, 1)
    );

    assert_eq!(" -> 2".to_owned(), code_range("1\n2\n3".to_owned(), 2, 0, 0));

    assert_eq!(
        "    1\n -> 2\n    3".to_owned(),
        code_range("1\n2\n3".to_owned(), 2, 10, 6)
    );
}

#[test]
fn numbers_render_in_decimal() {
    assert_eq!(usize_to_string(0), "0");
    assert_eq!(usize_to_string(7), "7");
    assert_eq!(usize_to_string(105), "105");
    assert_eq!(usize_to_string(98020), "98020");
}

#[test]
fn dump_renders_markdown() {
    let tour = Tour {
        generator: 0,
        id: "TOURID".to_owned(),
        title: "My first tour".to_owned(),
        description: "About things".to_owned(),
        stops: vec![Stop {
            id: "STOPID".to_owned(),
            title: "A stop on the tour".to_owned(),
            description: "Look here".to_owned(),
            path: RelativePathBuf::from_string("foo/bar.txt"),
            repository: "my-repo".to_owned(),
            line: 100,
            children: vec![],
            broken: None,
        }],
        protocol_version: "1.0".to_owned(),
        repositories: vec![("my-repo".to_owned(), "COMMIT".to_owned())],
    };
    let dump: Dump<MockVCS, MockIndex> = Dump::new();
    let md = dump.process(&tour).unwrap();
    assert_eq!(
        md,
        "# My first tour\n\nAbout things\n\n# Stops\n\n\
         ## A stop on the tour\n*my-repo:foo/bar.txt - line 100*\n\nLook here\
         \n\n# Repositories\n\nmy-repo is on commit COMMIT"
    );
}

#[test]
fn dump_needs_a_pin_for_every_stop() {
    let tour = Tour {
        generator: 0,
        id: "TOURID".to_owned(),
        title: "My first tour".to_owned(),
        description: "".to_owned(),
        stops: vec![Stop {
            id: "STOPID".to_owned(),
            title: "A stop on the tour".to_owned(),
            description: "".to_owned(),
            path: RelativePathBuf::from_string("foo/bar.txt"),
            repository: "my-repo".to_owned(),
            line: 100,
            children: vec![],
            broken: None,
        }],
        protocol_version: "1.0".to_owned(),
        repositories: vec![],
    };
    let dump: Dump<MockVCS, MockIndex> = Dump::new();
    assert_eq!(
        dump.process(&tour).unwrap_err(),
        tourist::error::ErrorKind::NoVersionForRepository
    );
}
