use tourist::changes::Changes;
use tourist::changes::FileChanges;
use tourist::changes::LineChanges;
use tourist::engine::Engine;
use tourist::engine::StopMetadata;
use tourist::engine::StopView;
use tourist::engine::TourMetadata;
use tourist::engine::TourView;
use tourist::error::ErrorKind;
use tourist::index::Index as _;
use tourist::io::TourFileManager as _;
use tourist::mock::MockIndex;
use tourist::mock::MockTourFileManager;
use tourist::mock::MockVCS;
use tourist::types::Stop;
use tourist::types::StopReference;
use tourist::types::Tour;
use tourist::AbsolutePathBuf;
use tourist::RelativePathBuf;

fn test_instance() -> Engine<MockTourFileManager, MockVCS, MockIndex> {
    Engine {
        tours: Vec::new(),
        edits: Vec::new(),
        manager: MockTourFileManager::new(),
        vcs: MockVCS::new(),
        index: MockIndex::new(),
    }
}

fn basic_stop() -> Stop {
    Stop {
        id: "STOPID".to_owned(),
        title: "A stop on the tour".to_owned(),
        description: "".to_owned(),
        path: RelativePathBuf::from_string("foo/bar.txt"),
        repository: "my-repo".to_owned(),
        line: 100,
        children: vec![],
        broken: None,
    }
}

fn basic_tour(stops: Vec<Stop>, repositories: Vec<(String, String)>) -> Tour {
    Tour {
        generator: 0,
        id: "TOURID".to_owned(),
        title: "My first tour".to_owned(),
        description: "".to_owned(),
        stops,
        protocol_version: "1.0".to_owned(),
        repositories,
    }
}

#[test]
fn list_tours_test() {
    let mut tourist = test_instance();
    tourist.tours.push(basic_tour(vec![], vec![]));
    assert_eq!(
        tourist.list_tours().unwrap(),
        vec![("TOURID".to_owned(), "My first tour".to_owned())]
    );
}

#[test]
fn create_tour_test() {
    let mut tourist = test_instance();
    let id = tourist
        .create_tour("My first tour".to_owned())
        .expect("Call to create failed");
    let tour = tourist
        .tours
        .iter()
        .find(|t| t.id == id)
        .expect("Tour not found");
    assert_eq!(tour.id, id);
    assert_eq!(tour.title, "My first tour");
}

#[test]
fn open_tour_test() {
    let mut tourist = test_instance();
    tourist
        .manager
        .file_system
        .push(("some/path".to_owned(), basic_tour(vec![], vec![])));

    tourist
        .open_tour("some/path".to_owned(), false)
        .expect("Call to open failed");
    let tour = tourist
        .tours
        .iter()
        .find(|t| t.id == "TOURID")
        .expect("Tour not found");
    assert_eq!(tour.title, "My first tour");
    assert_eq!(tour.stops, vec![]);
}

#[test]
fn set_tour_edit_test() {
    let mut tourist = test_instance();
    tourist.tours.push(basic_tour(vec![], vec![]));
    tourist.set_editable("TOURID".to_owned(), true);
    assert!(tourist.edits.contains(&"TOURID".to_owned()));
    tourist.set_editable("TOURID".to_owned(), false);
    assert!(!tourist.edits.contains(&"TOURID".to_owned()));
}

#[test]
fn view_tour_test() {
    let mut tourist = test_instance();
    tourist.tours.push(basic_tour(
        vec![basic_stop()],
        vec![("my-repo".to_owned(), "COMMIT".to_owned())],
    ));
    let view = tourist.view_tour("TOURID".to_owned()).unwrap();
    assert_eq!(
        view,
        TourView {
            title: "My first tour".to_owned(),
            description: "".to_owned(),
            stops: vec![("STOPID".to_owned(), "A stop on the tour".to_owned())],
            repositories: vec![("my-repo".to_owned(), "COMMIT".to_owned())],
            edit: false,
        }
    );
    tourist.set_editable("TOURID".to_owned(), true);
    assert!(tourist.view_tour("TOURID".to_owned()).unwrap().edit);
}

#[test]
fn edit_tour_metadata_test() {
    let mut tourist = test_instance();
    tourist.tours.push(basic_tour(vec![], vec![]));
    tourist.set_editable("TOURID".to_owned(), true);

    tourist
        .edit_tour_metadata(
            "TOURID".to_owned(),
            TourMetadata {
                title: Some("New title".to_owned()),
                description: None,
            },
        )
        .unwrap();
    assert_eq!(tourist.tours[0].title, "New title");

    tourist
        .edit_tour_metadata(
            "TOURID".to_owned(),
            TourMetadata {
                title: None,
                description: Some("A description".to_owned()),
            },
        )
        .unwrap();
    assert_eq!(tourist.tours[0].title, "New title");
    assert_eq!(tourist.tours[0].description, "A description");

    tourist
        .edit_tour_metadata(
            "TOURID".to_owned(),
            TourMetadata {
                title: Some("X".to_owned()),
                description: Some("X".to_owned()),
            },
        )
        .unwrap();
    assert_eq!(tourist.tours[0].title, "X");
    assert_eq!(tourist.tours[0].description, "X");
}

#[test]
fn forget_tour_test() {
    let mut tourist = test_instance();
    tourist.tours.push(basic_tour(vec![], vec![]));
    tourist.forget_tour("TOURID".to_owned()).unwrap();
    assert!(tourist.tours.is_empty());
}

#[test]
fn create_stop_test() {
    let mut tourist = test_instance();
    tourist
        .index
        .set(
            &"my-repo".to_owned(),
            &AbsolutePathBuf::new("/foo".to_owned()).unwrap(),
        )
        .unwrap();
    tourist.tours.push(basic_tour(vec![], vec![]));
    tourist.set_editable("TOURID".to_owned(), true);
    let id = tourist
        .create_stop(
            "TOURID".to_owned(),
            "A tour stop".to_owned(),
            "/foo/bar/baz".to_owned(),
            100,
        )
        .unwrap();

    let tour = &tourist.tours[0];
    assert_eq!(tour.stops[0].id, id);
    assert_eq!(tour.stops[0].path, RelativePathBuf::from_string("bar/baz"));
    assert_eq!(
        tour.repositories
            .iter()
            .find(|p| p.0 == "my-repo")
            .map(|p| p.1.clone())
            .unwrap(),
        "COMMIT"
    );
}

#[test]
fn view_stop_test() {
    let mut tourist = test_instance();
    tourist.tours.push(basic_tour(
        vec![basic_stop()],
        vec![("my-repo".to_owned(), "COMMIT".to_owned())],
    ));
    let view = tourist
        .view_stop("TOURID".to_owned(), "STOPID".to_owned())
        .unwrap();
    assert_eq!(
        view,
        StopView {
            title: "A stop on the tour".to_owned(),
            description: "".to_owned(),
            repository: "my-repo".to_owned(),
            children: vec![],
        }
    );
}

#[test]
fn edit_stop_metadata_test() {
    let mut tourist = test_instance();
    tourist.tours.push(basic_tour(
        vec![basic_stop()],
        vec![("my-repo".to_owned(), "COMMIT".to_owned())],
    ));
    tourist.set_editable("TOURID".to_owned(), true);
    {
        tourist
            .edit_stop_metadata(
                "TOURID".to_owned(),
                "STOPID".to_owned(),
                StopMetadata {
                    title: Some("Something".to_owned()),
                    description: None,
                },
            )
            .unwrap();
        assert_eq!(tourist.tours[0].stops[0].title, "Something");
    }
    {
        tourist
            .edit_stop_metadata(
                "TOURID".to_owned(),
                "STOPID".to_owned(),
                StopMetadata {
                    title: None,
                    description: Some("Other thing".to_owned()),
                },
            )
            .unwrap();
        assert_eq!(tourist.tours[0].stops[0].title, "Something");
        assert_eq!(tourist.tours[0].stops[0].description, "Other thing");
    }
}

#[test]
fn move_stop_test() {
    let mut tourist = test_instance();
    tourist
        .index
        .set(
            &"my-repo".to_owned(),
            &AbsolutePathBuf::new("/foo".to_owned()).unwrap(),
        )
        .unwrap();
    tourist.tours.push(basic_tour(
        vec![basic_stop()],
        vec![("my-repo".to_owned(), "COMMIT".to_owned())],
    ));
    tourist.set_editable("TOURID".to_owned(), true);

    tourist
        .move_stop(
            "TOURID".to_owned(),
            "STOPID".to_owned(),
            "/foo/bar/baz.txt".to_owned(),
            500,
        )
        .unwrap();

    let tour = &tourist.tours[0];
    assert_eq!(tour.stops[0].line, 500,);
    assert_eq!(
        tour.stops[0].path,
        RelativePathBuf::from_string("bar/baz.txt")
    );
}

#[test]
fn reorder_stop_test() {
    let mut tourist = test_instance();
    let mut first = basic_stop();
    first.id = "0".to_owned();
    let mut second = basic_stop();
    second.id = "1".to_owned();
    second.title = "Another stop on the tour".to_owned();
    second.path = RelativePathBuf::from_string("foo/baz.txt");
    second.line = 200;
    let mut third = basic_stop();
    third.id = "2".to_owned();
    third.title = "A third stop on the tour".to_owned();
    third.path = RelativePathBuf::from_string("foo/qux.txt");
    third.line = 300;
    tourist.tours.push(basic_tour(
        vec![first, second, third],
        vec![("my-repo".to_owned(), "COMMIT".to_owned())],
    ));
    tourist.set_editable("TOURID".to_owned(), true);

    {
        tourist
            .reorder_stop("TOURID".to_owned(), "0".to_owned(), 1)
            .unwrap();
        let ids: Vec<&str> = tourist.tours[0].stops.iter().map(|x| x.id.as_str()).collect();
        assert_eq!(ids, vec!["1", "0", "2"]);
    }
    {
        tourist
            .reorder_stop("TOURID".to_owned(), "0".to_owned(), 5)
            .unwrap();
        let ids: Vec<&str> = tourist.tours[0].stops.iter().map(|x| x.id.as_str()).collect();
        assert_eq!(ids, vec!["1", "2", "0"]);
    }
    {
        tourist
            .reorder_stop("TOURID".to_owned(), "0".to_owned(), -1)
            .unwrap();
        let ids: Vec<&str> = tourist.tours[0].stops.iter().map(|x| x.id.as_str()).collect();
        assert_eq!(ids, vec!["1", "0", "2"]);
    }
    {
        tourist
            .reorder_stop("TOURID".to_owned(), "0".to_owned(), -100)
            .unwrap();
        let ids: Vec<&str> = tourist.tours[0].stops.iter().map(|x| x.id.as_str()).collect();
        assert_eq!(ids, vec!["0", "1", "2"]);
    }
}

#[test]
fn link_stop_test() {
    let mut tourist = test_instance();
    tourist.tours.push(basic_tour(
        vec![basic_stop()],
        vec![("my-repo".to_owned(), "COMMIT".to_owned())],
    ));
    tourist.set_editable("TOURID".to_owned(), true);
    {
        tourist
            .link_stop(
                "TOURID".to_owned(),
                "STOPID".to_owned(),
                "OTHERID".to_owned(),
                None,
            )
            .unwrap();
        let tour = &tourist.tours[0];
        assert_eq!(tour.stops[0].children[0].tour_id, "OTHERID");
        assert_eq!(tour.stops[0].children[0].stop_id, None);
    }
    {
        tourist
            .link_stop(
                "TOURID".to_owned(),
                "STOPID".to_owned(),
                "SECONDID".to_owned(),
                Some("SECONDSTOPID".to_owned()),
            )
            .unwrap();
        let tour = &tourist.tours[0];
        assert_eq!(tour.stops[0].children[1].tour_id, "SECONDID");
        assert_eq!(
            tour.stops[0].children[1].stop_id,
            Some("SECONDSTOPID".to_owned())
        );
    }
}

#[test]
fn unlink_stop_test() {
    let mut tourist = test_instance();
    let mut stop = basic_stop();
    stop.children = vec![
        StopReference {
            tour_id: "OTHERID".to_owned(),
            stop_id: None,
        },
        StopReference {
            tour_id: "SECONDID".to_owned(),
            stop_id: Some("SECONDSTOPID".to_owned()),
        },
    ];
    tourist.tours.push(basic_tour(
        vec![stop],
        vec![("my-repo".to_owned(), "COMMIT".to_owned())],
    ));
    tourist.set_editable("TOURID".to_owned(), true);
    {
        tourist
            .unlink_stop(
                "TOURID".to_owned(),
                "STOPID".to_owned(),
                "OTHERID".to_owned(),
                None,
            )
            .unwrap();
        assert_eq!(tourist.tours[0].stops[0].children.len(), 1);
    }
    {
        tourist
            .unlink_stop(
                "TOURID".to_owned(),
                "STOPID".to_owned(),
                "SECONDID".to_owned(),
                Some("SECONDSTOPID".to_owned()),
            )
            .unwrap();
        assert_eq!(tourist.tours[0].stops[0].children.len(), 0);
    }
}

#[test]
fn locate_stop_test() {
    let mut tourist = test_instance();
    tourist
        .index
        .set(
            &"my-repo".to_owned(),
            &AbsolutePathBuf::new("/foo".to_owned()).unwrap(),
        )
        .unwrap();
    let mut stop = basic_stop();
    stop.path = RelativePathBuf::from_string("bar/baz.txt");
    tourist.tours.push(basic_tour(
        vec![stop],
        vec![("my-repo".to_owned(), "COMMIT".to_owned())],
    ));
    let (path, line) = tourist
        .locate_stop("TOURID".to_owned(), "STOPID".to_owned(), true)
        .unwrap()
        .unwrap();
    assert_eq!(path, AbsolutePathBuf::new("/foo/bar/baz.txt".to_owned()).unwrap());
    assert_eq!(line, 100);

    let changes = Changes(vec![(
        RelativePathBuf::from_string("bar/baz.txt"),
        FileChanges::Changed {
            line_changes: LineChanges {
                changes: vec![(100, 105)],
                deletions: vec![],
                additions: vec![],
            },
        },
    )]);
    tourist.vcs.last_changes = Some(changes);
    let (path, line) = tourist
        .locate_stop("TOURID".to_owned(), "STOPID".to_owned(), false)
        .unwrap()
        .unwrap();
    assert_eq!(path, AbsolutePathBuf::new("/foo/bar/baz.txt".to_owned()).unwrap());
    assert_eq!(line, 105);
}

#[test]
fn remove_stop_test() {
    let mut tourist = test_instance();
    tourist.tours.push(basic_tour(
        vec![basic_stop()],
        vec![("my-repo".to_owned(), "COMMIT".to_owned())],
    ));
    tourist.set_editable("TOURID".to_owned(), true);
    tourist
        .remove_stop("TOURID".to_owned(), "STOPID".to_owned())
        .unwrap();
    assert_eq!(tourist.tours[0].stops.len(), 0);
}

#[test]
fn refresh_tour_test() {
    let mut tourist = test_instance();
    tourist
        .index
        .set(
            &"my-repo".to_owned(),
            &AbsolutePathBuf::new("/foo".to_owned()).unwrap(),
        )
        .unwrap();
    tourist.tours.push(basic_tour(
        vec![basic_stop()],
        vec![("my-repo".to_owned(), "OLD_COMMIT".to_owned())],
    ));
    tourist.set_editable("TOURID".to_owned(), true);

    let changes = Changes(vec![(
        RelativePathBuf::from_string("foo/bar.txt"),
        FileChanges::Changed {
            line_changes: LineChanges {
                changes: vec![(100, 105)],
                deletions: vec![],
                additions: vec![],
            },
        },
    )]);
    tourist.vcs.last_changes = Some(changes);

    tourist
        .refresh_tour("TOURID".to_owned(), Some("NEW_COMMIT".to_owned()))
        .unwrap();

    let tour = &tourist.tours[0];
    assert_eq!(tour.stops[0].line, 105);
    assert_eq!(
        tour.repositories
            .iter()
            .find(|p| p.0 == "my-repo")
            .map(|p| p.1.clone())
            .unwrap(),
        "NEW_COMMIT"
    );
}

#[test]
fn save_tour_test() {
    let mut tourist = test_instance();
    tourist.tours.push(basic_tour(
        vec![basic_stop()],
        vec![("my-repo".to_owned(), "OLD_COMMIT".to_owned())],
    ));
    tourist.set_editable("TOURID".to_owned(), true);

    tourist
        .save_tour("TOURID".to_owned(), Some("/foo/bar".to_owned()))
        .unwrap();

    let saved = tourist
        .manager
        .file_system
        .iter()
        .find(|e| e.0 == "/foo/bar")
        .expect("tour was not written");
    assert_eq!(saved.1.id, "TOURID");
}

#[test]
fn save_all_test() {
    let mut tourist = test_instance();
    tourist.tours.push(basic_tour(
        vec![basic_stop()],
        vec![("my-repo".to_owned(), "OLD_COMMIT".to_owned())],
    ));
    tourist
        .manager
        .set_tour_path("TOURID".to_owned(), "/foo/bar".to_owned());

    tourist.save_all().unwrap();

    let saved = tourist
        .manager
        .file_system
        .iter()
        .find(|e| e.0 == "/foo/bar")
        .expect("tour was not written");
    assert_eq!(saved.1.id, "TOURID");
}

#[test]
fn delete_tour_test() {
    let mut tourist = test_instance();
    tourist.tours.push(basic_tour(
        vec![basic_stop()],
        vec![("my-repo".to_owned(), "OLD_COMMIT".to_owned())],
    ));
    tourist.set_editable("TOURID".to_owned(), true);

    tourist
        .save_tour("TOURID".to_owned(), Some("/foo/bar".to_owned()))
        .unwrap();
    tourist.delete_tour("TOURID".to_owned()).unwrap();

    assert!(tourist
        .manager
        .file_system
        .iter()
        .find(|e| e.0 == "/foo/bar")
        .is_none());
}

#[test]
fn index_repository_test() {
    let mut tourist = test_instance();
    tourist
        .index_repository("my-repo".to_owned(), Some("/foo/bar".to_owned()))
        .unwrap();
    assert_eq!(
        tourist.index.get(&"my-repo".to_owned()).unwrap().unwrap(),
        AbsolutePathBuf::new("/foo/bar".to_owned()).unwrap()
    );
}

#[test]
fn not_editable_is_rejected() {
    let mut tourist = test_instance();
    tourist.tours.push(basic_tour(vec![basic_stop()], vec![]));
    let r = tourist.edit_tour_metadata(
        "TOURID".to_owned(),
        TourMetadata {
            title: Some("New".to_owned()),
            description: None,
        },
    );
    assert_eq!(r.unwrap_err(), ErrorKind::TourNotEditable);
    assert_eq!(tourist.tours[0].title, "My first tour");
}
