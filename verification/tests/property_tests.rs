use tourist::changes::Changes;
use tourist::changes::FileChanges;
use tourist::changes::LineChanges;
use tourist::engine::Engine;
use tourist::engine::StopReferenceView;
use tourist::error::error_code;
use tourist::error::ErrorKind;
use tourist::index::Index as _;
use tourist::mock::MockIndex;
use tourist::mock::MockTourFileManager;
use tourist::mock::MockVCS;
use tourist::types::Stop;
use tourist::types::StopReference;
use tourist::types::Tour;
use tourist::vcs::VCS as _;
use tourist::AbsolutePathBuf;
use tourist::RelativePathBuf;

fn test_instance() -> Engine<MockTourFileManager, MockVCS, MockIndex> {
    Engine {
        tours: Vec::new(),
        edits: Vec::new(),
        manager: MockTourFileManager::new(),
        vcs: MockVCS::new(),
        index: MockIndex::new(),
    }
}

fn pinned_tour(commit: &str) -> Tour {
    Tour {
        generator: 0,
        id: "TOURID".to_owned(),
        title: "My first tour".to_owned(),
        description: "".to_owned(),
        stops: vec![Stop {
            id: "STOPID".to_owned(),
            title: "A stop on the tour".to_owned(),
            description: "".to_owned(),
            path: RelativePathBuf::from_string("foo/bar.txt"),
            repository: "my-repo".to_owned(),
            line: 100,
            children: vec![],
            broken: None,
        }],
        protocol_version: "1.0".to_owned(),
        repositories: vec![("my-repo".to_owned(), commit.to_owned())],
    }
}

// A diff that explicitly pairs line 100 with line 105 moves the stop there,
// leaves it unbroken, and the pin follows the target commit.
#[test]
fn refresh_follows_a_moved_line() {
    let mut tourist = test_instance();
    tourist
        .index
        .set(
            &"my-repo".to_owned(),
            &AbsolutePathBuf::new("/foo".to_owned()).unwrap(),
        )
        .unwrap();
    tourist.tours.push(pinned_tour("A"));
    tourist.set_editable("TOURID".to_owned(), true);
    tourist.vcs.last_changes = Some(Changes(vec![(
        RelativePathBuf::from_string("foo/bar.txt"),
        FileChanges::Changed {
            line_changes: LineChanges {
                changes: vec![(100, 105)],
                additions: vec![],
                deletions: vec![],
            },
        },
    )]));

    tourist
        .refresh_tour("TOURID".to_owned(), Some("B".to_owned()))
        .unwrap();

    let tour = &tourist.tours[0];
    assert_eq!(tour.stops[0].line, 105);
    assert_eq!(tour.stops[0].broken, None);
    assert_eq!(tour.repositories, vec![("my-repo".to_owned(), "B".to_owned())]);
}

// A diff that deletes line 100 marks the stop broken, leaves the stored line
// for inspection, and still pins the target commit.
#[test]
fn refresh_breaks_a_deleted_line() {
    let mut tourist = test_instance();
    tourist
        .index
        .set(
            &"my-repo".to_owned(),
            &AbsolutePathBuf::new("/foo".to_owned()).unwrap(),
        )
        .unwrap();
    tourist.tours.push(pinned_tour("A"));
    tourist.set_editable("TOURID".to_owned(), true);
    tourist.vcs.last_changes = Some(Changes(vec![(
        RelativePathBuf::from_string("foo/bar.txt"),
        FileChanges::Changed {
            line_changes: LineChanges {
                changes: vec![],
                additions: vec![],
                deletions: vec![100],
            },
        },
    )]));

    tourist
        .refresh_tour("TOURID".to_owned(), Some("B".to_owned()))
        .unwrap();

    let tour = &tourist.tours[0];
    assert_eq!(tour.stops[0].broken, Some("line was deleted".to_owned()));
    assert_eq!(tour.stops[0].line, 100);
    assert_eq!(tour.repositories, vec![("my-repo".to_owned(), "B".to_owned())]);
}

// Moving a stop to a path outside every indexed repository fails and leaves
// the tour untouched.
#[test]
fn move_outside_indexed_roots_changes_nothing() {
    let mut tourist = test_instance();
    tourist
        .index
        .set(
            &"my-repo".to_owned(),
            &AbsolutePathBuf::new("/foo".to_owned()).unwrap(),
        )
        .unwrap();
    tourist.tours.push(pinned_tour("COMMIT"));
    tourist.set_editable("TOURID".to_owned(), true);
    let before = tourist.tours[0].clone();

    let r = tourist.move_stop(
        "TOURID".to_owned(),
        "STOPID".to_owned(),
        "/elsewhere/bar.txt".to_owned(),
        500,
    );

    assert_eq!(r.unwrap_err(), ErrorKind::NoRepositoryForFile);
    assert_eq!(tourist.tours[0], before);
}

// Refreshing a tour to its own pinned commit (the mock replays an empty
// change set) leaves every stop's line and broken state unchanged.
#[test]
fn refresh_to_same_pin_is_stable() {
    let mut tourist = test_instance();
    tourist
        .index
        .set(
            &"my-repo".to_owned(),
            &AbsolutePathBuf::new("/foo".to_owned()).unwrap(),
        )
        .unwrap();
    tourist.tours.push(pinned_tour("COMMIT"));
    tourist.set_editable("TOURID".to_owned(), true);
    let before = tourist.tours[0].stops[0].clone();

    tourist
        .refresh_tour("TOURID".to_owned(), Some("COMMIT".to_owned()))
        .unwrap();

    assert_eq!(tourist.tours[0].stops[0], before);
}

// After creating and removing stops, every pinned repository is referenced
// by some stop, and every stop's repository is pinned.
#[test]
fn create_and_remove_keep_pins_consistent() {
    let mut tourist = test_instance();
    tourist
        .index
        .set(
            &"repo-a".to_owned(),
            &AbsolutePathBuf::new("/a".to_owned()).unwrap(),
        )
        .unwrap();
    tourist
        .index
        .set(
            &"repo-b".to_owned(),
            &AbsolutePathBuf::new("/b".to_owned()).unwrap(),
        )
        .unwrap();
    let mut tour = pinned_tour("COMMIT");
    tour.stops = vec![];
    tour.repositories = vec![];
    tourist.tours.push(tour);
    tourist.set_editable("TOURID".to_owned(), true);

    let first = tourist
        .create_stop(
            "TOURID".to_owned(),
            "First".to_owned(),
            "/a/one.txt".to_owned(),
            1,
        )
        .unwrap();
    let _second = tourist
        .create_stop(
            "TOURID".to_owned(),
            "Second".to_owned(),
            "/b/two.txt".to_owned(),
            2,
        )
        .unwrap();
    {
        let tour = &tourist.tours[0];
        for stop in &tour.stops {
            assert!(tour.repositories.iter().any(|p| p.0 == stop.repository));
        }
        for pin in &tour.repositories {
            assert!(tour.stops.iter().any(|s| s.repository == pin.0));
        }
    }

    tourist.remove_stop("TOURID".to_owned(), first).unwrap();
    {
        let tour = &tourist.tours[0];
        assert_eq!(tour.stops.len(), 1);
        assert_eq!(
            tour.repositories,
            vec![("repo-b".to_owned(), "COMMIT".to_owned())]
        );
        for stop in &tour.stops {
            assert!(tour.repositories.iter().any(|p| p.0 == stop.repository));
        }
    }
}

// A stale pin blocks anchor creation: the tour must be up to date first.
#[test]
fn create_stop_requires_up_to_date_tour() {
    let mut tourist = test_instance();
    tourist
        .index
        .set(
            &"my-repo".to_owned(),
            &AbsolutePathBuf::new("/foo".to_owned()).unwrap(),
        )
        .unwrap();
    tourist.tours.push(pinned_tour("STALE"));
    tourist.set_editable("TOURID".to_owned(), true);
    let r = tourist.create_stop(
        "TOURID".to_owned(),
        "A tour stop".to_owned(),
        "/foo/bar".to_owned(),
        1,
    );
    assert_eq!(r.unwrap_err(), ErrorKind::TourNotUpToDate);
}

#[test]
fn missing_tour_is_reported() {
    let tourist = test_instance();
    assert_eq!(
        tourist.view_tour("NOPE".to_owned()).unwrap_err(),
        ErrorKind::NoTourWithID
    );
}

#[test]
fn missing_stop_is_reported() {
    let mut tourist = test_instance();
    tourist.tours.push(pinned_tour("COMMIT"));
    tourist.set_editable("TOURID".to_owned(), true);
    assert_eq!(
        tourist
            .remove_stop("TOURID".to_owned(), "NOPE".to_owned())
            .unwrap_err(),
        ErrorKind::NoStopWithID
    );
}

#[test]
fn relative_paths_must_be_absolute_to_index() {
    let mut tourist = test_instance();
    assert_eq!(
        tourist
            .index_repository("my-repo".to_owned(), Some("not/absolute".to_owned()))
            .unwrap_err(),
        ErrorKind::ExpectedAbsolutePath
    );
}

#[test]
fn unregistered_repository_is_reported() {
    let mut tourist = test_instance();
    tourist.tours.push(pinned_tour("COMMIT"));
    tourist.set_editable("TOURID".to_owned(), true);
    assert_eq!(
        tourist
            .refresh_tour("TOURID".to_owned(), None)
            .unwrap_err(),
        ErrorKind::RepositoryNotInIndex
    );
}

#[test]
fn locate_needs_a_pin() {
    let mut tourist = test_instance();
    tourist
        .index
        .set(
            &"my-repo".to_owned(),
            &AbsolutePathBuf::new("/foo".to_owned()).unwrap(),
        )
        .unwrap();
    let mut tour = pinned_tour("COMMIT");
    tour.repositories = vec![];
    tourist.tours.push(tour);
    assert_eq!(
        tourist
            .locate_stop("TOURID".to_owned(), "STOPID".to_owned(), false)
            .unwrap_err(),
        ErrorKind::NoVersionForRepository
    );
}

#[test]
fn broken_stop_has_no_location() {
    let mut tourist = test_instance();
    tourist
        .index
        .set(
            &"my-repo".to_owned(),
            &AbsolutePathBuf::new("/foo".to_owned()).unwrap(),
        )
        .unwrap();
    let mut tour = pinned_tour("COMMIT");
    tour.stops[0].broken = Some("line was deleted".to_owned());
    tourist.tours.push(tour);
    assert_eq!(
        tourist
            .locate_stop("TOURID".to_owned(), "STOPID".to_owned(), true)
            .unwrap(),
        None
    );
}

// The file contents handed out by the backend are decoded, not passed
// through: valid UTF-8 comes back as text, anything else is refused.
#[test]
fn file_contents_are_utf8_decoded() {
    let mut vcs = MockVCS::new();
    vcs.file_bytes = Some(vec![104, 101, 108, 108, 111]);
    let root = AbsolutePathBuf::new("/foo".to_owned()).unwrap();
    let contents = vcs
        .lookup_file_contents(
            &root,
            &"COMMIT".to_owned(),
            &RelativePathBuf::from_string("a.txt"),
        )
        .unwrap();
    assert_eq!(contents, "hello");

    vcs.file_bytes = Some(vec![0xff, 0xfe]);
    assert_eq!(
        vcs.lookup_file_contents(
            &root,
            &"COMMIT".to_owned(),
            &RelativePathBuf::from_string("a.txt"),
        )
        .unwrap_err(),
        ErrorKind::EncodingFailure
    );
}

#[test]
fn error_codes_are_stable() {
    assert_eq!(error_code(&ErrorKind::NoRepositoryForFile), 300);
    assert_eq!(error_code(&ErrorKind::TourNotEditable), 310);
    assert_eq!(error_code(&ErrorKind::NoTourWithID), 400);
    assert_eq!(error_code(&ErrorKind::NoStopWithID), 401);
    assert_eq!(error_code(&ErrorKind::FailedToReadTour), 500);
    assert_eq!(error_code(&ErrorKind::EncodingFailure), 600);
    assert_eq!(error_code(&ErrorKind::DiffFailed), 603);
}

// An addition landing exactly on the shifted position pushes the anchor
// down: the inclusive comparison is load-bearing.
#[test]
fn addition_at_the_anchor_pushes_it_down() {
    let changes = FileChanges::Changed {
        line_changes: LineChanges {
            changes: vec![],
            additions: vec![3],
            deletions: vec![],
        },
    };
    assert_eq!(changes.adjust_line(2), Some(2));
    assert_eq!(changes.adjust_line(3), Some(4));
    assert_eq!(changes.adjust_line(4), Some(5));
}

// Consecutive additions chain: each insertion at or before the running
// position pushes the anchor one further.
#[test]
fn consecutive_additions_chain() {
    let changes = FileChanges::Changed {
        line_changes: LineChanges {
            changes: vec![],
            additions: vec![1, 2, 3, 10],
            deletions: vec![],
        },
    };
    assert_eq!(changes.adjust_line(1), Some(4));
    assert_eq!(changes.adjust_line(50), Some(54));
}

// Reference resolution is session-relative: a link into an open tour carries
// titles, a link into a tour that is not open carries only the identifiers,
// and a link to a missing stop of an open tour is an error.
#[test]
fn references_resolve_against_open_tours() {
    let mut tourist = test_instance();
    let mut tour = pinned_tour("COMMIT");
    tour.stops[0].children = vec![
        StopReference {
            tour_id: "SECOND".to_owned(),
            stop_id: Some("TARGET".to_owned()),
        },
        StopReference {
            tour_id: "CLOSED".to_owned(),
            stop_id: None,
        },
    ];
    tourist.tours.push(tour);

    let mut second = pinned_tour("COMMIT");
    second.id = "SECOND".to_owned();
    second.title = "Second tour".to_owned();
    second.stops[0].id = "TARGET".to_owned();
    second.stops[0].title = "Target stop".to_owned();
    tourist.tours.push(second);

    let view = tourist
        .view_stop("TOURID".to_owned(), "STOPID".to_owned())
        .unwrap();
    assert_eq!(
        view.children[0],
        StopReferenceView::Resolved {
            tour_id: "SECOND".to_owned(),
            tour_title: "Second tour".to_owned(),
            stop_id: Some("TARGET".to_owned()),
            stop_title: Some("Target stop".to_owned()),
        }
    );
    assert_eq!(
        view.children[1],
        StopReferenceView::Unresolved {
            tour_id: "CLOSED".to_owned(),
            stop_id: None,
        }
    );

    // a dangling stop id in an open tour is an error
    tourist.tours[0].stops[0].children[0].stop_id = Some("NOPE".to_owned());
    assert_eq!(
        tourist
            .view_stop("TOURID".to_owned(), "STOPID".to_owned())
            .unwrap_err(),
        ErrorKind::NoStopWithID
    );
}

// A reorder by zero places exchanges the stop with itself and changes
// nothing.
#[test]
fn reorder_by_zero_is_a_no_op() {
    let mut tourist = test_instance();
    tourist.tours.push(pinned_tour("COMMIT"));
    tourist.set_editable("TOURID".to_owned(), true);
    let before = tourist.tours[0].clone();
    tourist
        .reorder_stop("TOURID".to_owned(), "STOPID".to_owned(), 0)
        .unwrap();
    assert_eq!(tourist.tours[0], before);
}

// A tour that pins no repositories consults nothing and refreshes trivially.
#[test]
fn refresh_with_no_pins_succeeds() {
    let mut tourist = test_instance();
    let mut tour = pinned_tour("COMMIT");
    tour.repositories = vec![];
    tourist.tours.push(tour);
    tourist.set_editable("TOURID".to_owned(), true);
    let before = tourist.tours[0].clone();
    tourist.refresh_tour("TOURID".to_owned(), None).unwrap();
    assert_eq!(tourist.tours[0], before);
}

// A reorder of a stop that does not exist names the stop, not the tour.
#[test]
fn reorder_missing_stop_is_reported() {
    let mut tourist = test_instance();
    tourist.tours.push(pinned_tour("COMMIT"));
    tourist.set_editable("TOURID".to_owned(), true);
    assert_eq!(
        tourist
            .reorder_stop("TOURID".to_owned(), "NOPE".to_owned(), 1)
            .unwrap_err(),
        ErrorKind::NoStopWithID
    );
}
