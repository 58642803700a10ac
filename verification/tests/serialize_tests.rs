use tourist::types::Stop;
use tourist::types::StopReference;
use tourist::types::Tour;
use tourist::version1::TourFile;
use tourist::version1::PROTOCOL_VERSION;
use tourist::RelativePathBuf;

#[test]
fn latest_is_correct() {
    assert_eq!(PROTOCOL_VERSION, "1.0");
}

fn sample_tour() -> Tour {
    Tour {
        generator: 0,
        id: "TOURID".to_owned(),
        title: "My first tour".to_owned(),
        description: "All about the things".to_owned(),
        stops: vec![Stop {
            id: "STOPID".to_owned(),
            title: "A stop on the tour".to_owned(),
            description: "Stop here".to_owned(),
            path: RelativePathBuf::from_string("foo/bar.txt"),
            repository: "my-repo".to_owned(),
            line: 100,
            children: vec![StopReference {
                tour_id: "OTHERID".to_owned(),
                stop_id: None,
            }],
            broken: None,
        }],
        protocol_version: "1.0".to_owned(),
        repositories: vec![("my-repo".to_owned(), "COMMIT".to_owned())],
    }
}

#[test]
fn tour_file_round_trip() {
    let tour = sample_tour();
    let back = TourFile::from_tour(tour.clone()).into_tour();
    assert_eq!(back, tour);
}

#[test]
fn tour_file_fields() {
    let file = TourFile::from_tour(sample_tour());
    assert_eq!(file.protocol_version, "1.0");
    assert_eq!(file.generator, Some(0));
    assert_eq!(file.stops[0].rel_path, "foo/bar.txt");
    assert_eq!(file.stops[0].body, "Stop here");
    assert_eq!(file.stops[0].child_stops[0].tour_id, "OTHERID");
    assert_eq!(file.stops[0].child_stops[0].stop_num, 0);
    assert_eq!(file.repositories[0].repository, "my-repo");
    assert_eq!(file.repositories[0].commit, "COMMIT");
}

#[test]
fn backslash_paths_are_accepted() {
    let mut file = TourFile::from_tour(sample_tour());
    file.stops[0].rel_path = "foo\\bar.txt".to_owned();
    let tour = file.into_tour();
    assert_eq!(tour.stops[0].path, RelativePathBuf::from_string("foo/bar.txt"));
}
