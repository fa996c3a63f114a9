use exif_dates_fixer::collection::{ends_with_jpg, get_paths, Collection, PhotoSource};
use exif_dates_fixer::date::Date;
use exif_dates_fixer::file_infos::{DateInfo, FileInfo};
use exif_dates_fixer::tags::Metadata;

fn md(tags: &[(&str, &str)]) -> Metadata {
    let owned: Vec<(String, String)> = tags
        .iter()
        .map(|(k, v)| (k.to_string(), v.to_string()))
        .collect();
    Metadata::from_tags(owned)
}

fn paths(ps: &[&str]) -> Vec<String> {
    ps.iter().map(|p| p.to_string()).collect()
}

#[test]
fn test_get_paths() {
    let listing = paths(&[
        "tests-assets/photos1/photo_2017_02_22_a.jpg",
        "tests-assets/photos1/photo_2018_03_23_a.jpg",
        "tests-assets/photos1/photo_2018_03_24_a.jpg",
        "tests-assets/photos1/photo_without_date.jpg",
    ]);
    let sorted = get_paths(&listing);
    assert_eq!(sorted.len(), 4);
    assert_eq!(sorted[0], "tests-assets/photos1/photo_without_date.jpg");
}

#[test]
fn test_get_paths_empty() {
    let listing = paths(&[]);
    let sorted = get_paths(&listing);
    assert_eq!(sorted.len(), 0);
}

#[test]
fn test_get_paths_extra_files() {
    let listing = paths(&[
        "tests-assets/extra-files/one.jpg",
        "tests-assets/extra-files/notes.txt",
        "tests-assets/extra-files/two.jpg",
        "tests-assets/extra-files/image.png",
    ]);
    let sorted = get_paths(&listing);
    assert_eq!(sorted.len(), 2);
}

#[test]
fn test_get_paths_nested_folders() {
    let listing = paths(&[
        "tests-assets/photos-nested/sub1/a.jpg",
        "tests-assets/photos-nested/sub2/b.jpg",
        "tests-assets/photos-nested/sub2/readme.md",
    ]);
    let sorted = get_paths(&listing);
    assert_eq!(sorted.len(), 2);
}

#[test]
fn test_only_non_matching_files_scan_empty() {
    let listing = paths(&[
        "tests-assets/other/a.txt",
        "tests-assets/other/b.JPG",
        "tests-assets/other/c.jpeg",
    ]);
    let sorted = get_paths(&listing);
    assert_eq!(sorted.len(), 0);
}

#[test]
fn test_ends_with_jpg_is_case_sensitive() {
    assert!(ends_with_jpg("photo.jpg"));
    assert!(!ends_with_jpg("photo.JPG"));
    assert!(!ends_with_jpg("photo.jpeg"));
    assert!(!ends_with_jpg("jpg"));
}

#[test]
fn test_path_to_fileinfo() {
    let metadata = md(&[("Exif.Photo.DateTimeOriginal", "2017:02:22 00:00:00")]);
    let fileinfo = FileInfo::new_from_path(
        "tests-assets/photos1/photo_2017_02_22_a.jpg",
        Some(&metadata),
    );
    assert_eq!(fileinfo.path, "tests-assets/photos1/photo_2017_02_22_a.jpg");
    assert_eq!(fileinfo.date, Date::from_ymd(2017, 2, 22));
}

#[test]
fn test_get_fileinfos() {
    let sources = vec![
        PhotoSource {
            path: "tests-assets/photos1/photo_2017_02_22_a.jpg".to_string(),
            metadata: Some(md(&[("Exif.Photo.DateTimeOriginal", "2017:02:22 00:00:00")])),
        },
        PhotoSource {
            path: "tests-assets/photos1/photo_2018_03_23_a.jpg".to_string(),
            metadata: Some(md(&[("Exif.Photo.DateTimeOriginal", "2018:03:23 00:00:00")])),
        },
        PhotoSource {
            path: "tests-assets/photos1/photo_2018_03_24_a.jpg".to_string(),
            metadata: Some(md(&[("Exif.Photo.DateTimeOriginal", "2018:03:24 00:00:00")])),
        },
    ];
    let fileinfos = exif_dates_fixer::collection::get_fileinfos(sources);
    assert_eq!(fileinfos.len(), 3);
    assert_eq!(
        fileinfos[0].path,
        "tests-assets/photos1/photo_2018_03_24_a.jpg"
    );
    assert_eq!(fileinfos[0].date, Date::from_ymd(2018, 3, 24));
    assert_eq!(
        fileinfos[1].path,
        "tests-assets/photos1/photo_2018_03_23_a.jpg"
    );
    assert_eq!(fileinfos[1].date, Date::from_ymd(2018, 3, 23));
    assert_eq!(
        fileinfos[2].path,
        "tests-assets/photos1/photo_2017_02_22_a.jpg"
    );
    assert_eq!(fileinfos[2].date, Date::from_ymd(2017, 2, 22));
}

#[test]
fn test_dateless_records_come_first() {
    let sources = vec![
        PhotoSource {
            path: "photos1/photo_2017_02_22_a.jpg".to_string(),
            metadata: Some(md(&[("Exif.Photo.DateTimeOriginal", "2017:02:22 00:00:00")])),
        },
        PhotoSource {
            path: "photos1/photo_without_date.jpg".to_string(),
            metadata: Some(md(&[("Exif.Image.Make", "ACME")])),
        },
        PhotoSource {
            path: "photos1/photo_unreadable.jpg".to_string(),
            metadata: None,
        },
        PhotoSource {
            path: "photos1/photo_2018_03_24_a.jpg".to_string(),
            metadata: Some(md(&[("Exif.Photo.DateTimeOriginal", "2018:03:24 00:00:00")])),
        },
    ];
    let infos = exif_dates_fixer::collection::get_fileinfos(sources);
    assert_eq!(infos.len(), 4);
    assert!(infos[0].date.is_none());
    assert!(infos[1].date.is_none());
    assert_eq!(infos[2].date, Date::from_ymd(2018, 3, 24));
    assert_eq!(infos[3].date, Date::from_ymd(2017, 2, 22));
}

#[test]
fn test_scan_photos1_scenario() {
    let sources = vec![
        PhotoSource {
            path: "photos1/photo_2017_02_22_a.jpg".to_string(),
            metadata: Some(md(&[("Exif.Photo.DateTimeOriginal", "2017:02:22 00:00:00")])),
        },
        PhotoSource {
            path: "photos1/photo_without_date.jpg".to_string(),
            metadata: Some(md(&[("Exif.Image.Make", "ACME")])),
        },
    ];
    let collection = Collection::new("photos1", sources);
    assert_eq!(collection.path, "photos1");
    assert_eq!(collection.file_infos.len(), 2);
    assert_eq!(collection.file_infos[0].filename, "photo_without_date.jpg");
    assert_eq!(
        collection.file_infos[1].filename,
        "photo_2017_02_22_a.jpg"
    );
    match collection.file_infos[1].date_info() {
        DateInfo::Known { date, year, week } => {
            assert_eq!(date, "2017-02-22");
            assert_eq!(year, 2017);
            assert_eq!(week, 8);
        }
        DateInfo::Unknown => panic!("expected a known date"),
    }
    match collection.file_infos[0].date_info() {
        DateInfo::Unknown => {}
        DateInfo::Known { .. } => panic!("expected no date"),
    }
}
