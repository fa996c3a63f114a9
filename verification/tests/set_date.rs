use exif_dates_fixer::date::Date;
use exif_dates_fixer::file_infos::parse_date;
use exif_dates_fixer::set_date;
use exif_dates_fixer::tags::Metadata;

fn md(tags: &[(&str, &str)]) -> Metadata {
    let owned: Vec<(String, String)> = tags
        .iter()
        .map(|(k, v)| (k.to_string(), v.to_string()))
        .collect();
    Metadata::from_tags(owned)
}

#[test]
fn test_set_date() {
    let mut metadata = md(&[
        ("Exif.Image.DateTime", "2018:04:25 01:01:01"),
        ("Exif.Photo.DateTimeOriginal", "2018:03:24 00:00:00"),
    ]);
    let date = Date::from_ymd(2020, 5, 21).unwrap();
    let file_info_res = set_date("tests-assets/photo_tmp.jpg", &date, &mut metadata);
    assert_eq!(file_info_res.date, Some(date));
    assert_eq!(
        metadata
            .get_tag_string("Exif.Photo.DateTimeOriginal")
            .unwrap(),
        "2020:05:21 00:00:00"
    );
    assert_eq!(
        metadata.get_tag_string("Exif.Photo.UserComment").unwrap(),
        "fixed-with-exif-dates-fixer"
    );
    assert_eq!(
        metadata.get_tag_string("Exif.Photo.UserComment").unwrap(),
        exif_dates_fixer::audit_marker()
    );
    assert_eq!(file_info_res.filename, "photo_tmp.jpg");
}

#[test]
fn test_set_date_round_trip() {
    let mut metadata = md(&[("Exif.Image.Make", "ACME")]);
    let date = Date::from_ymd(2020, 5, 21).unwrap();
    let record = set_date("photo.jpg", &date, &mut metadata);
    assert_eq!(record.date, Some(date));
    // A fresh read of the same tag set yields exactly the date written.
    assert_eq!(parse_date(&metadata), Some(date));
}

#[test]
fn test_set_date_idempotent() {
    let mut metadata = md(&[("Exif.Photo.DateTimeOriginal", "2018:03:24 00:00:00")]);
    let date = Date::from_ymd(2020, 5, 21).unwrap();
    set_date("photo.jpg", &date, &mut metadata);
    let dto_once = metadata
        .get_tag_string("Exif.Photo.DateTimeOriginal")
        .unwrap();
    let marker_once = metadata.get_tag_string("Exif.Photo.UserComment").unwrap();
    let tags_once = metadata.tags.clone();
    let second = set_date("photo.jpg", &date, &mut metadata);
    assert_eq!(second.date, Some(date));
    assert_eq!(
        metadata
            .get_tag_string("Exif.Photo.DateTimeOriginal")
            .unwrap(),
        dto_once
    );
    assert_eq!(
        metadata.get_tag_string("Exif.Photo.UserComment").unwrap(),
        marker_once
    );
    assert_eq!(metadata.tags, tags_once);
}

#[test]
fn test_set_date_keeps_stale_diagnostic_tags() {
    let mut metadata = md(&[
        ("Exif.Image.DateTime", "2018:04:25 01:01:01"),
        ("Exif.Image.Make", "ACME"),
    ]);
    let date = Date::from_ymd(2021, 1, 4).unwrap();
    let record = set_date("photo.jpg", &date, &mut metadata);
    // The returned record's diagnostic tags are the date-like tags as
    // they stood before the write.
    assert_eq!(record.exif_date_tags.len(), 1);
    assert_eq!(record.exif_date_tags[0].0, "Exif.Image.DateTime");
    assert_eq!(record.exif_date_tags[0].1, "2018:04:25 01:01:01");
}

#[test]
fn test_set_tag_string_inserts_and_replaces() {
    let mut metadata = Metadata::new();
    assert_eq!(metadata.get_tag_string("Exif.Image.Make"), None);
    metadata.set_tag_string("Exif.Image.Make", "ACME");
    assert_eq!(metadata.get_tag_string("Exif.Image.Make").unwrap(), "ACME");
    metadata.set_tag_string("Exif.Image.Make", "Other");
    assert_eq!(metadata.tags.len(), 1);
    assert_eq!(metadata.get_tag_string("Exif.Image.Make").unwrap(), "Other");
}
