use exif_dates_fixer::date::{
    format_exif_midnight, format_iso, iso_week, parse_exif_datetime, parse_iso_date, Date,
};
use exif_dates_fixer::file_infos::{
    extract_exif_date_tags, filename_of, is_date_tag_name, parse_date, DateInfo, FileInfo,
};
use exif_dates_fixer::tags::Metadata;

fn md(tags: &[(&str, &str)]) -> Metadata {
    let owned: Vec<(String, String)> = tags
        .iter()
        .map(|(k, v)| (k.to_string(), v.to_string()))
        .collect();
    Metadata::from_tags(owned)
}

fn tag_value(tags: &[(String, String)], key: &str) -> Option<String> {
    tags.iter()
        .find(|(k, _)| k == key)
        .map(|(_, v)| v.clone())
}

#[test]
fn test_parse_date() {
    let metadata = md(&[("Exif.Photo.DateTimeOriginal", "2017:02:22 00:00:00")]);
    let date = parse_date(&metadata);
    assert_eq!(date, Date::from_ymd(2017, 2, 22));
}

#[test]
fn test_parse_date_missing() {
    let metadata = md(&[("Exif.Image.Make", "ACME")]);
    let date = parse_date(&metadata);
    assert_eq!(date, None)
}

#[test]
fn test_parse_date_sentinel() {
    let metadata = md(&[("Exif.Photo.DateTimeOriginal", "0000:00:00 00:00:00")]);
    assert_eq!(parse_date(&metadata), None);
    assert_eq!(parse_exif_datetime("0000:00:00 00:00:00"), None);
}

#[test]
fn test_parse_date_malformed() {
    let metadata = md(&[("Exif.Photo.DateTimeOriginal", "not-a-date")]);
    assert_eq!(parse_date(&metadata), None);
    assert_eq!(parse_exif_datetime("not-a-date"), None);
    assert_eq!(parse_exif_datetime(""), None);
    assert_eq!(parse_exif_datetime("2017-02-22 00:00:00"), None);
    assert_eq!(parse_exif_datetime("2017:02:30 00:00:00"), None);
    assert_eq!(parse_exif_datetime("2017:13:01 00:00:00"), None);
    assert_eq!(parse_exif_datetime("2017:02:22 24:00:00"), None);
    assert_eq!(parse_exif_datetime("2017:02:22 00:60:00"), None);
}

#[test]
fn test_parse_exif_datetime_values() {
    assert_eq!(
        parse_exif_datetime("2017:02:22 13:45:59"),
        Date::from_ymd(2017, 2, 22)
    );
    assert_eq!(
        parse_exif_datetime("2020:02:29 00:00:00"),
        Date::from_ymd(2020, 2, 29)
    );
    assert_eq!(parse_exif_datetime("2019:02:29 00:00:00"), None);
    assert_eq!(parse_exif_datetime("1900:02:29 00:00:00"), None);
    assert_eq!(
        parse_exif_datetime("2000:02:29 00:00:00"),
        Date::from_ymd(2000, 2, 29)
    );
}

#[test]
fn test_parse_iso_date_values() {
    assert_eq!(parse_iso_date("2020-05-21"), Date::from_ymd(2020, 5, 21));
    assert_eq!(parse_iso_date("2020-13-01"), None);
    assert_eq!(parse_iso_date("2020-00-10"), None);
    assert_eq!(parse_iso_date("garbage"), None);
    assert_eq!(parse_iso_date("2020-05-21 "), None);
    assert_eq!(parse_iso_date("2020:05:21"), None);
}

#[test]
fn test_format_round_trip() {
    let d = Date::from_ymd(2020, 5, 21).unwrap();
    let raw = format_exif_midnight(&d);
    assert_eq!(raw, "2020:05:21 00:00:00");
    assert_eq!(parse_exif_datetime(&raw), Some(d));
    assert_eq!(format_iso(&d), "2020-05-21");
}

#[test]
fn test_iso_week_values() {
    let week_of = |y: u32, m: u32, d: u32| iso_week(&Date::from_ymd(y, m, d).unwrap());
    assert_eq!(week_of(2017, 2, 22), 8);
    assert_eq!(week_of(2018, 3, 24), 12);
    assert_eq!(week_of(2015, 12, 31), 53);
    assert_eq!(week_of(2016, 1, 1), 53);
    assert_eq!(week_of(2017, 1, 1), 52);
    assert_eq!(week_of(2019, 12, 31), 1);
    assert_eq!(week_of(2020, 12, 31), 53);
    assert_eq!(week_of(2021, 1, 4), 1);
}

#[test]
fn test_from_ymd_rejects_impossible_dates() {
    assert!(Date::from_ymd(2020, 5, 21).is_some());
    assert!(Date::from_ymd(2020, 2, 30).is_none());
    assert!(Date::from_ymd(2020, 0, 1).is_none());
    assert!(Date::from_ymd(2020, 1, 0).is_none());
    assert!(Date::from_ymd(10000, 1, 1).is_none());
    assert!(Date::from_ymd(2021, 4, 31).is_none());
}

#[test]
fn test_is_date_tag_name() {
    assert!(is_date_tag_name("Exif.Photo.DateTimeOriginal"));
    assert!(is_date_tag_name("Exif.GPSInfo.GPSDateStamp"));
    assert!(is_date_tag_name("Xmp.xmp.modifydate"));
    assert!(is_date_tag_name("DATE"));
    assert!(!is_date_tag_name("Exif.Image.Make"));
    assert!(!is_date_tag_name("dat"));
}

#[test]
fn test_extract_exif_date_tags() {
    let metadata = md(&[
        ("Exif.Image.Make", "ACME"),
        ("Exif.Image.DateTime", "2018:04:25 01:01:01"),
        ("Exif.Photo.DateTimeDigitized", "2018:03:24 00:00:00"),
        ("Exif.Photo.DateTimeOriginal", "2018:03:24 00:00:00"),
        ("Exif.Image.Orientation", "1"),
    ]);
    let res = extract_exif_date_tags(&metadata);
    assert_eq!(res.len(), 3);
    assert_eq!(
        tag_value(&res, "Exif.Image.DateTime").unwrap(),
        "2018:04:25 01:01:01"
    );
    assert_eq!(
        tag_value(&res, "Exif.Photo.DateTimeDigitized").unwrap(),
        "2018:03:24 00:00:00"
    );
    assert_eq!(
        tag_value(&res, "Exif.Photo.DateTimeOriginal").unwrap(),
        "2018:03:24 00:00:00"
    );
}

#[test]
fn test_unreadable_metadata_degrades() {
    let fileinfo = FileInfo::new_from_path("photos1/broken.jpg", None);
    assert_eq!(fileinfo.path, "photos1/broken.jpg");
    assert_eq!(fileinfo.filename, "broken.jpg");
    assert!(fileinfo.date.is_none());
    assert!(fileinfo.exif_date_tags.is_empty());
}

#[test]
fn test_filename_of() {
    assert_eq!(filename_of("a/b/c.jpg"), "c.jpg");
    assert_eq!(filename_of("c.jpg"), "c.jpg");
    assert_eq!(filename_of("a/b/"), "");
}

#[test]
fn test_serialize_fileinfo() {
    let date_tags = vec![
        (
            "Exif.Photo.DateTimeOriginal".to_string(),
            "2017:02:22 00:00:00".to_string(),
        ),
        (
            "Exif.Photo.DateTime".to_string(),
            "2018:04:25 01:01:01".to_string(),
        ),
    ];
    let fileinfo = FileInfo {
        path: "/Photos/tests-assets/photos1/photo_2017_02_22_a.jpg".to_string(),
        date: Date::from_ymd(2017, 2, 22),
        exif_date_tags: date_tags,
        filename: "photo_2017_02_22_a.jpg".to_string(),
    };
    assert_eq!(
        fileinfo.path,
        "/Photos/tests-assets/photos1/photo_2017_02_22_a.jpg"
    );
    assert_eq!(fileinfo.filename, "photo_2017_02_22_a.jpg");
    assert_eq!(
        tag_value(&fileinfo.exif_date_tags, "Exif.Photo.DateTimeOriginal").unwrap(),
        "2017:02:22 00:00:00"
    );
    assert_eq!(
        tag_value(&fileinfo.exif_date_tags, "Exif.Photo.DateTime").unwrap(),
        "2018:04:25 01:01:01"
    );
    match fileinfo.date_info() {
        DateInfo::Known { date, year, week } => {
            assert_eq!(date, "2017-02-22");
            assert_eq!(year, 2017);
            assert_eq!(week, 8);
        }
        DateInfo::Unknown => panic!("expected a known date"),
    }
}
