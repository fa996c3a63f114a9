//! One photo's record: the facts the tool derives from a file's metadata.
//!
//! A record is built from a path and the file's tag snapshot, if one
//! could be read.  Its date comes from the `Exif.Photo.DateTimeOriginal`
//! tag alone; every tag whose name contains "date" (case-insensitively)
//! is kept verbatim for diagnostic display.

use crate::date::{
    format_iso_spec, iso_week, iso_week_spec, parse_exif_datetime, parse_exif_datetime_spec,
    valid_date, Date,
};
use crate::tags::{spec_lookup, tag_views, Metadata};
use vstd::prelude::*;
use vstd::string::StrSliceExecFns;
use vstd::string::StringExecFns;

verus! {

/// Start of the last path segment: the index just after the last `/`,
/// or 0 when the path has no `/`.
pub open spec fn filename_start(p: Seq<char>) -> int
    decreases p.len(),
{
    if p.len() == 0 {
        0
    } else if p.last() == '/' {
        p.len() as int
    } else {
        filename_start(p.drop_last())
    }
}

/// The last path segment, used as the display name of a file.
pub open spec fn spec_filename(p: Seq<char>) -> Seq<char> {
    p.subrange(filename_start(p), p.len() as int)
}

proof fn lemma_filename_start_step(p: Seq<char>, i: int)
    requires
        0 <= i < p.len(),
    ensures
        filename_start(p.take(i + 1)) == if p[i] == '/' {
            i + 1
        } else {
            filename_start(p.take(i))
        },
{
    assert(p.take(i + 1).last() == p[i]);
    assert(p.take(i + 1).drop_last() =~= p.take(i));
}

/// Derives the display name of a file: everything after the last `/`.
pub fn filename_of(path: &str) -> (r: String)
    ensures
        r@ == spec_filename(path@),
{
    let n = path.unicode_len();
    let mut start: usize = 0;
    let mut i: usize = 0;
    proof {
        assert(path@.take(0) =~= Seq::<char>::empty());
    }
    while i < n
        invariant
            n == path@.len(),
            0 <= start <= i <= n,
            start == filename_start(path@.take(i as int)),
        decreases n - i,
    {
        proof {
            lemma_filename_start_step(path@, i as int);
        }
        if path.get_char(i) == '/' {
            start = i + 1;
        }
        i = i + 1;
    }
    proof {
        assert(path@.take(n as int) =~= path@);
    }
    let seg = path.substring_char(start, n);
    String::from_str(seg)
}

/// Lower-cased code point of an ASCII letter; other characters keep
/// their code point.
pub open spec fn lower_val(c: char) -> int {
    if 'A' as int <= c as int <= 'Z' as int {
        c as int + 32
    } else {
        c as int
    }
}

/// The four characters starting at `i` spell "date", ignoring ASCII
/// case.
pub open spec fn is_date_at(k: Seq<char>, i: int) -> bool {
    &&& 0 <= i
    &&& i + 4 <= k.len()
    &&& lower_val(k[i]) == 'd' as int
    &&& lower_val(k[i + 1]) == 'a' as int
    &&& lower_val(k[i + 2]) == 't' as int
    &&& lower_val(k[i + 3]) == 'e' as int
}

/// The tag name contains the substring "date", ignoring ASCII case.
pub open spec fn key_is_date_tag(k: Seq<char>) -> bool {
    exists|i: int| is_date_at(k, i)
}

/// Lower-cased code point of the character at position `i`.
fn lower_val_at(k: &str, i: usize) -> (r: u32)
    requires
        i < k@.len(),
    ensures
        r == lower_val(k@[i as int]),
{
    let v = k.get_char(i) as u32;
    if 65 <= v && v <= 90 {
        v + 32
    } else {
        v
    }
}

/// Decides whether a tag name contains "date", ignoring ASCII case.
pub fn is_date_tag_name(k: &str) -> (r: bool)
    ensures
        r == key_is_date_tag(k@),
{
    let n = k.unicode_len();
    if n < 4 {
        return false;
    }
    let mut i: usize = 0;
    while i <= n - 4
        invariant
            n == k@.len(),
            4 <= n,
            0 <= i <= n - 3,
            forall|j: int| 0 <= j < i ==> !is_date_at(k@, j),
        decreases n - i,
    {
        if lower_val_at(k, i) == 100 && lower_val_at(k, i + 1) == 97 && lower_val_at(k, i + 2)
            == 116 && lower_val_at(k, i + 3) == 101 {
            assert(is_date_at(k@, i as int));
            return true;
        }
        i = i + 1;
    }
    false
}

/// The predicate a kept diagnostic tag meets: its name contains "date".
pub open spec fn date_tag_pred() -> spec_fn((Seq<char>, Seq<char>)) -> bool {
    |t: (Seq<char>, Seq<char>)| key_is_date_tag(t.0)
}

/// The diagnostic tags of a tag set: those whose name contains "date",
/// in their original order.
pub open spec fn spec_date_tags(tags: Seq<(Seq<char>, Seq<char>)>) -> Seq<(Seq<char>, Seq<char>)> {
    tags.filter(date_tag_pred())
}

/// Filtering one more tag keeps the filtered prefix and appends the tag
/// exactly when its name contains "date".
proof fn lemma_date_filter_push(s: Seq<(Seq<char>, Seq<char>)>, x: (Seq<char>, Seq<char>))
    ensures
        key_is_date_tag(x.0) ==> s.push(x).filter(date_tag_pred()) == s.filter(
            date_tag_pred(),
        ).push(x),
        !key_is_date_tag(x.0) ==> s.push(x).filter(date_tag_pred()) == s.filter(date_tag_pred()),
{
    reveal(Seq::filter);
    assert(s.push(x).drop_last() =~= s);
    assert(s.push(x).last() == x);
}

/// Collects every tag whose name contains "date", for diagnostic
/// display beside a missing or suspicious date.
pub fn extract_exif_date_tags(metadata: &Metadata) -> (r: Vec<(String, String)>)
    ensures
        tag_views(r@) == spec_date_tags(metadata@),
{
    let n = metadata.tags.len();
    let mut out: Vec<(String, String)> = Vec::new();
    proof {
        reveal(Seq::filter);
        assert(metadata@.take(0) =~= Seq::<(Seq<char>, Seq<char>)>::empty());
        assert(tag_views(out@) =~= metadata@.take(0).filter(date_tag_pred()));
    }
    let mut i: usize = 0;
    while i < n
        invariant
            n == metadata.tags@.len(),
            0 <= i <= n,
            tag_views(out@) == metadata@.take(i as int).filter(date_tag_pred()),
        decreases n - i,
    {
        proof {
            assert(metadata@.take(i as int + 1) =~= metadata@.take(i as int).push(
                metadata@[i as int],
            ));
            lemma_date_filter_push(metadata@.take(i as int), metadata@[i as int]);
            assert(metadata@[i as int] == (
                metadata.tags@[i as int].0@,
                metadata.tags@[i as int].1@,
            ));
        }
        let keep = is_date_tag_name(metadata.tags[i].0.as_str());
        if keep {
            let k = metadata.tags[i].0.clone();
            let v = metadata.tags[i].1.clone();
            out.push((k, v));
            proof {
                assert(tag_views(out@) =~= metadata@.take(i as int).filter(date_tag_pred()).push(
                    metadata@[i as int],
                ));
            }
        }
        i = i + 1;
    }
    proof {
        assert(metadata@.take(n as int) =~= metadata@);
    }
    out
}

/// The tag a record's date is read from, and nothing else.
pub open spec fn dto_key() -> Seq<char> {
    "Exif.Photo.DateTimeOriginal"@
}

/// The date derived from a tag set: the parse of its
/// `Exif.Photo.DateTimeOriginal` value, or nothing when the tag is
/// absent.
pub open spec fn spec_parse_date(tags: Seq<(Seq<char>, Seq<char>)>) -> Option<Date> {
    match spec_lookup(tags, dto_key()) {
        Option::None => Option::<Date>::None,
        Option::Some(v) => parse_exif_datetime_spec(v),
    }
}

/// Reads the capture date of a file from its tag snapshot.  An absent
/// tag, the all-zero sentinel and a malformed value all yield `None`.
pub fn parse_date(metadata: &Metadata) -> (r: Option<Date>)
    ensures
        r == spec_parse_date(metadata@),
        r matches Some(d) ==> valid_date(d),
{
    match metadata.get_tag_string("Exif.Photo.DateTimeOriginal") {
        Option::None => Option::None,
        Option::Some(v) => parse_exif_datetime(v.as_str()),
    }
}

/// One photo's derived record.
pub struct FileInfo {
    pub path: String,
    pub filename: String,
    pub date: Option<Date>,
    pub exif_date_tags: Vec<(String, String)>,
}

/// The mathematical content of a record.
pub struct RecordV {
    pub path: Seq<char>,
    pub filename: Seq<char>,
    pub date: Option<Date>,
    pub exif_date_tags: Seq<(Seq<char>, Seq<char>)>,
}

impl View for FileInfo {
    type V = RecordV;

    open spec fn view(&self) -> RecordV {
        RecordV {
            path: self.path@,
            filename: self.filename@,
            date: self.date,
            exif_date_tags: tag_views(self.exif_date_tags@),
        }
    }
}

/// The record built from a path and the tag snapshot read for it, or
/// from a path alone when the file's metadata could not be read.
pub open spec fn spec_build_record(path: Seq<char>, md: Option<Seq<(Seq<char>, Seq<char>)>>) -> RecordV {
    match md {
        Option::None => RecordV {
            path: path,
            filename: spec_filename(path),
            date: Option::None,
            exif_date_tags: Seq::empty(),
        },
        Option::Some(t) => RecordV {
            path: path,
            filename: spec_filename(path),
            date: spec_parse_date(t),
            exif_date_tags: spec_date_tags(t),
        },
    }
}

/// View of an optional borrowed tag snapshot.
pub open spec fn md_view(md: Option<&Metadata>) -> Option<Seq<(Seq<char>, Seq<char>)>> {
    match md {
        Option::None => Option::None,
        Option::Some(m) => Option::Some(m@),
    }
}

/// A record's date, when present, is a real calendar date.
pub open spec fn record_wf(r: RecordV) -> bool {
    match r.date {
        Option::Some(d) => valid_date(d),
        Option::None => true,
    }
}

/// What a record shows at the boundary: either nothing is known of the
/// date, or the date with its display string, year and ISO week.
pub enum DateInfo {
    Unknown,
    Known { date: String, year: u32, week: u32 },
}

impl FileInfo {
    /// Builds the record for one file.  `metadata` is the tag snapshot
    /// read for `path`, or `None` when the file's metadata could not be
    /// read; a failed read degrades to a record with no date and no
    /// diagnostic tags, never an error.
    pub fn new_from_path(path: &str, metadata: Option<&Metadata>) -> (r: FileInfo)
        ensures
            r@ == spec_build_record(path@, md_view(metadata)),
            record_wf(r@),
    {
        match metadata {
            Option::None => {
                let r = FileInfo {
                    path: String::from_str(path),
                    filename: filename_of(path),
                    date: Option::None,
                    exif_date_tags: Vec::new(),
                };
                proof {
                    assert(tag_views(r.exif_date_tags@) =~= Seq::<(Seq<char>, Seq<char>)>::empty());
                }
                r
            },
            Option::Some(m) => {
                let date = parse_date(m);
                FileInfo {
                    path: String::from_str(path),
                    filename: filename_of(path),
                    date,
                    exif_date_tags: extract_exif_date_tags(m),
                }
            },
        }
    }

    /// The boundary view of this record's date: its display string,
    /// year and ISO week, or `Unknown` when no usable date was found.
    pub fn date_info(&self) -> (r: DateInfo)
        requires
            record_wf(self@),
        ensures
            match self.date {
                Option::None => r is Unknown,
                Option::Some(d) => r matches DateInfo::Known { date, year, week } && date@
                    == format_iso_spec(d) && year == d.year && week == iso_week_spec(d),
            },
    {
        match &self.date {
            Option::None => DateInfo::Unknown,
            Option::Some(d) => DateInfo::Known {
                date: crate::date::format_iso(d),
                year: d.year,
                week: iso_week(d),
            },
        }
    }
}

} // verus!
