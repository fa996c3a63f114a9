//! Verified core of a photo EXIF capture-date fixer.
//!
//! The library holds the logic of the tool: parsing and formatting EXIF
//! date strings, deriving calendar facts (year, ISO week), filtering the
//! date-like tags of a file's metadata, building and ordering the records
//! of a scanned directory, and the tag writes that correct a date.  All
//! file and metadata I/O stays outside: callers hand the library the tag
//! strings they read and perform the writes it returns.

pub mod collection;
pub mod date;
pub mod file_infos;
pub mod tags;

use crate::date::{
    format_exif_midnight, format_exif_midnight_spec, lemma_format_parse_round_trip, valid_date,
    Date,
};
use crate::file_infos::{
    dto_key, record_wf, spec_date_tags, spec_filename, spec_parse_date, FileInfo,
};
use crate::tags::{
    lemma_lookup_after_set, lemma_lookup_after_set_other, lemma_set_tag_noop, spec_lookup,
    spec_set_tag, Metadata,
};
use vstd::prelude::*;
use vstd::string::StringExecFns;

verus! {

/// The tag that carries the audit marker a correction leaves behind.
pub open spec fn uc_key() -> Seq<char> {
    "Exif.Photo.UserComment"@
}

/// The fixed audit marker written beside every corrected date.
pub open spec fn audit_marker_spec() -> Seq<char> {
    "fixed-with-exif-dates-fixer"@
}

/// The audit marker as a string value.
pub fn audit_marker() -> (r: String)
    ensures
        r@ == audit_marker_spec(),
{
    String::from_str("fixed-with-exif-dates-fixer")
}

/// A tag set after a date correction: `DateTimeOriginal` set to the
/// date at midnight, then the audit marker set in `UserComment`.
pub open spec fn apply_date_write(tags: Seq<(Seq<char>, Seq<char>)>, d: Date) -> Seq<
    (Seq<char>, Seq<char>),
> {
    spec_set_tag(
        spec_set_tag(tags, dto_key(), format_exif_midnight_spec(d)),
        uc_key(),
        audit_marker_spec(),
    )
}

proof fn lemma_keys_distinct()
    ensures
        dto_key() != uc_key(),
{
    reveal_strlit("Exif.Photo.DateTimeOriginal");
    reveal_strlit("Exif.Photo.UserComment");
    assert(dto_key().len() == 27);
    assert(uc_key().len() == 22);
}

/// Corrects the capture date of one photo.  The two tag writes are
/// applied to the in-memory tag set; the caller persists that set to
/// the file and aborts without persisting if anything fails before.
/// The returned record carries the new date as authoritative; its
/// diagnostic tags are the (possibly stale) ones read before the write.
pub fn set_date(path: &str, date: &Date, metadata: &mut Metadata) -> (r: FileInfo)
    requires
        valid_date(*date),
    ensures
        final(metadata)@ == apply_date_write(old(metadata)@, *date),
        spec_lookup(final(metadata)@, dto_key()) == Some(format_exif_midnight_spec(*date)),
        spec_lookup(final(metadata)@, uc_key()) == Some(audit_marker_spec()),
        r.path@ == path@,
        r.filename@ == spec_filename(path@),
        r.date == Some(*date),
        r@.exif_date_tags == spec_date_tags(old(metadata)@),
        record_wf(r@),
{
    let mut info = FileInfo::new_from_path(path, Some(&*metadata));
    let value = format_exif_midnight(date);
    metadata.set_tag_string("Exif.Photo.DateTimeOriginal", value.as_str());
    metadata.set_tag_string("Exif.Photo.UserComment", "fixed-with-exif-dates-fixer");
    info.date = Some(*date);
    proof {
        lemma_keys_distinct();
        lemma_lookup_after_set(old(metadata)@, dto_key(), format_exif_midnight_spec(*date));
        lemma_lookup_after_set_other(
            spec_set_tag(old(metadata)@, dto_key(), format_exif_midnight_spec(*date)),
            uc_key(),
            audit_marker_spec(),
            dto_key(),
        );
        lemma_lookup_after_set(
            spec_set_tag(old(metadata)@, dto_key(), format_exif_midnight_spec(*date)),
            uc_key(),
            audit_marker_spec(),
        );
    }
    info
}

/// Correcting a date and reading the file's record afresh yields that
/// date: after the write, the `DateTimeOriginal` value parses back to
/// exactly the date written.
pub proof fn lemma_set_date_round_trip(tags: Seq<(Seq<char>, Seq<char>)>, d: Date)
    requires
        valid_date(d),
    ensures
        spec_parse_date(apply_date_write(tags, d)) == Some(d),
{
    let written = format_exif_midnight_spec(d);
    lemma_keys_distinct();
    lemma_lookup_after_set(tags, dto_key(), written);
    lemma_lookup_after_set_other(
        spec_set_tag(tags, dto_key(), written),
        uc_key(),
        audit_marker_spec(),
        dto_key(),
    );
    lemma_format_parse_round_trip(d);
}

/// Correcting a date twice with the same date changes nothing the
/// second time: the observable date and the audit marker are the same
/// after one write and after two.
pub proof fn lemma_set_date_idempotent(tags: Seq<(Seq<char>, Seq<char>)>, d: Date)
    requires
        valid_date(d),
    ensures
        apply_date_write(apply_date_write(tags, d), d) == apply_date_write(tags, d),
{
    let written = format_exif_midnight_spec(d);
    let t1 = spec_set_tag(tags, dto_key(), written);
    let t2 = spec_set_tag(t1, uc_key(), audit_marker_spec());
    lemma_keys_distinct();
    lemma_lookup_after_set(tags, dto_key(), written);
    lemma_lookup_after_set_other(t1, uc_key(), audit_marker_spec(), dto_key());
    lemma_set_tag_noop(t2, dto_key(), written);
    lemma_lookup_after_set(t1, uc_key(), audit_marker_spec());
    lemma_set_tag_noop(t2, uc_key(), audit_marker_spec());
}

} // verus!
