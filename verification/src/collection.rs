//! A directory's photo set at a point in time.
//!
//! Callers list the files under a root and read each file's tag
//! snapshot; this module keeps the `.jpg` files, orders the candidate
//! paths by filename descending, builds one record per file, and orders
//! the records so that every record without a date stands before all
//! dated records, and the dated records run newest first.

use crate::date::{date_le, Date};
use crate::file_infos::{md_view, record_wf, spec_build_record, spec_filename, FileInfo, RecordV};
use crate::file_infos::filename_of;
use crate::tags::Metadata;
use vstd::multiset::Multiset;
use vstd::prelude::*;
use vstd::seq_lib::group_to_multiset_ensures;
use vstd::string::StrSliceExecFns;
use vstd::string::StringExecFns;

verus! {

/// The views of a list of path strings.
pub open spec fn path_views(s: Seq<String>) -> Seq<Seq<char>> {
    s.map_values(|p: String| p@)
}

/// The path names a file with the literal extension `.jpg`.
pub open spec fn is_jpg_path(p: Seq<char>) -> bool {
    &&& p.len() >= 4
    &&& p[p.len() - 4] == '.'
    &&& p[p.len() - 3] == 'j'
    &&& p[p.len() - 2] == 'p'
    &&& p[p.len() - 1] == 'g'
}

/// The predicate a scanned path must meet to become a record.
pub open spec fn jpg_pred() -> spec_fn(Seq<char>) -> bool {
    |p: Seq<char>| is_jpg_path(p)
}

/// Decides whether a path ends in `.jpg`, case-sensitively.
pub fn ends_with_jpg(p: &str) -> (r: bool)
    ensures
        r == is_jpg_path(p@),
{
    let n = p.unicode_len();
    if n < 4 {
        return false;
    }
    p.get_char(n - 4) == '.' && p.get_char(n - 3) == 'j' && p.get_char(n - 2) == 'p' && p.get_char(
        n - 1,
    ) == 'g'
}

/// Lexicographic order on character sequences, read from position `i`.
pub open spec fn lex_le_from(a: Seq<char>, b: Seq<char>, i: int) -> bool
    decreases a.len() - i,
{
    if i >= a.len() {
        true
    } else if i >= b.len() {
        false
    } else if (a[i] as int) < (b[i] as int) {
        true
    } else if (a[i] as int) > (b[i] as int) {
        false
    } else {
        lex_le_from(a, b, i + 1)
    }
}

/// `a` is lexicographically on or before `b`.
pub open spec fn lex_le(a: Seq<char>, b: Seq<char>) -> bool {
    lex_le_from(a, b, 0)
}

proof fn lemma_lex_total_from(a: Seq<char>, b: Seq<char>, i: int)
    ensures
        lex_le_from(a, b, i) || lex_le_from(b, a, i),
    decreases a.len() - i,
{
    if i < a.len() && i < b.len() && (a[i] as int) == (b[i] as int) {
        lemma_lex_total_from(a, b, i + 1);
    }
}

proof fn lemma_lex_trans_from(a: Seq<char>, b: Seq<char>, c: Seq<char>, i: int)
    requires
        lex_le_from(a, b, i),
        lex_le_from(b, c, i),
    ensures
        lex_le_from(a, c, i),
    decreases a.len() - i,
{
    if i < a.len() && i < b.len() && i < c.len() && (a[i] as int) == (b[i] as int) && (b[i] as int)
        == (c[i] as int) {
        lemma_lex_trans_from(a, b, c, i + 1);
    }
}

/// Executable lexicographic comparison from position `i`.
fn lex_le_from_exec(a: &str, b: &str, i: usize) -> (r: bool)
    requires
        i <= a@.len(),
        i <= b@.len(),
    ensures
        r == lex_le_from(a@, b@, i as int),
    decreases a@.len() - i,
{
    let na = a.unicode_len();
    if i >= na {
        return true;
    }
    let nb = b.unicode_len();
    if i >= nb {
        return false;
    }
    let ca = a.get_char(i) as u32;
    let cb = b.get_char(i) as u32;
    if ca < cb {
        true
    } else if ca > cb {
        false
    } else {
        lex_le_from_exec(a, b, i + 1)
    }
}

/// Executable twin of `lex_le`.
pub fn lex_le_exec(a: &str, b: &str) -> (r: bool)
    ensures
        r == lex_le(a@, b@),
{
    lex_le_from_exec(a, b, 0)
}

/// `a` may stand before `b` in the candidate order: filenames
/// descending.
pub open spec fn path_ord(a: Seq<char>, b: Seq<char>) -> bool {
    lex_le(spec_filename(b), spec_filename(a))
}

proof fn lemma_path_ord_total(a: Seq<char>, b: Seq<char>)
    ensures
        path_ord(a, b) || path_ord(b, a),
{
    lemma_lex_total_from(spec_filename(a), spec_filename(b), 0);
}

proof fn lemma_path_ord_trans(a: Seq<char>, b: Seq<char>, c: Seq<char>)
    requires
        path_ord(a, b),
        path_ord(b, c),
    ensures
        path_ord(a, c),
{
    lemma_lex_trans_from(spec_filename(c), spec_filename(b), spec_filename(a), 0);
}

/// Executable twin of `path_ord`.
fn path_before(a: &String, b: &String) -> (r: bool)
    ensures
        r == path_ord(a@, b@),
{
    let fa = filename_of(a.as_str());
    let fb = filename_of(b.as_str());
    lex_le_exec(fb.as_str(), fa.as_str())
}

/// The candidate paths stand in filename-descending order.
pub open spec fn paths_sorted(s: Seq<String>) -> bool {
    forall|i: int, j: int| #![trigger s[i], s[j]] 0 <= i <= j < s.len() ==> path_ord(s[i]@, s[j]@)
}

/// Filtering one more path keeps the filtered prefix and appends the
/// path exactly when it ends in `.jpg`.
proof fn lemma_jpg_filter_push(s: Seq<Seq<char>>, x: Seq<char>)
    ensures
        is_jpg_path(x) ==> s.push(x).filter(jpg_pred()) == s.filter(jpg_pred()).push(x),
        !is_jpg_path(x) ==> s.push(x).filter(jpg_pred()) == s.filter(jpg_pred()),
{
    reveal(Seq::filter);
    assert(s.push(x).drop_last() =~= s);
    assert(s.push(x).last() == x);
}

/// A scan of paths none of which end in `.jpg` keeps nothing.
pub proof fn lemma_scan_without_matches_is_empty(paths: Seq<Seq<char>>)
    requires
        forall|i: int| 0 <= i < paths.len() ==> !is_jpg_path(#[trigger] paths[i]),
    ensures
        paths.filter(jpg_pred()).len() == 0,
    decreases paths.len(),
{
    reveal(Seq::filter);
    if paths.len() > 0 {
        assert(forall|i: int|
            0 <= i < paths.drop_last().len() ==> !is_jpg_path(#[trigger] paths.drop_last()[i]));
        lemma_scan_without_matches_is_empty(paths.drop_last());
    }
}

/// Position at which `x` is inserted into the sorted prefix: the first
/// index whose path must stand after `x`.
fn find_path_pos(out: &Vec<String>, x: &String) -> (k: usize)
    requires
        paths_sorted(out@),
    ensures
        k <= out@.len(),
        forall|j: int| 0 <= j < k ==> path_ord(#[trigger] out@[j]@, x@),
        k < out@.len() ==> path_ord(x@, out@[k as int]@),
{
    let n = out.len();
    let mut k: usize = 0;
    while k < n
        invariant
            n == out@.len(),
            0 <= k <= n,
            forall|j: int| 0 <= j < k ==> path_ord(#[trigger] out@[j]@, x@),
        decreases n - k,
    {
        if !path_before(&out[k], x) {
            proof {
                lemma_path_ord_total(out@[k as int]@, x@);
            }
            return k;
        }
        k = k + 1;
    }
    k
}

/// Keeps the `.jpg` paths of a directory listing and orders them by
/// filename descending, the deterministic order in which records are
/// then built.  A listing without a single matching file yields the
/// empty list, not an error.
pub fn get_paths(paths: &Vec<String>) -> (r: Vec<String>)
    ensures
        path_views(r@).to_multiset() == path_views(paths@).filter(jpg_pred()).to_multiset(),
        paths_sorted(r@),
{
    broadcast use group_to_multiset_ensures;

    let n = paths.len();
    let ghost vs = path_views(paths@);
    let mut kept: Vec<String> = Vec::new();
    proof {
        assert(vs.take(0) =~= Seq::<Seq<char>>::empty());
        reveal(Seq::filter);
        assert(path_views(kept@) =~= vs.take(0).filter(jpg_pred()));
    }
    let mut i: usize = 0;
    while i < n
        invariant
            n == paths@.len(),
            vs == path_views(paths@),
            0 <= i <= n,
            path_views(kept@) == vs.take(i as int).filter(jpg_pred()),
        decreases n - i,
    {
        proof {
            assert(vs.take(i as int + 1) =~= vs.take(i as int).push(vs[i as int]));
            lemma_jpg_filter_push(vs.take(i as int), vs[i as int]);
            assert(vs[i as int] == paths@[i as int]@);
        }
        if ends_with_jpg(paths[i].as_str()) {
            kept.push(paths[i].clone());
            proof {
                assert(path_views(kept@) =~= vs.take(i as int).filter(jpg_pred()).push(
                    vs[i as int],
                ));
            }
        }
        i = i + 1;
    }
    proof {
        assert(vs.take(n as int) =~= vs);
    }
    // Insertion sort by filename descending.
    let m = kept.len();
    let mut out: Vec<String> = Vec::new();
    proof {
        assert(path_views(kept@.take(0)) =~= Seq::<Seq<char>>::empty());
        assert(path_views(out@) =~= path_views(kept@.take(0)));
    }
    let mut i: usize = 0;
    while i < m
        invariant
            m == kept@.len(),
            0 <= i <= m,
            paths_sorted(out@),
            path_views(out@).to_multiset() == path_views(kept@.take(i as int)).to_multiset(),
        decreases m - i,
    {
        let x = kept[i].clone();
        let k = find_path_pos(&out, &x);
        let ghost old_out = out@;
        let ghost gx = x;
        out.insert(k, x);
        proof {
            broadcast use group_to_multiset_ensures;

            old_out.insert_ensures(k as int, gx);
            assert(path_views(out@) =~= path_views(old_out).insert(k as int, gx@));
            vstd::seq_lib::to_multiset_insert(path_views(old_out), k as int, gx@);
            assert(path_views(kept@.take(i as int + 1)) =~= path_views(kept@.take(i as int)).push(
                gx@,
            ));
            assert forall|p: int, q: int| #![trigger out@[p], out@[q]] 0 <= p <= q < out@.len()
                implies path_ord(out@[p]@, out@[q]@) by {
                if q < k {
                    assert(path_ord(old_out[p]@, old_out[q]@));
                } else if p < k && q == k {
                    assert(path_ord(old_out[p]@, gx@));
                } else if p < k && q > k {
                    assert(path_ord(old_out[p]@, old_out[q - 1]@));
                } else if p == k && q == k {
                    lemma_path_ord_total(gx@, gx@);
                } else if p == k && q > k {
                    assert(path_ord(gx@, old_out[k as int]@));
                    assert(path_ord(old_out[k as int]@, old_out[q - 1]@));
                    lemma_path_ord_trans(gx@, old_out[k as int]@, old_out[q - 1]@);
                } else {
                    assert(path_ord(old_out[p - 1]@, old_out[q - 1]@));
                }
            }
        }
        i = i + 1;
    }
    proof {
        assert(kept@.take(m as int) =~= kept@);
    }
    out
}

/// What a caller hands the scan for one file: the path, and the tag
/// snapshot read for it, or `None` when the file's metadata could not
/// be read.
pub struct PhotoSource {
    pub path: String,
    pub metadata: Option<Metadata>,
}

/// The record a source gives rise to.
pub open spec fn source_record(x: PhotoSource) -> RecordV {
    spec_build_record(
        x.path@,
        match x.metadata {
            Option::None => Option::None,
            Option::Some(m) => Option::Some(m@),
        },
    )
}

/// The records of a list of sources, in order.
pub open spec fn source_records(s: Seq<PhotoSource>) -> Seq<RecordV> {
    s.map_values(|x: PhotoSource| source_record(x))
}

/// The views of a list of records.
pub open spec fn rec_views(s: Seq<FileInfo>) -> Seq<RecordV> {
    s.map_values(|f: FileInfo| f@)
}

/// `a` may stand before `b` in the visible order: records without a
/// date first, then dates descending.
pub open spec fn date_order(a: Option<Date>, b: Option<Date>) -> bool {
    match a {
        Option::None => true,
        Option::Some(x) => match b {
            Option::None => false,
            Option::Some(y) => date_le(y, x),
        },
    }
}

/// Executable twin of `date_order`.
fn date_order_exec(a: &Option<Date>, b: &Option<Date>) -> (r: bool)
    ensures
        r == date_order(*a, *b),
{
    match a {
        Option::None => true,
        Option::Some(x) => match b {
            Option::None => false,
            Option::Some(y) => crate::date::date_le_exec(y, x),
        },
    }
}

/// The records stand in the visible order: every record without a date
/// before all dated records, and the dated records newest first.
pub open spec fn records_sorted(s: Seq<FileInfo>) -> bool {
    forall|i: int, j: int| #![trigger s[i], s[j]] 0 <= i <= j < s.len() ==> date_order(
        s[i].date,
        s[j].date,
    )
}

/// Position at which a record is inserted into the sorted prefix.
fn find_record_pos(out: &Vec<FileInfo>, x: &FileInfo) -> (k: usize)
    requires
        records_sorted(out@),
    ensures
        k <= out@.len(),
        forall|j: int| 0 <= j < k ==> date_order(#[trigger] out@[j].date, x.date),
        k < out@.len() ==> date_order(x.date, out@[k as int].date),
{
    let n = out.len();
    let mut k: usize = 0;
    while k < n
        invariant
            n == out@.len(),
            0 <= k <= n,
            forall|j: int| 0 <= j < k ==> date_order(#[trigger] out@[j].date, x.date),
        decreases n - k,
    {
        if !date_order_exec(&out[k].date, &x.date) {
            proof {
                if out@[k as int].date is None {
                    assert(date_order(x.date, out@[k as int].date)) by {
                        assert(date_order(out@[k as int].date, x.date));
                    }
                }
            }
            return k;
        }
        k = k + 1;
    }
    k
}

/// Builds one record per source, in the order given, then orders the
/// records for display: date-less records first, then dates descending.
/// A source whose metadata could not be read still yields a record;
/// nothing aborts the scan.
pub fn get_fileinfos(sources: Vec<PhotoSource>) -> (r: Vec<FileInfo>)
    ensures
        rec_views(r@).to_multiset() == source_records(sources@).to_multiset(),
        records_sorted(r@),
        forall|i: int| 0 <= i < r@.len() ==> record_wf(#[trigger] r@[i]@),
{
    broadcast use group_to_multiset_ensures;

    let n = sources.len();
    let mut infos: Vec<FileInfo> = Vec::new();
    proof {
        assert(source_records(sources@.take(0)) =~= Seq::<RecordV>::empty());
        assert(rec_views(infos@) =~= source_records(sources@.take(0)));
    }
    let mut i: usize = 0;
    while i < n
        invariant
            n == sources@.len(),
            0 <= i <= n,
            infos@.len() == i,
            rec_views(infos@) == source_records(sources@.take(i as int)),
            forall|j: int| 0 <= j < infos@.len() ==> record_wf(#[trigger] infos@[j]@),
        decreases n - i,
    {
        let md = sources[i].metadata.as_ref();
        let fi = FileInfo::new_from_path(sources[i].path.as_str(), md);
        proof {
            assert(md_view(md) == (match sources[i as int].metadata {
                Option::None => Option::<Seq<(Seq<char>, Seq<char>)>>::None,
                Option::Some(m) => Option::Some(m@),
            }));
        }
        proof {
            assert(fi@ == source_record(sources@[i as int]));
        }
        let ghost old_infos = infos@;
        infos.push(fi);
        proof {
            let ghost target = source_records(sources@.take(i as int + 1));
            assert(target.len() == i + 1);
            assert forall|j: int| 0 <= j < infos@.len() implies rec_views(infos@)[j] == target[j] by {
                assert(sources@.take(i as int + 1)[j] == sources@[j]);
                if j < i {
                    assert(sources@.take(i as int)[j] == sources@[j]);
                    assert(rec_views(old_infos)[j] == source_records(sources@.take(i as int))[j]);
                    assert(infos@[j] == old_infos[j]);
                }
            }
            assert(rec_views(infos@) =~= source_records(sources@.take(i as int + 1)));
        }
        i = i + 1;
    }
    proof {
        assert(sources@.take(n as int) =~= sources@);
    }
    // Insertion sort into the visible order, draining the built list.
    let ghost all = rec_views(infos@);
    let mut out: Vec<FileInfo> = Vec::new();
    let mut rest = infos;
    proof {
        assert(rec_views(out@).to_multiset().add(rec_views(rest@).to_multiset()) =~= all
            .to_multiset());
    }
    while rest.len() > 0
        invariant
            records_sorted(out@),
            rec_views(out@).to_multiset().add(rec_views(rest@).to_multiset()) == all.to_multiset(),
            forall|j: int| 0 <= j < rest@.len() ==> record_wf(#[trigger] rest@[j]@),
            forall|j: int| 0 <= j < out@.len() ==> record_wf(#[trigger] out@[j]@),
        decreases rest@.len(),
    {
        let ghost pre = rest@;
        let x = match rest.pop() {
            Option::Some(v) => v,
            Option::None => { return out },
        };
        let k = find_record_pos(&out, &x);
        let ghost old_out = out@;
        let ghost gx = x;
        out.insert(k, x);
        proof {
            broadcast use group_to_multiset_ensures;
            broadcast use vstd::multiset::group_multiset_axioms;

            old_out.insert_ensures(k as int, gx);
            assert(rec_views(out@) =~= rec_views(old_out).insert(k as int, gx@));
            vstd::seq_lib::to_multiset_insert(rec_views(old_out), k as int, gx@);
            assert(rec_views(rest@) =~= rec_views(pre).remove(pre.len() - 1));
            vstd::seq_lib::to_multiset_remove(rec_views(pre), pre.len() - 1);
            assert(rec_views(pre)[pre.len() - 1] == gx@);
            assert(rec_views(out@).to_multiset().add(rec_views(rest@).to_multiset()) =~= all
                .to_multiset());
            assert forall|p: int, q: int| #![trigger out@[p], out@[q]] 0 <= p <= q < out@.len()
                implies date_order(out@[p].date, out@[q].date) by {
                if q < k {
                    assert(date_order(old_out[p].date, old_out[q].date));
                } else if p < k && q == k {
                    assert(date_order(old_out[p].date, gx.date));
                } else if p < k && q > k {
                    assert(date_order(old_out[p].date, old_out[q - 1].date));
                } else if p == k && q > k {
                    assert(date_order(gx.date, old_out[k as int].date));
                    assert(date_order(old_out[k as int].date, old_out[q - 1].date));
                } else if p > k {
                    assert(date_order(old_out[p - 1].date, old_out[q - 1].date));
                }
            }
        }
    }
    proof {
        assert(rec_views(rest@).to_multiset() =~= Multiset::<RecordV>::empty());
        assert(rec_views(out@).to_multiset() =~= all.to_multiset());
    }
    out
}

/// A directory's photo set: the scanned root and its ordered records.
pub struct Collection {
    pub path: String,
    pub file_infos: Vec<FileInfo>,
}

impl Collection {
    /// Builds the snapshot of a directory from the sources read under
    /// it: one record per source, in the visible order.
    pub fn new(path: &str, sources: Vec<PhotoSource>) -> (r: Collection)
        ensures
            r.path@ == path@,
            rec_views(r.file_infos@).to_multiset() == source_records(sources@).to_multiset(),
            records_sorted(r.file_infos@),
            forall|i: int| 0 <= i < r.file_infos@.len() ==> record_wf(#[trigger] r.file_infos@[i]@),
    {
        Collection { path: String::from_str(path), file_infos: get_fileinfos(sources) }
    }
}

/// In a sorted record list every date-less record stands before every
/// dated one, and the dated records are non-increasing by date.
pub proof fn lemma_sorted_shape(s: Seq<FileInfo>)
    requires
        records_sorted(s),
    ensures
        forall|i: int, j: int| #![trigger s[i], s[j]] 0 <= i <= j < s.len() && s[j].date is None
            ==> s[i].date is None,
        forall|i: int, j: int| #![trigger s[i], s[j]] 0 <= i <= j < s.len() && s[i].date is Some
            && s[j].date is Some ==> date_le(s[j].date->0, s[i].date->0),
{
}

} // verus!
