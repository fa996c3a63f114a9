//! The metadata tags of one photo, as the tool sees them.
//!
//! The on-disk EXIF codec is an outside capability: callers read a file's
//! tags into a [`Metadata`] value and perform the writes it accumulates.
//! Here a tag set is a sequence of `(name, value)` string pairs; reading
//! finds the first pair with a name, and writing replaces the value of
//! that pair or appends a new one.

use vstd::prelude::*;
use vstd::string::StrSliceExecFns;
use vstd::string::StringExecFns;

verus! {

/// The view of a tag list: each pair of strings as a pair of character
/// sequences.
pub open spec fn tag_views(tags: Seq<(String, String)>) -> Seq<(Seq<char>, Seq<char>)> {
    tags.map_values(|t: (String, String)| (t.0@, t.1@))
}

/// The value of the first tag named `key`, if any.
pub open spec fn spec_lookup(tags: Seq<(Seq<char>, Seq<char>)>, key: Seq<char>) -> Option<
    Seq<char>,
>
    decreases tags.len(),
{
    if tags.len() == 0 {
        None
    } else if tags[0].0 == key {
        Some(tags[0].1)
    } else {
        spec_lookup(tags.drop_first(), key)
    }
}

/// The tag list after setting `key` to `value`: the first tag named
/// `key` gets the new value, or a new tag is appended.
pub open spec fn spec_set_tag(
    tags: Seq<(Seq<char>, Seq<char>)>,
    key: Seq<char>,
    value: Seq<char>,
) -> Seq<(Seq<char>, Seq<char>)>
    decreases tags.len(),
{
    if tags.len() == 0 {
        seq![(key, value)]
    } else if tags[0].0 == key {
        seq![(tags[0].0, value)] + tags.drop_first()
    } else {
        seq![tags[0]] + spec_set_tag(tags.drop_first(), key, value)
    }
}

/// Reading a tag just after setting it gives the value written.
pub proof fn lemma_lookup_after_set(
    tags: Seq<(Seq<char>, Seq<char>)>,
    key: Seq<char>,
    value: Seq<char>,
)
    ensures
        spec_lookup(spec_set_tag(tags, key, value), key) == Some(value),
    decreases tags.len(),
{
    if tags.len() == 0 {
    } else if tags[0].0 == key {
    } else {
        lemma_lookup_after_set(tags.drop_first(), key, value);
        assert(spec_set_tag(tags, key, value).drop_first() =~= spec_set_tag(
            tags.drop_first(),
            key,
            value,
        ));
    }
}

/// Setting one tag leaves every other tag name unchanged.
pub proof fn lemma_lookup_after_set_other(
    tags: Seq<(Seq<char>, Seq<char>)>,
    key: Seq<char>,
    value: Seq<char>,
    other: Seq<char>,
)
    requires
        other != key,
    ensures
        spec_lookup(spec_set_tag(tags, key, value), other) == spec_lookup(tags, other),
    decreases tags.len(),
{
    reveal_with_fuel(spec_lookup, 3);
    if tags.len() == 0 {
        assert(spec_set_tag(tags, key, value)[0] == (key, value));
        assert(spec_set_tag(tags, key, value).drop_first() =~= Seq::<(Seq<char>, Seq<char>)>::empty());
    } else if tags[0].0 == key {
        assert(spec_set_tag(tags, key, value)[0] == (tags[0].0, value));
        assert(spec_set_tag(tags, key, value).drop_first() =~= tags.drop_first());
    } else {
        assert(spec_set_tag(tags, key, value)[0] == tags[0]);
        lemma_lookup_after_set_other(tags.drop_first(), key, value, other);
        assert(spec_set_tag(tags, key, value).drop_first() =~= spec_set_tag(
            tags.drop_first(),
            key,
            value,
        ));
    }
}

/// Writing a value a tag already holds changes nothing.
pub proof fn lemma_set_tag_noop(tags: Seq<(Seq<char>, Seq<char>)>, key: Seq<char>, value: Seq<char>)
    requires
        spec_lookup(tags, key) == Some(value),
    ensures
        spec_set_tag(tags, key, value) == tags,
    decreases tags.len(),
{
    if tags.len() == 0 {
    } else if tags[0].0 == key {
        assert(spec_set_tag(tags, key, value) =~~= tags);
    } else {
        lemma_set_tag_noop(tags.drop_first(), key, value);
        assert(spec_set_tag(tags, key, value) =~~= tags);
    }
}

/// Character-wise string equality.
pub fn str_eq(a: &str, b: &str) -> (r: bool)
    ensures
        r == (a@ == b@),
{
    let n = a.unicode_len();
    if n != b.unicode_len() {
        return false;
    }
    let mut i: usize = 0;
    while i < n
        invariant
            n == a@.len() == b@.len(),
            0 <= i <= n,
            forall|j: int| 0 <= j < i ==> a@[j] == b@[j],
        decreases n - i,
    {
        if a.get_char(i) != b.get_char(i) {
            return false;
        }
        i = i + 1;
    }
    proof {
        assert(a@ =~= b@);
    }
    true
}

/// An in-memory snapshot of one photo file's metadata tags.  Callers
/// load it from the on-disk metadata and write back the tags it holds.
pub struct Metadata {
    pub tags: Vec<(String, String)>,
}

impl View for Metadata {
    type V = Seq<(Seq<char>, Seq<char>)>;

    open spec fn view(&self) -> Seq<(Seq<char>, Seq<char>)> {
        tag_views(self.tags@)
    }
}

impl Metadata {
    /// An empty tag set.
    pub fn new() -> (r: Metadata)
        ensures
            r@ =~= Seq::<(Seq<char>, Seq<char>)>::empty(),
    {
        Metadata { tags: Vec::new() }
    }

    /// Wraps a list of `(name, value)` pairs read from a file.
    pub fn from_tags(tags: Vec<(String, String)>) -> (r: Metadata)
        ensures
            r@ == tag_views(tags@),
    {
        Metadata { tags }
    }

    /// The value of the first tag named `key`, if any.
    pub fn get_tag_string(&self, key: &str) -> (r: Option<String>)
        ensures
            match r {
                Some(v) => spec_lookup(self@, key@) == Some(v@),
                None => spec_lookup(self@, key@) is None,
            },
    {
        let n = self.tags.len();
        let mut i: usize = 0;
        proof {
            assert(self@.skip(0) =~= self@);
        }
        while i < n
            invariant
                n == self.tags@.len(),
                0 <= i <= n,
                spec_lookup(self@, key@) == spec_lookup(self@.skip(i as int), key@),
            decreases n - i,
        {
            proof {
                assert(self@.skip(i as int)[0] == self@[i as int]);
                assert(self@.skip(i as int).drop_first() =~= self@.skip(i as int + 1));
            }
            if str_eq(self.tags[i].0.as_str(), key) {
                return Some(self.tags[i].1.clone());
            }
            i = i + 1;
        }
        proof {
            assert(self@.skip(n as int) =~= Seq::<(Seq<char>, Seq<char>)>::empty());
        }
        None
    }

    /// Sets `key` to `value`: overwrites the first tag with that name,
    /// or appends a new tag.
    pub fn set_tag_string(&mut self, key: &str, value: &str)
        ensures
            final(self)@ == spec_set_tag(old(self)@, key@, value@),
    {
        let n = self.tags.len();
        let mut i: usize = 0;
        while i < n
            invariant
                self@ == old(self)@,
                self.tags@ == old(self).tags@,
                n == self.tags@.len(),
                0 <= i <= n,
                forall|j: int| 0 <= j < i ==> self@[j].0 != key@,
            decreases n - i,
        {
            if str_eq(self.tags[i].0.as_str(), key) {
                let name = self.tags[i].0.clone();
                self.tags[i] = (name, String::from_str(value));
                proof {
                    lemma_set_tag_is_update(old(self)@, key@, value@, i as int);
                    assert(self@ =~~= old(self)@.update(
                        i as int,
                        (old(self)@[i as int].0, value@),
                    ));
                }
                return ;
            }
            i = i + 1;
        }
        self.tags.push((String::from_str(key), String::from_str(value)));
        proof {
            lemma_set_tag_is_push(old(self)@, key@, value@);
            assert(self@ =~~= old(self)@.push((key@, value@)));
        }
    }
}

/// When the first tag named `key` stands at position `i`, setting the
/// tag updates exactly that position.
proof fn lemma_set_tag_is_update(
    tags: Seq<(Seq<char>, Seq<char>)>,
    key: Seq<char>,
    value: Seq<char>,
    i: int,
)
    requires
        0 <= i < tags.len(),
        tags[i].0 == key,
        forall|j: int| 0 <= j < i ==> tags[j].0 != key,
    ensures
        spec_set_tag(tags, key, value) == tags.update(i, (tags[i].0, value)),
    decreases i,
{
    if i == 0 {
        assert(spec_set_tag(tags, key, value) =~~= tags.update(0, (tags[0].0, value)));
    } else {
        lemma_set_tag_is_update(tags.drop_first(), key, value, i - 1);
        assert(tags.drop_first()[i - 1] == tags[i]);
        assert(spec_set_tag(tags, key, value) =~~= tags.update(i, (tags[i].0, value)));
    }
}

/// When no tag is named `key`, setting the tag appends it.
proof fn lemma_set_tag_is_push(tags: Seq<(Seq<char>, Seq<char>)>, key: Seq<char>, value: Seq<char>)
    requires
        forall|j: int| 0 <= j < tags.len() ==> tags[j].0 != key,
    ensures
        spec_set_tag(tags, key, value) == tags.push((key, value)),
    decreases tags.len(),
{
    if tags.len() == 0 {
        assert(spec_set_tag(tags, key, value) =~~= tags.push((key, value)));
    } else {
        lemma_set_tag_is_push(tags.drop_first(), key, value);
        assert(spec_set_tag(tags, key, value) =~~= tags.push((key, value)));
    }
}

} // verus!
