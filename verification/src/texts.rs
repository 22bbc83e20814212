//! Pāli texts: JSON files that map segment ids to segment texts.
use crate::table::option_view;
use vstd::prelude::*;
use vstd::std_specs::cmp::PartialEqSpecImpl;
use vstd::std_specs::vec::into_iter_elts;
use vstd::utf8::encode_utf8;

verus! {

#[verifier::external_type_specification]
#[verifier::external_body]
pub struct ExJsonError(serde_json::Error);

/// `a` comes before `b` in lexicographic byte order.
pub open spec fn bytes_lt(a: Seq<u8>, b: Seq<u8>) -> bool {
    ||| (a.len() < b.len() && b.take(a.len() as int) == a)
    ||| exists|i: int| 0 <= i < a.len() && i < b.len() && a.take(i) == b.take(i) && a[i] < b[i]
}

/// `a` comes before `b` in the order of Rust strings: by the bytes of their UTF-8 encodings.
pub open spec fn str_lt(a: Seq<char>, b: Seq<char>) -> bool {
    bytes_lt(encode_utf8(a), encode_utf8(b))
}

/// The entries of the JSON object `json` whose values are all strings, as `serde_json`
/// reads it into a `BTreeMap<String, String>`, in the map's order; `None` when it reports
/// an error.
pub uninterp spec fn json_string_map(json: Seq<char>) -> Option<Seq<(Seq<char>, Seq<char>)>>;

/// The file stem that `std::path::Path::file_stem` gives for `path`, if any.
pub uninterp spec fn file_stem_of(path: Seq<char>) -> Option<Seq<char>>;

/// Reads a JSON object of strings.
///
/// Trusted: calls `serde_json::from_str::<BTreeMap<String, String>>` and lists the map's
/// entries. The contract names the result (`json_string_map`) and states what std documents
/// of a `BTreeMap`: its entries come in ascending key order, so keys are strictly increasing.
#[verifier::external_body]
fn read_json_strings(json: &str) -> (r: Result<Vec<(String, String)>, serde_json::Error>)
    ensures
        match r {
            Ok(entries) => {
                &&& json_string_map(json@) == Some(entries@.map_values(|e: (String, String)| (e.0@, e.1@)))
                &&& forall|i: int, j: int| 0 <= i < j < entries@.len() ==> str_lt(
                    (#[trigger] entries@[i]).0@,
                    (#[trigger] entries@[j]).0@,
                )
            },
            Err(_) => json_string_map(json@) is None,
        },
{
    let map: std::collections::BTreeMap<String, String> = serde_json::from_str(json)?;
    Ok(map.into_iter().collect())
}

/// The message of a `serde_json` error.
///
/// Trusted: calls `ToString::to_string` on the error; nothing is stated of the text.
#[verifier::external_body]
pub(crate) fn json_error_message(e: &serde_json::Error) -> String {
    e.to_string()
}

/// The file stem of a path.
///
/// Trusted: calls `std::path::Path::file_stem` and `OsStr::to_str` (which cannot fail on a
/// path made from a `&str`). The contract names the result (`file_stem_of`).
#[verifier::external_body]
fn file_stem(path: &str) -> (r: Option<String>)
    ensures
        match r {
            Some(s) => file_stem_of(path@) == Some(s@),
            None => file_stem_of(path@) is None,
        },
{
    std::path::Path::new(path).file_stem().and_then(|s| s.to_str()).map(String::from)
}

/// One segment of a text: its id and its text.
#[derive(Clone, Debug, PartialOrd)]
pub struct Segment {
    pub uid: String,
    pub text: String,
}

/// The abstract value of a segment.
pub open spec fn segment_view(s: Segment) -> (Seq<char>, Seq<char>) {
    (s.uid@, s.text@)
}

impl Segment {
    /// A copy of the segment.
    pub fn duplicate(&self) -> (out: Segment)
        ensures
            segment_view(out) == segment_view(*self),
    {
        Segment { uid: self.uid.clone(), text: self.text.clone() }
    }
}

impl PartialEq for Segment {
    fn eq(&self, other: &Segment) -> (r: bool) {
        self.uid == other.uid && self.text == other.text
    }
}

impl PartialEqSpecImpl for Segment {
    open spec fn obeys_eq_spec() -> bool {
        true
    }

    open spec fn eq_spec(&self, other: &Segment) -> bool {
        self.uid@ == other.uid@ && self.text@ == other.text@
    }
}

/// A Pāli text: its id (the file stem) and its segments, in ascending order of their ids.
#[derive(Clone, Debug, PartialOrd)]
pub struct PaliText {
    pub uid: String,
    pub segments: Vec<Segment>,
}

/// Why a text could not be read.
#[derive(Debug)]
pub enum TextError {
    /// The path has no file stem.
    BadFileStem,
    /// The file could not be read.
    Unreadable,
    /// The content is not a JSON object of strings; the message of `serde_json`.
    Json(String),
}

impl PaliText {
    /// The segments' ids and texts, in order.
    pub open spec fn segment_views(&self) -> Seq<(Seq<char>, Seq<char>)> {
        self.segments@.map_values(|s: Segment| segment_view(s))
    }

    /// Reads the text in the JSON file at `path` with content `json`: the id is the file
    /// stem, and the segments are the entries of the JSON object, in ascending order of
    /// their ids.
    pub fn parse(path: &str, json: &str) -> (r: Result<PaliText, TextError>)
        ensures
            match r {
                Ok(text) => {
                    &&& file_stem_of(path@) == Some(text.uid@)
                    &&& json_string_map(json@) == Some(text.segment_views())
                    &&& forall|i: int, j: int| 0 <= i < j < text.segments@.len() ==> str_lt(
                        (#[trigger] text.segments@[i]).uid@,
                        (#[trigger] text.segments@[j]).uid@,
                    )
                },
                Err(TextError::BadFileStem) => file_stem_of(path@) is None,
                Err(TextError::Json(_)) => file_stem_of(path@) is Some && json_string_map(json@) is None,
                Err(TextError::Unreadable) => false,
            },
    {
        let uid = match file_stem(path) {
            Some(uid) => uid,
            None => return Err(TextError::BadFileStem),
        };
        let entries = match read_json_strings(json) {
            Ok(entries) => entries,
            Err(e) => return Err(TextError::Json(json_error_message(&e))),
        };
        let text = Self::from_entries(uid, &entries);
        proof {
            let views = entries@.map_values(|e: (String, String)| (e.0@, e.1@));
            assert(text.segment_views().len() == text.segments@.len());
            assert(views.len() == entries@.len());
            assert forall|i: int| 0 <= i < text.segments@.len() implies #[trigger] text.segments@[i].uid@
                == entries@[i].0@ by {
                assert(text.segment_views()[i] == segment_view(text.segments@[i]));
                assert(views[i] == (entries@[i].0@, entries@[i].1@));
            }
            assert forall|i: int, j: int| 0 <= i < j < text.segments@.len() implies str_lt(
                (#[trigger] text.segments@[i]).uid@,
                (#[trigger] text.segments@[j]).uid@,
            ) by {
                assert(text.segments@[i].uid@ == entries@[i].0@);
                assert(text.segments@[j].uid@ == entries@[j].0@);
                assert(str_lt(entries@[i].0@, entries@[j].0@));
            }
        }
        Ok(text)
    }

    /// The text with id `uid` whose segments are `entries` (id and text), in order.
    pub fn from_entries(uid: String, entries: &Vec<(String, String)>) -> (text: PaliText)
        ensures
            text.uid@ == uid@,
            text.segment_views() == entries@.map_values(|e: (String, String)| (e.0@, e.1@)),
    {
        let mut segments: Vec<Segment> = Vec::new();
        let mut i: usize = 0;
        while i < entries.len()
            invariant
                0 <= i <= entries@.len(),
                segments@.len() == i,
                forall|k: int| 0 <= k < i ==> #[trigger] segment_view(segments@[k]) == (entries@[k].0@, entries@[k].1@),
            decreases entries@.len() - i,
        {
            let (k, v) = &entries[i];
            segments.push(Segment { uid: k.clone(), text: v.clone() });
            i = i + 1;
        }
        let text = PaliText { uid, segments };
        proof {
            assert(text.segment_views() =~= entries@.map_values(|e: (String, String)| (e.0@, e.1@)));
        }
        text
    }
}

impl PartialEq for PaliText {
    fn eq(&self, other: &PaliText) -> (r: bool) {
        if self.uid != other.uid {
            return false;
        }
        if self.segments.len() != other.segments.len() {
            proof {
                assert(self.segment_views().len() != other.segment_views().len());
            }
            return false;
        }
        let mut i: usize = 0;
        while i < self.segments.len()
            invariant
                0 <= i <= self.segments@.len(),
                self.segments@.len() == other.segments@.len(),
                forall|k: int| 0 <= k < i ==> segment_view(#[trigger] self.segments@[k]) == segment_view(other.segments@[k]),
            decreases self.segments@.len() - i,
        {
            if self.segments[i] != other.segments[i] {
                proof {
                    assert(self.segment_views()[i as int] != other.segment_views()[i as int]);
                }
                return false;
            }
            i = i + 1;
        }
        proof {
            assert(self.segment_views() =~= other.segment_views());
        }
        true
    }
}

impl PartialEqSpecImpl for PaliText {
    open spec fn obeys_eq_spec() -> bool {
        true
    }

    open spec fn eq_spec(&self, other: &PaliText) -> bool {
        self.uid@ == other.uid@ && self.segment_views() == other.segment_views()
    }
}

impl IntoIterator for PaliText {
    type Item = Segment;
    type IntoIter = std::vec::IntoIter<Segment>;

    /// The segments, in order.
    fn into_iter(self) -> (it: std::vec::IntoIter<Segment>)
        ensures
            into_iter_elts(it) == self.segments@,
    {
        let it = self.segments.into_iter();
        proof {
            broadcast use vstd::std_specs::vec::axiom_spec_into_iter;
        }
        it
    }
}

/// The file stem that marks a Pāli root text.
pub open spec fn pali_file_suffix() -> Seq<char> {
    "root-pli-ms"@
}

/// `s` ends with `suffix`.
pub open spec fn ends_with(s: Seq<char>, suffix: Seq<char>) -> bool {
    suffix.len() <= s.len() && s.skip(s.len() - suffix.len()) == suffix
}

/// Whether `s` ends with `suffix`.
fn str_ends_with(s: &str, suffix: &str) -> (b: bool)
    ensures
        b == ends_with(s@, suffix@),
{
    let n = s.unicode_len();
    let m = suffix.unicode_len();
    if m > n {
        return false;
    }
    let tail = s.substring_char(n - m, n);
    let a = String::from_str(tail);
    let b = String::from_str(suffix);
    proof {
        assert(s@.subrange(n - m, n as int) =~= s@.skip(n - m));
    }
    a == b
}

/// The texts under one directory: files whose stem ends with `root-pli-ms`.
#[derive(Clone, Debug)]
pub struct PaliFiles {
    location: String,
}

/// The segments that a file gives: those of the JSON object in `json` when the file could
/// be read, its path has a file stem and its content is a JSON object of strings; else none.
pub open spec fn file_segments(path: Seq<char>, json: Option<Seq<char>>) -> Seq<(Seq<char>, Seq<char>)> {
    match json {
        None => Seq::empty(),
        Some(j) => match (file_stem_of(path), json_string_map(j)) {
            (Some(_), Some(entries)) => entries,
            _ => Seq::empty(),
        },
    }
}

/// The segments of all files, in order.
pub open spec fn files_segments(files: Seq<(Seq<char>, Option<Seq<char>>)>) -> Seq<(Seq<char>, Seq<char>)>
    decreases files.len(),
{
    if files.len() == 0 {
        Seq::empty()
    } else {
        files_segments(files.drop_last()) + file_segments(files.last().0, files.last().1)
    }
}

/// The views of a list of files, each a path and its content if it could be read.
pub open spec fn file_views(files: Seq<(String, Option<String>)>) -> Seq<(Seq<char>, Option<Seq<char>>)> {
    files.map_values(|f: (String, Option<String>)| (f.0@, option_view(f.1)))
}

impl PaliFiles {
    /// The texts under `location`.
    pub fn new(location: String) -> (f: PaliFiles)
        ensures
            f.location() == location@,
    {
        PaliFiles { location }
    }

    /// The directory of the texts.
    pub closed spec fn location(&self) -> Seq<char> {
        self.location@
    }

    /// The directory of the texts.
    pub fn location_str(&self) -> (s: &str)
        ensures
            s@ == self.location(),
    {
        self.location.as_str()
    }

    /// Whether the entry at `path` is a Pāli text: a regular file whose stem ends with
    /// `root-pli-ms`.
    pub fn is_pali_file(path: &str, is_file: bool) -> (b: bool)
        ensures
            b == (is_file && match file_stem_of(path@) {
                Some(stem) => ends_with(stem, pali_file_suffix()),
                None => false,
            }),
    {
        if !is_file {
            return false;
        }
        match file_stem(path) {
            Some(stem) => Self::is_pali_stem(stem.as_str()),
            None => false,
        }
    }

    /// Whether a file stem marks a Pāli root text: it ends with `root-pli-ms`.
    pub fn is_pali_stem(stem: &str) -> (b: bool)
        ensures
            b == ends_with(stem@, pali_file_suffix()),
    {
        str_ends_with(stem, "root-pli-ms")
    }

    /// The texts of the given files, each a path and its content (`None` when it could not
    /// be read), in order.
    pub fn texts(&self, files: Vec<(String, Option<String>)>) -> (out: Vec<Result<PaliText, TextError>>)
        ensures
            out@.len() == files@.len(),
            forall|i: int| 0 <= i < files@.len() ==> match (#[trigger] files@[i]).1 {
                None => out@[i] matches Err(TextError::Unreadable),
                Some(json) => match out@[i] {
                    Ok(text) => file_stem_of(files@[i].0@) == Some(text.uid@) && json_string_map(json@)
                        == Some(text.segment_views()),
                    Err(TextError::BadFileStem) => file_stem_of(files@[i].0@) is None,
                    Err(TextError::Json(_)) => file_stem_of(files@[i].0@) is Some && json_string_map(json@) is None,
                    Err(TextError::Unreadable) => false,
                },
            },
    {
        let mut out: Vec<Result<PaliText, TextError>> = Vec::new();
        let mut i: usize = 0;
        while i < files.len()
            invariant
                0 <= i <= files@.len(),
                out@.len() == i,
                forall|k: int| 0 <= k < i ==> match (#[trigger] files@[k]).1 {
                    None => out@[k] matches Err(TextError::Unreadable),
                    Some(json) => match out@[k] {
                        Ok(text) => file_stem_of(files@[k].0@) == Some(text.uid@) && json_string_map(json@)
                            == Some(text.segment_views()),
                        Err(TextError::BadFileStem) => file_stem_of(files@[k].0@) is None,
                        Err(TextError::Json(_)) => file_stem_of(files@[k].0@) is Some && json_string_map(json@) is None,
                        Err(TextError::Unreadable) => false,
                    },
                },
            decreases files@.len() - i,
        {
            let text = match &files[i].1 {
                None => Err(TextError::Unreadable),
                Some(json) => PaliText::parse(files[i].0.as_str(), json.as_str()),
            };
            out.push(text);
            i = i + 1;
        }
        out
    }

    /// The segments of all texts of the given files that could be read and parsed, in
    /// order.
    pub fn segments(&self, files: Vec<(String, Option<String>)>) -> (out: Vec<Segment>)
        ensures
            out@.map_values(|s: Segment| segment_view(s)) == files_segments(file_views(files@)),
    {
        let ghost fv = file_views(files@);
        let texts = self.texts(files);
        let mut out: Vec<Segment> = Vec::new();
        let mut i: usize = 0;
        proof {
            assert(fv.take(0) =~= Seq::<(Seq<char>, Option<Seq<char>>)>::empty());
            assert(out@.map_values(|s: Segment| segment_view(s)) =~= Seq::<(Seq<char>, Seq<char>)>::empty());
        }
        while i < texts.len()
            invariant
                0 <= i <= texts@.len(),
                texts@.len() == files@.len(),
                fv == file_views(files@),
                forall|k: int| 0 <= k < files@.len() ==> match (#[trigger] files@[k]).1 {
                    None => texts@[k] matches Err(TextError::Unreadable),
                    Some(json) => match texts@[k] {
                        Ok(text) => file_stem_of(files@[k].0@) == Some(text.uid@) && json_string_map(json@)
                            == Some(text.segment_views()),
                        Err(TextError::BadFileStem) => file_stem_of(files@[k].0@) is None,
                        Err(TextError::Json(_)) => file_stem_of(files@[k].0@) is Some && json_string_map(json@) is None,
                        Err(TextError::Unreadable) => false,
                    },
                },
                out@.map_values(|s: Segment| segment_view(s)) == files_segments(fv.take(i as int)),
            decreases texts@.len() - i,
        {
            proof {
                assert(fv.take(i as int + 1).drop_last() =~= fv.take(i as int));
                assert(fv.take(i as int + 1).last() == fv[i as int]);
                let _ = files@[i as int];
            }
            match &texts[i] {
                Ok(text) => {
                    let ghost before = out@.map_values(|s: Segment| segment_view(s));
                    let mut j: usize = 0;
                    proof {
                        assert(text.segment_views().take(0) =~= Seq::<(Seq<char>, Seq<char>)>::empty());
                        assert(before + Seq::<(Seq<char>, Seq<char>)>::empty() =~= before);
                    }
                    while j < text.segments.len()
                        invariant
                            0 <= j <= text.segments@.len(),
                            out@.map_values(|s: Segment| segment_view(s)) == before + text.segment_views().take(j as int),
                        decreases text.segments@.len() - j,
                    {
                        let ghost prev = out@;
                        let seg = text.segments[j].duplicate();
                        out.push(seg);
                        proof {
                            assert(out@ == prev.push(seg));
                            assert(prev.push(seg).map_values(|s: Segment| segment_view(s)) =~= prev.map_values(|s: Segment| segment_view(s)).push(segment_view(seg)));
                            assert(text.segment_views()[j as int] == segment_view(text.segments@[j as int]));
                            assert(out@.map_values(|s: Segment| segment_view(s)) =~= before + text.segment_views().take(j as int + 1));
                        }
                        j = j + 1;
                    }
                    proof {
                        assert(text.segment_views().take(j as int) =~= text.segment_views());
                    }
                },
                Err(_) => {
                    proof {
                        assert(file_segments(fv[i as int].0, fv[i as int].1) =~= Seq::<(Seq<char>, Seq<char>)>::empty());
                        assert(files_segments(fv.take(i as int)) + Seq::<(Seq<char>, Seq<char>)>::empty() =~= files_segments(fv.take(i as int)));
                    }
                },
            }
            i = i + 1;
        }
        proof {
            assert(fv.take(files@.len() as int) =~= fv);
        }
        out
    }
}

} // verus!
