//! Helpers shared by the metrics: the counter files as one cycle read them,
//! text cut into lines and fields, and values taken out of a line by a
//! regular expression.

use crate::matching::captures;
use crate::matching::find_captures;
use crate::table::Table;
use crate::text::lines;
use crate::text::lines_of;
use crate::text::parse_i32;
use crate::text::parse_u64;
use crate::text::signed;
use crate::text::split;
use crate::text::split_at;
use crate::text::unsigned;
use crate::text::views;
use regex::Regex;
use vstd::prelude::*;

verus! {

/// The counter files that were read for one cycle: for each path, the whole
/// text of the file. A path that is not there stands for a file that could
/// not be read.
pub struct Counters {
    files: Table<String>,
}

impl Counters {
    /// The text read from `path`; `None` where the file could not be read.
    pub closed spec fn text(&self, path: Seq<char>) -> Option<Seq<char>> {
        if self.files@.contains_key(path) {
            Some(self.files@[path]@)
        } else {
            None
        }
    }

    /// No file at all.
    pub fn new() -> (c: Self)
        ensures
            forall|p: Seq<char>| c.text(p) is None,
    {
        Counters { files: Table::new() }
    }

    /// Records that `text` was read from `path`, in place of what was
    /// recorded for that path before.
    pub fn put(&mut self, path: String, text: String)
        ensures
            forall|p: Seq<char>|
                final(self).text(p) == if p == path@ {
                    Some(text@)
                } else {
                    old(self).text(p)
                },
    {
        self.files.insert(path, text);
    }
}

/// The lines of a counter file; none where the file could not be read.
pub open spec fn lines_or_none(text: Option<Seq<char>>) -> Seq<Seq<char>> {
    match text {
        Some(t) => lines(t),
        None => Seq::empty(),
    }
}

/// The whole text of the counter file at `path`, given relative to the
/// root of the counter file system, as in `"/net/dev"`.
pub fn read_procfs_file(counters: &Counters, path: String) -> (r: Option<String>)
    ensures
        r.deep_view() == counters.text(path@),
{
    match counters.files.get(&path) {
        Some(t) => Some(t.clone()),
        None => None,
    }
}

/// The lines of the counter file at `path`.
pub fn get_procfs_file_lines(counters: &Counters, path: String) -> (r: Option<Vec<String>>)
    ensures
        match counters.text(path@) {
            Some(t) => r matches Some(v) && views(v@) == lines(t),
            None => r is None,
        },
{
    match counters.files.get(&path) {
        Some(t) => Some(lines_of(t.as_str())),
        None => None,
    }
}

/// Splits a string at commas (',') and returns the list of the elements
/// separated. A string without a comma is its own single element.
pub fn commaseparated_to_vec(s: String) -> (r: Vec<String>)
    ensures
        views(r@) == split(s@, ','),
{
    split_at(s.as_str(), ',')
}

/// A type of values that can be read out of the text that a group of a
/// regular expression took.
pub trait FromCapture: Sized + DeepView {
    /// The value that `text` stands for; `None` where it stands for none.
    spec fn reading(text: Seq<char>) -> Option<<Self as DeepView>::V>;

    /// Reads `text`.
    fn read(text: &str) -> (r: Option<Self>)
        ensures
            r.deep_view() == Self::reading(text@),
    ;

    /// A copy of `self`.
    fn dup(&self) -> (r: Self)
        ensures
            r.deep_view() == self.deep_view(),
    ;
}

impl FromCapture for u64 {
    open spec fn reading(text: Seq<char>) -> Option<u64> {
        match unsigned(text, u64::MAX as nat) {
            Some(n) => Some(n as u64),
            None => None,
        }
    }

    fn read(text: &str) -> (r: Option<u64>) {
        parse_u64(text)
    }

    fn dup(&self) -> (r: u64) {
        *self
    }
}

impl FromCapture for i32 {
    open spec fn reading(text: Seq<char>) -> Option<i32> {
        match signed(text, i32::MIN as int, i32::MAX as int) {
            Some(n) => Some(n as i32),
            None => None,
        }
    }

    fn read(text: &str) -> (r: Option<i32>) {
        parse_i32(text)
    }

    fn dup(&self) -> (r: i32) {
        *self
    }
}

impl FromCapture for String {
    open spec fn reading(text: Seq<char>) -> Option<Seq<char>> {
        Some(text)
    }

    fn read(text: &str) -> (r: Option<String>) {
        Some(String::from_str(text))
    }

    fn dup(&self) -> (r: String) {
        self.clone()
    }
}

/// The value of one group: what its text stands for, or `default` where the
/// group took no part in the match or its text stands for no value.
pub open spec fn group_value<T: FromCapture>(
    group: Option<Seq<char>>,
    default: <T as DeepView>::V,
) -> <T as DeepView>::V {
    match group {
        Some(text) => match T::reading(text) {
            Some(v) => v,
            None => default,
        },
        None => default,
    }
}

/// The values of the groups of a match, the whole match (group 0) left
/// out; no value at all where there was no match.
pub open spec fn extracted<T: FromCapture>(
    groups: Option<Seq<Option<Seq<char>>>>,
    default: <T as DeepView>::V,
) -> Seq<<T as DeepView>::V> {
    match groups {
        None => Seq::empty(),
        Some(g) => Seq::new(
            if g.len() >= 1 {
                (g.len() - 1) as nat
            } else {
                0
            },
            |i: int| group_value::<T>(g[i + 1], default),
        ),
    }
}

/// Turns what a search returned into values: see `extracted`.
pub fn collect_captures<T: FromCapture>(groups: Option<Vec<Option<String>>>, default: T) -> (r:
    Vec<T>)
    ensures
        r.deep_view() == extracted::<T>(groups.deep_view(), default.deep_view()),
{
    let mut r: Vec<T> = Vec::new();
    match groups {
        None => {
            assert(r.deep_view() =~= Seq::empty());
        },
        Some(g) => {
            let ghost want = extracted::<T>(Some(g.deep_view()), default.deep_view());
            let mut i: usize = 1;
            assert(r.deep_view() =~= want.take(0));
            while i < g.len()
                invariant
                    1 <= i,
                    g.len() >= 1 ==> i <= g.len(),
                    g.len() == 0 ==> i == 1,
                    want == extracted::<T>(Some(g.deep_view()), default.deep_view()),
                    r.deep_view() == want.take(i - 1),
                decreases g.len() - i,
            {
                let v = match &g[i] {
                    Some(text) => match T::read(text.as_str()) {
                        Some(v) => v,
                        None => default.dup(),
                    },
                    None => default.dup(),
                };
                let ghost seen = r.deep_view();
                let ghost value = v.deep_view();
                r.push(v);
                proof {
                    assert(g.deep_view()[i as int] == g[i as int].deep_view());
                    assert(value == want[i - 1]);
                    assert(r.deep_view() =~= seen.push(value));
                    assert(want.take(i - 1).push(want[i - 1]) =~= want.take(i as int));
                }
                i = i + 1;
            }
            proof {
                assert(g.deep_view().len() == g.len());
                assert(want.len() == if g.len() >= 1 {
                    g.len() - 1
                } else {
                    0
                });
                assert(want.take(want.len() as int) =~= want);
                assert(r.deep_view() == want);
            }
        },
    }
    r
}

/// Return a list of all matches of a regex on a string in the wanted type:
/// one value for each group of the expression, in the order in which the
/// groups open, and none where the expression matches nowhere in `s`.
pub fn extract_from_str<T: FromCapture>(s: &String, re: &Regex, default: T) -> (r: Vec<T>)
    ensures
        r.deep_view() == extracted::<T>(captures(*re, s@), default.deep_view()),
{
    collect_captures(find_captures(re, s.as_str()), default)
}

} // verus!
