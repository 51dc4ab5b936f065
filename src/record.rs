//! The records that the aggregates are made of: where a local copy lives, what a
//! repository says of a family, and what is known of a family's local copy.
use vstd::prelude::*;

use crate::keyed::StrMap;

verus! {

/// The view of a list of texts.
pub open spec fn texts_view(v: Seq<String>) -> Seq<Seq<char>> {
    v.map_values(|s: String| s@)
}

/// The view of an optional text.
pub open spec fn opt_text_view(o: Option<String>) -> Option<Seq<char>> {
    match o {
        Some(s) => Some(s@),
        None => None,
    }
}

/// Where a local copy of a family lives.
#[derive(PartialEq, Eq, Structural, Clone, Copy, Debug, Hash)]
pub enum Location {
    /// Under the user's home directory.
    User,
    /// Elsewhere on the file system.
    System,
    /// Reported by the operating system without a file.
    Memory,
}

/// What one repository's catalog says of one family.
#[derive(Debug)]
pub struct RepoFont {
    pub kind: Option<String>,
    pub family: String,
    pub variants: Vec<String>,
    pub subsets: Option<Vec<String>>,
    pub version: Option<String>,
    /// A date written `YYYY-MM-DD`.
    pub last_modified: Option<String>,
    /// Variant name to download URL.
    pub files: StrMap<String>,
    pub commentary: Option<String>,
    pub creator: Option<String>,
}

pub struct RepoFontView {
    pub kind: Option<Seq<char>>,
    pub family: Seq<char>,
    pub variants: Seq<Seq<char>>,
    pub subsets: Option<Seq<Seq<char>>>,
    pub version: Option<Seq<char>>,
    pub last_modified: Option<Seq<char>>,
    pub files: Seq<(Seq<char>, Seq<char>)>,
    pub commentary: Option<Seq<char>>,
    pub creator: Option<Seq<char>>,
}

impl View for RepoFont {
    type V = RepoFontView;

    open spec fn view(&self) -> RepoFontView {
        RepoFontView {
            kind: opt_text_view(self.kind),
            family: self.family@,
            variants: texts_view(self.variants@),
            subsets: match self.subsets {
                Some(v) => Some(texts_view(v@)),
                None => None,
            },
            version: opt_text_view(self.version),
            last_modified: opt_text_view(self.last_modified),
            files: self.files@,
            commentary: opt_text_view(self.commentary),
            creator: opt_text_view(self.creator),
        }
    }
}

/// What is known of a family's copy at one location; an absent field has not
/// been looked up yet.
#[derive(Debug)]
pub struct LocalFont {
    pub family: Option<String>,
    pub variants: Option<Vec<String>>,
    /// Variant name to file path.
    pub files: Option<StrMap<String>>,
    /// Seconds since the Unix epoch, rounded down.
    pub last_modified: Option<i64>,
    pub installed: Option<bool>,
}

pub struct LocalFontView {
    pub family: Option<Seq<char>>,
    pub variants: Option<Seq<Seq<char>>>,
    pub files: Option<Seq<(Seq<char>, Seq<char>)>>,
    pub last_modified: Option<i64>,
    pub installed: Option<bool>,
}

impl View for LocalFont {
    type V = LocalFontView;

    open spec fn view(&self) -> LocalFontView {
        LocalFontView {
            family: opt_text_view(self.family),
            variants: match self.variants {
                Some(v) => Some(texts_view(v@)),
                None => None,
            },
            files: match self.files {
                Some(m) => Some(m@),
                None => None,
            },
            last_modified: self.last_modified,
            installed: self.installed,
        }
    }
}

/// The record left at a location once its copy was removed.
pub open spec fn uninstalled_view() -> LocalFontView {
    LocalFontView { family: None, variants: None, files: None, last_modified: None, installed: Some(false) }
}

impl LocalFontView {
    /// Whether this is the record of a removed copy: nothing is left to look up.
    pub open spec fn is_uninstalled(self) -> bool {
        self.installed == Some(false)
    }
}

impl LocalFont {
    /// A record that names its family and holds nothing else yet.
    pub fn unresolved(family: String) -> (r: LocalFont)
        ensures
            r@ == (LocalFontView { family: Some(family@), variants: None, files: None, last_modified: None, installed: None }),
    {
        LocalFont { family: Some(family), variants: None, files: None, last_modified: None, installed: None }
    }

    /// The record of a removed copy.
    pub fn uninstalled() -> (r: LocalFont)
        ensures
            r@ == uninstalled_view(),
    {
        LocalFont { family: None, variants: None, files: None, last_modified: None, installed: Some(false) }
    }
}

/// A copy of a list of texts.
pub fn copy_texts(v: &Vec<String>) -> (r: Vec<String>)
    ensures
        texts_view(r@) == texts_view(v@),
{
    let r = v.clone();
    assert(texts_view(r@) =~= texts_view(v@)) by {
        assert forall|i: int| 0 <= i < v@.len() implies r@[i] == v@[i] by {
            assert(cloned::<String>(v[i], r[i]));
        }
    }
    r
}

/// A copy of an optional text.
pub fn copy_opt_text(o: &Option<String>) -> (r: Option<String>)
    ensures
        opt_text_view(r) == opt_text_view(*o),
{
    match o {
        Some(s) => Some(s.clone()),
        None => None,
    }
}

impl StrMap<String> {
    /// A copy of this map.
    pub fn copy(&self) -> (r: StrMap<String>)
        ensures
            r@ == self@,
    {
        let mut r = StrMap::new();
        let mut i: usize = 0;
        let n = self.len();
        while i < n
            invariant
                n == self@.len(),
                i <= n,
                r@ == self@.subrange(0, i as int),
                crate::keyed::keys_unique(self@),
            decreases n - i,
        {
            let k = self.key_at(i).clone();
            let v = self.value_at(i).clone();
            proof {
                crate::keyed::lemma_index_of(r@, k@);
                if crate::keyed::has_key(r@, k@) {
                    let j = crate::keyed::index_of(r@, k@);
                    assert(self@[j].0 == self@[i as int].0);
                }
                assert(r@.push((k@, v@)) =~= self@.subrange(0, i + 1));
            }
            r.insert(k, v);
            i = i + 1;
        }
        assert(self@.subrange(0, n as int) =~= self@);
        r
    }
}

} // verus!
