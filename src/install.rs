//! Install and uninstall: where a family's files go, and the state an aggregate
//! is left in once a copy is removed.
use vstd::prelude::*;
use vstd::string::*;

use crate::font::{resolved_by, Attribute, Font, FontView};
use crate::record::{texts_view, uninstalled_view, LocalFont, Location};
use crate::keyed::StrMap;
use crate::text::{after_last_dot, extension_of};

verus! {

/// The path of `name` inside directory `base`, as `std::path::Path::join` builds it.
pub uninterp spec fn joined_path(base: Seq<char>, name: Seq<char>) -> Seq<char>;

/// Relies on `std::path::Path::join` for the path of `name` inside `base`; the
/// text is read back with `to_string_lossy`, which changes nothing in a path
/// made of two `str`. The outcome depends on the two texts alone.
#[verifier::external_body]
fn join_path(base: &str, name: &str) -> (r: String)
    ensures
        r@ == joined_path(base@, name@),
{
    std::path::Path::new(base).join(name).to_string_lossy().into_owned()
}

/// The view of an optional repository name.
pub open spec fn opt_str_view(o: Option<&str>) -> Option<Seq<char>> {
    match o {
        Some(s) => Some(s@),
        None => None,
    }
}

/// The repository an install uses: the one named, else the first that offers the
/// family, else none (an empty name).
pub open spec fn chosen_repo(f: FontView, repo: Option<Seq<char>>) -> Seq<char> {
    match repo {
        Some(r) => r,
        None => if f.repos.len() > 0 {
            f.repos[0].0
        } else {
            Seq::empty()
        },
    }
}

/// The file name of a downloaded variant: `{family}-{variant}.{extension}`, the
/// extension being what follows the last `.` of the URL.
pub open spec fn output_name(family: Seq<char>, variant: Seq<char>, url: Seq<char>) -> Seq<char> {
    family + seq!['-'] + variant + seq!['.'] + after_last_dot(url)
}

/// For each variant file of the chosen repository's entry, in order: the file
/// name it is saved under and the URL it comes from; empty when that repository
/// does not offer the family.
pub open spec fn output_files_of(f: FontView, repo: Option<Seq<char>>) -> Seq<(Seq<char>, Seq<char>)> {
    match f.repo_entry(chosen_repo(f, repo)) {
        Some(e) => e.files.map_values(
            |p: (Seq<char>, Seq<char>)| (output_name(e.family, p.0, p.1), p.1),
        ),
        None => Seq::empty(),
    }
}

/// The view of a list of text pairs.
pub open spec fn pairs_view(v: Seq<(String, String)>) -> Seq<(Seq<char>, Seq<char>)> {
    v.map_values(|p: (String, String)| (p.0@, p.1@))
}

impl Font {
    /// The name of the repository an install uses (see `chosen_repo`).
    fn choose_repo(&self, repo: Option<&str>) -> (r: String)
        ensures
            r@ == chosen_repo(self@, opt_str_view(repo)),
    {
        match repo {
            Some(r) => String::from_str(r),
            None => match self.get_first_available_repo() {
                Some(r) => r,
                None => String::new(),
            },
        }
    }

    /// For each variant file of the repository named, or else of the first that
    /// offers the family: the file name it is saved under and its URL.
    pub fn output_files(&self, repo: Option<&str>) -> (r: Vec<(String, String)>)
        ensures
            pairs_view(r@) == output_files_of(self@, opt_str_view(repo)),
    {
        let chosen = self.choose_repo(repo);
        let mut out: Vec<(String, String)> = Vec::new();
        match self.get_repo_font(chosen.as_str()) {
            Some(e) => {
                let n = e.files.len();
                let ghost want = output_files_of(self@, opt_str_view(repo));
                proof {
                    reveal_strlit("-");
                    reveal_strlit(".");
                    assert("-"@ =~= seq!['-']);
                    assert("."@ =~= seq!['.']);
                }
                let mut i: usize = 0;
                while i < n
                    invariant
                        n == e.files@.len(),
                        i <= n,
                        want == e.files@.map_values(
                            |p: (Seq<char>, Seq<char>)| (output_name(e.family@, p.0, p.1), p.1),
                        ),
                        pairs_view(out@) == want.subrange(0, i as int),
                        "-"@ == seq!['-'],
                        "."@ == seq!['.'],
                    decreases n - i,
                {
                    let variant = e.files.key_at(i);
                    let url = e.files.value_at(i);
                    let mut name = String::from_str(e.family.as_str());
                    name.append("-");
                    name.append(variant.as_str());
                    name.append(".");
                    let ext = extension_of(url.as_str());
                    name.append(ext.as_str());
                    let ghost before = pairs_view(out@);
                    out.push((name, url.clone()));
                    proof {
                        assert(pairs_view(out@) =~= before.push((name@, url@)));
                        assert(want.subrange(0, i + 1) =~= want.subrange(0, i as int).push(want[i as int]));
                    }
                    i = i + 1;
                }
                assert(want.subrange(0, n as int) =~= want);
            },
            None => {
                assert(pairs_view(out@) =~= Seq::<(Seq<char>, Seq<char>)>::empty());
            },
        }
        out
    }

    /// Where each variant file goes inside directory `path` (see `output_files`).
    pub fn output_paths(&self, repo: Option<&str>, path: &str) -> (r: Vec<String>)
        ensures
            texts_view(r@) == output_files_of(self@, opt_str_view(repo)).map_values(
                |p: (Seq<char>, Seq<char>)| joined_path(path@, p.0),
            ),
    {
        let files = self.output_files(repo);
        let ghost want = output_files_of(self@, opt_str_view(repo)).map_values(
            |p: (Seq<char>, Seq<char>)| joined_path(path@, p.0),
        );
        let mut out: Vec<String> = Vec::new();
        let mut i: usize = 0;
        while i < files.len()
            invariant
                i <= files@.len(),
                want == pairs_view(files@).map_values(|p: (Seq<char>, Seq<char>)| joined_path(path@, p.0)),
                texts_view(out@) == want.subrange(0, i as int),
            decreases files@.len() - i,
        {
            let p = join_path(path, files[i].0.as_str());
            let ghost before = texts_view(out@);
            out.push(p);
            proof {
                assert(texts_view(out@) =~= before.push(p@));
                assert(want.subrange(0, i + 1) =~= want.subrange(0, i as int).push(want[i as int]));
            }
            i = i + 1;
        }
        assert(want.subrange(0, files@.len() as int) =~= want);
        out
    }

    /// The files still on disk when deleting `files` in order stopped at the first
    /// failure, at position `failed_at` (None: every delete succeeded): that file
    /// and every one after it.
    pub fn files_left(files: &StrMap<String>, failed_at: Option<usize>) -> (r: Vec<String>)
        ensures
            match failed_at {
                Some(i) => i < files@.len() ==> texts_view(r@) == files@.subrange(i as int, files@.len() as int).map_values(
                    |p: (Seq<char>, Seq<char>)| p.1,
                ),
                None => r@.len() == 0,
            },
            failed_at matches Some(i) && i >= files@.len() ==> r@.len() == 0,
    {
        let mut out: Vec<String> = Vec::new();
        match failed_at {
            None => out,
            Some(start) => {
                let n = files.len();
                if start >= n {
                    return out;
                }
                let ghost want = files@.subrange(start as int, n as int).map_values(|p: (Seq<char>, Seq<char>)| p.1);
                let mut i: usize = start;
                while i < n
                    invariant
                        n == files@.len(),
                        start <= i <= n,
                        want == files@.subrange(start as int, n as int).map_values(|p: (Seq<char>, Seq<char>)| p.1),
                        texts_view(out@) == want.subrange(0, i - start),
                    decreases n - i,
                {
                    let v = files.value_at(i);
                    let ghost before = texts_view(out@);
                    out.push(v.clone());
                    proof {
                        assert(texts_view(out@) =~= before.push(v@));
                        assert(want.subrange(0, i + 1 - start) =~= want.subrange(0, i - start).push(want[i - start]));
                    }
                    i = i + 1;
                }
                assert(want.subrange(0, n - start) =~= want);
                out
            },
        }
    }

    /// Ends the removal of the copy at `loc` once its files were deleted: with no
    /// file left (`remaining` empty) the record there becomes that of a removed
    /// copy; otherwise nothing changes and the files still there are handed back.
    pub fn finish_uninstall(&mut self, loc: Location, remaining: Vec<String>) -> (r: Result<(), Vec<String>>)
        ensures
            remaining@.len() == 0 ==> r is Ok && final(self)@ == old(self)@.with_local(loc, uninstalled_view()),
            remaining@.len() > 0 ==> r == Err::<(), Vec<String>>(remaining) && final(self)@ == old(self)@,
    {
        if remaining.len() == 0 {
            self.set_local_font(loc, LocalFont::uninstalled());
            Ok(())
        } else {
            Err(remaining)
        }
    }
}

/// Right after the copy at `loc` is removed, asking whether the family is installed
/// there answers no and changes nothing, whatever resolver is handed in: the record
/// answers, and the resolver is not asked.
pub proof fn lemma_removed_copy_is_not_installed<F: FnOnce(String) -> Option<(Location, LocalFont)>>(
    f: FontView,
    loc: Location,
    resolve: F,
    after: FontView,
)
    requires
        resolved_by(f.with_local(loc, uninstalled_view()), loc, Attribute::Installed, resolve, after),
    ensures
        !f.with_local(loc, uninstalled_view()).needs_resolution(loc, Attribute::Installed),
        after == f.with_local(loc, uninstalled_view()),
        !after.installed_at(loc),
{
}

/// Right after the copy at `loc` is removed, asking for its files gives none and
/// changes nothing, whatever resolver is handed in: no rescan brings back the old
/// paths.
pub proof fn lemma_removed_copy_has_no_files<F: FnOnce(String) -> Option<(Location, LocalFont)>>(
    f: FontView,
    loc: Location,
    resolve: F,
    after: FontView,
)
    requires
        resolved_by(f.with_local(loc, uninstalled_view()), loc, Attribute::Files, resolve, after),
    ensures
        !f.with_local(loc, uninstalled_view()).needs_resolution(loc, Attribute::Files),
        after == f.with_local(loc, uninstalled_view()),
        after.files_at(loc) == Seq::<(Seq<char>, Seq<char>)>::empty(),
{
}

} // verus!
