//! Local resolution: turning what the operating system reports of a family's font
//! files into a located local record, and the records of an initial scan.
use vstd::prelude::*;

use crate::keyed::{has_key, insert_entry, keys_unique, lemma_insert_entry, StrMap};
use crate::record::{texts_view, LocalFont, LocalFontView, Location};
use crate::text::{replace_all, replaced, same_text};

verus! {

/// What the operating system reports of one loaded font of a family.
pub struct FontHandle {
    pub family_name: String,
    pub postscript_name: Option<String>,
    /// The font's file; None for a font held in memory.
    pub path: Option<String>,
    /// When the file was last modified (for a font in memory: when it was looked
    /// at), in Unix seconds.
    pub modified: i64,
}

pub struct FontHandleView {
    pub family_name: Seq<char>,
    pub postscript_name: Option<Seq<char>>,
    pub path: Option<Seq<char>>,
    pub modified: i64,
}

impl View for FontHandle {
    type V = FontHandleView;

    open spec fn view(&self) -> FontHandleView {
        FontHandleView {
            family_name: self.family_name@,
            postscript_name: match self.postscript_name {
                Some(s) => Some(s@),
                None => None,
            },
            path: match self.path {
                Some(s) => Some(s@),
                None => None,
            },
            modified: self.modified,
        }
    }
}

/// Whether `path` lies under `base`, comparing whole path components as
/// `std::path::Path::starts_with` does.
pub uninterp spec fn path_within(path: Seq<char>, base: Seq<char>) -> bool;

/// Relies on `std::path::Path::starts_with`: whether `base` is a leading run of
/// whole components of `path`. The outcome depends on the two texts alone.
#[verifier::external_body]
fn path_starts_with(path: &str, base: &str) -> (r: bool)
    ensures
        r == path_within(path@, base@),
{
    std::path::Path::new(path).starts_with(base)
}

/// `v` followed by `k` dashes.
pub open spec fn dashed(v: Seq<char>, k: nat) -> Seq<char> {
    v + Seq::new(k, |i: int| '-')
}

/// Whether `k` is the fewest dashes that make `v` differ from every name in `taken`.
pub open spec fn fewest_dashes(v: Seq<char>, taken: Seq<Seq<char>>, k: nat) -> bool {
    &&& !taken.contains(dashed(v, k))
    &&& forall|j: nat| j < k ==> taken.contains(#[trigger] dashed(v, j))
}

/// `v` with the fewest dashes appended that make it differ from every name in `taken`.
pub open spec fn made_distinct(v: Seq<char>, taken: Seq<Seq<char>>) -> Seq<char> {
    dashed(v, choose|k: nat| fewest_dashes(v, taken, k))
}

/// The variant name that a postscript name gives: the family name taken out, then
/// the family name without its spaces, dashes turned into spaces; `Regular` when
/// nothing is left.
pub open spec fn variant_from_postscript(ps: Seq<char>, family: Seq<char>) -> Seq<char> {
    let a = replaced(ps, family, Seq::empty());
    let b = replaced(a, replaced(family, seq![' '], Seq::empty()), Seq::empty());
    let c = replaced(b, seq!['-'], seq![' ']);
    if c.len() == 0 {
        "Regular"@
    } else {
        c
    }
}

/// What a scan of handles has gathered so far.
pub struct ScanView {
    pub family: Seq<char>,
    pub variants: Seq<Seq<char>>,
    pub files: Seq<(Seq<char>, Seq<char>)>,
    pub last_modified: Option<i64>,
    pub location: Location,
}

/// The scan once handle `h` is read: the family name is the handle's; the handle
/// adds a variant (the name taken from its postscript name, or `Regular` when it
/// has none, made distinct from the variants so far); a file adds its path under that
/// variant and places the copy under the user's home or in the system; a font in
/// memory places it in memory. The date is the handle's.
pub open spec fn scan_step(st: ScanView, h: FontHandleView, home: Seq<char>) -> ScanView {
    let base = match h.postscript_name {
        Some(ps) => variant_from_postscript(ps, h.family_name),
        None => "Regular"@,
    };
    let variant = made_distinct(base, st.variants);
    match h.path {
        Some(p) => ScanView {
            family: h.family_name,
            variants: st.variants.push(variant),
            files: insert_entry(st.files, variant, p),
            last_modified: Some(h.modified),
            location: if path_within(p, home) {
                Location::User
            } else {
                Location::System
            },
        },
        None => ScanView {
            family: h.family_name,
            variants: st.variants.push(variant),
            files: st.files,
            last_modified: Some(h.modified),
            location: Location::Memory,
        },
    }
}

/// The scan of handles `hs`, in order.
pub open spec fn scan(hs: Seq<FontHandleView>, home: Seq<char>) -> ScanView
    decreases hs.len(),
{
    if hs.len() == 0 {
        ScanView {
            family: Seq::empty(),
            variants: Seq::empty(),
            files: Seq::empty(),
            last_modified: None,
            location: Location::Memory,
        }
    } else {
        scan_step(scan(hs.drop_last(), home), hs.last(), home)
    }
}

/// The located record that the handles `hs` describe, for a user whose home
/// directory is `home`; None when there is no handle, that is when nothing was found.
pub open spec fn record_from_handles(hs: Seq<FontHandleView>, home: Seq<char>) -> Option<(Location, LocalFontView)> {
    let st = scan(hs, home);
    if hs.len() == 0 {
        None
    } else {
        Some(
            (
                st.location,
                LocalFontView {
                    family: Some(st.family),
                    variants: Some(st.variants),
                    files: if st.files.len() > 0 {
                        Some(st.files)
                    } else {
                        None
                    },
                    last_modified: st.last_modified,
                    installed: Some(true),
                },
            ),
        )
    }
}

/// How many of the handles `hs` have a file.
pub open spec fn path_count(hs: Seq<FontHandleView>) -> nat
    decreases hs.len(),
{
    if hs.len() == 0 {
        0
    } else {
        path_count(hs.drop_last()) + if hs.last().path is Some {
            1nat
        } else {
            0nat
        }
    }
}

proof fn lemma_fewest_exists(v: Seq<char>, taken: Seq<Seq<char>>, j: nat)
    requires
        forall|i: nat| i < j ==> taken.contains(#[trigger] dashed(v, i)),
    ensures
        exists|k: nat| fewest_dashes(v, taken, k),
    decreases longest(taken) + 1 - (v.len() + j),
{
    if !taken.contains(dashed(v, j)) {
        assert(fewest_dashes(v, taken, j));
    } else {
        lemma_longest(taken, dashed(v, j));
        assert(dashed(v, j).len() == v.len() + j);
        assert forall|i: nat| i < j + 1 implies taken.contains(#[trigger] dashed(v, i)) by {}
        lemma_fewest_exists(v, taken, j + 1);
    }
}

/// A name made distinct from `taken` is not among them.
pub proof fn lemma_made_distinct(v: Seq<char>, taken: Seq<Seq<char>>)
    ensures
        !taken.contains(made_distinct(v, taken)),
{
    lemma_fewest_exists(v, taken, 0);
}

/// The scan of `hs` gives one variant per handle, no two alike, and one file per
/// handle that has one, each under a variant of its own.
pub proof fn lemma_scan_shape(hs: Seq<FontHandleView>, home: Seq<char>)
    ensures
        scan(hs, home).variants.len() == hs.len(),
        scan(hs, home).variants.no_duplicates(),
        keys_unique(scan(hs, home).files),
        scan(hs, home).files.len() == path_count(hs),
        forall|k: Seq<char>| #[trigger] has_key(scan(hs, home).files, k) ==> scan(hs, home).variants.contains(k),
    decreases hs.len(),
{
    if hs.len() > 0 {
        let p = hs.drop_last();
        lemma_scan_shape(p, home);
        let st = scan(p, home);
        let h = hs.last();
        let base = match h.postscript_name {
            Some(ps) => variant_from_postscript(ps, h.family_name),
            None => "Regular"@,
        };
        let variant = made_distinct(base, st.variants);
        lemma_made_distinct(base, st.variants);
        let nst = scan(hs, home);
        assert(nst.variants == st.variants.push(variant));
        assert(nst.variants.no_duplicates()) by {
            assert forall|a: int, b: int| 0 <= a < nst.variants.len() && 0 <= b < nst.variants.len() && a != b
                implies nst.variants[a] != nst.variants[b] by {
                if a == st.variants.len() {
                    assert(!st.variants.contains(nst.variants[b]) || nst.variants[b] != variant);
                } else if b == st.variants.len() {
                    assert(st.variants[a] == nst.variants[a]);
                }
            }
        }
        if h.path is Some {
            assert(!has_key(st.files, variant));
            lemma_insert_entry(st.files, variant, h.path->0);
        }
        assert forall|k: Seq<char>| #[trigger] has_key(nst.files, k) implies nst.variants.contains(k) by {
            if k != variant {
                assert(has_key(st.files, k));
                let i = choose|i: int| 0 <= i < st.variants.len() && st.variants[i] == k;
                assert(nst.variants[i] == k);
            } else {
                assert(nst.variants[st.variants.len() as int] == k);
            }
        }
    }
}

/// The longest length among `names`.
pub open spec fn longest(names: Seq<Seq<char>>) -> nat
    decreases names.len(),
{
    if names.len() == 0 {
        0
    } else {
        let prev = longest(names.drop_last());
        if names.last().len() > prev {
            names.last().len()
        } else {
            prev
        }
    }
}

proof fn lemma_longest(names: Seq<Seq<char>>, x: Seq<char>)
    requires
        names.contains(x),
    ensures
        x.len() <= longest(names),
    decreases names.len(),
{
    let i = choose|i: int| 0 <= i < names.len() && names[i] == x;
    if i < names.len() - 1 {
        assert(names.drop_last()[i] == x);
        lemma_longest(names.drop_last(), x);
    }
}

/// Whether `s` is one of `names`.
fn contains_text(names: &Vec<String>, s: &str) -> (r: bool)
    ensures
        r == texts_view(names@).contains(s@),
{
    let mut i: usize = 0;
    while i < names.len()
        invariant
            i <= names@.len(),
            forall|j: int| 0 <= j < i ==> names@[j]@ != s@,
        decreases names@.len() - i,
    {
        if same_text(names[i].as_str(), s) {
            assert(texts_view(names@)[i as int] == s@);
            return true;
        }
        i = i + 1;
    }
    proof {
        if texts_view(names@).contains(s@) {
            let j = choose|j: int| 0 <= j < texts_view(names@).len() && texts_view(names@)[j] == s@;
            assert(names@[j]@ == s@);
        }
    }
    false
}

/// `v` with the fewest dashes appended that make it differ from every one of `taken`.
fn distinct_variant(v: String, taken: &Vec<String>) -> (r: String)
    ensures
        r@ == made_distinct(v@, texts_view(taken@)),
{
    let ghost names = texts_view(taken@);
    let ghost base = v@;
    let mut out = v;
    let ghost mut k: nat = 0;
    proof {
        reveal_strlit("-");
        assert("-"@ =~= seq!['-']);
        assert(dashed(base, 0) =~= base);
    }
    while contains_text(taken, out.as_str())
        invariant
            names == texts_view(taken@),
            out@ == dashed(base, k),
            forall|j: nat| j < k ==> names.contains(#[trigger] dashed(base, j)),
            "-"@ == seq!['-'],
        decreases longest(names) + 1 - out@.len(),
    {
        proof {
            lemma_longest(names, out@);
        }
        out.append("-");
        proof {
            assert(dashed(base, k + 1) =~= dashed(base, k) + seq!['-']);
            k = k + 1;
        }
    }
    proof {
        assert(fewest_dashes(base, names, k));
        let c = choose|c: nat| fewest_dashes(base, names, c);
        if c < k {
            assert(names.contains(dashed(base, c)));
        } else if c > k {
            assert(names.contains(dashed(base, k)));
        }
    }
    out
}

/// The variant name that a postscript name gives (see `variant_from_postscript`).
pub fn variant_name(ps: &str, family: &str) -> (r: String)
    ensures
        r@ == variant_from_postscript(ps@, family@),
{
    proof {
        reveal_strlit(" ");
        reveal_strlit("-");
        reveal_strlit("");
        assert(" "@ =~= seq![' ']);
        assert("-"@ =~= seq!['-']);
        assert(""@ =~= Seq::<char>::empty());
    }
    let a = if family.unicode_len() > 0 {
        replace_all(ps, family, "")
    } else {
        String::from_str(ps)
    };
    let nospace = replace_all(family, " ", "");
    let b = if nospace.unicode_len() > 0 {
        replace_all(a.as_str(), nospace.as_str(), "")
    } else {
        a
    };
    let c = replace_all(b.as_str(), "-", " ");
    if c.unicode_len() == 0 {
        String::from_str("Regular")
    } else {
        c
    }
}

/// The located record that the loaded handles of a family describe, for a user
/// whose home directory is `home` (see `record_from_handles`); None when there is
/// no handle. The variants are all distinct, one per handle, and the files hold
/// one path per handle that has a file, each under that handle's variant.
pub fn generate_local_font_from_handles(handles: &Vec<FontHandle>, home: &str) -> (r: Option<(Location, LocalFont)>)
    ensures
        match r {
            Some((l, rec)) => record_from_handles(handles@.map_values(|h: FontHandle| h@), home@) == Some((l, rec@)),
            None => record_from_handles(handles@.map_values(|h: FontHandle| h@), home@) is None,
        },
        handles@.len() == 0 <==> r is None,
        r matches Some((l, rec)) ==> {
            &&& rec@.variants matches Some(vs)
            &&& vs.len() == handles@.len()
            &&& vs.no_duplicates()
            &&& rec@.installed == Some(true)
            &&& match rec@.files {
                Some(fs) => fs.len() == path_count(handles@.map_values(|h: FontHandle| h@))
                    && keys_unique(fs) && forall|k: Seq<char>| #[trigger] has_key(fs, k) ==> vs.contains(k),
                None => path_count(handles@.map_values(|h: FontHandle| h@)) == 0,
            }
        },
{
    let ghost hs = handles@.map_values(|h: FontHandle| h@);
    let mut family_name = String::new();
    let mut variants: Vec<String> = Vec::new();
    let mut files: StrMap<String> = StrMap::new();
    let mut last_modified: Option<i64> = None;
    let mut location = Location::Memory;
    let mut i: usize = 0;
    proof {
        assert(texts_view(variants@) =~= Seq::<Seq<char>>::empty());
        assert(hs.subrange(0, 0) =~= Seq::<FontHandleView>::empty());
    }
    while i < handles.len()
        invariant
            i <= handles@.len(),
            hs == handles@.map_values(|h: FontHandle| h@),
            scan(hs.subrange(0, i as int), home@) == (ScanView {
                family: family_name@,
                variants: texts_view(variants@),
                files: files@,
                last_modified,
                location,
            }),
        decreases handles@.len() - i,
    {
        let h = &handles[i];
        proof {
            assert(hs.subrange(0, i + 1).drop_last() =~= hs.subrange(0, i as int));
            assert(hs.subrange(0, i + 1).last() == h@);
        }
        family_name = h.family_name.clone();
        let base = match &h.postscript_name {
            Some(ps) => variant_name(ps.as_str(), family_name.as_str()),
            None => String::from_str("Regular"),
        };
        let variant = distinct_variant(base, &variants);
        let ghost before = texts_view(variants@);
        variants.push(variant.clone());
        assert(texts_view(variants@) =~= before.push(variant@));
        match &h.path {
            Some(p) => {
                last_modified = Some(h.modified);
                location = if path_starts_with(p.as_str(), home) {
                    Location::User
                } else {
                    Location::System
                };
                files.insert(variant, p.clone());
            },
            None => {
                last_modified = Some(h.modified);
                location = Location::Memory;
            },
        }
        i = i + 1;
    }
    assert(hs.subrange(0, handles@.len() as int) =~= hs);
    proof {
        lemma_scan_shape(hs, home@);
    }
    if handles.len() == 0 {
        return None;
    }
    let f = if files.len() > 0 {
        Some(files)
    } else {
        None
    };
    Some(
        (
            location,
            LocalFont {
                family: Some(family_name),
                variants: Some(variants),
                files: f,
                last_modified,
                installed: Some(true),
            },
        ),
    )
}

/// The records of an initial scan: for each family present on the machine, a
/// record naming it at each location, with nothing else looked up yet.
pub fn generate_local_fonts(families: &Vec<String>) -> (r: Vec<(Location, LocalFont)>)
    requires
        3 * families@.len() <= usize::MAX,
    ensures
        r@.len() == 3 * families@.len(),
        forall|i: int, j: int|
            0 <= i < families@.len() && 0 <= j < 3 ==> {
                let p = #[trigger] r@[3 * i + j];
                &&& p.0 == if j == 0 {
                    Location::User
                } else if j == 1 {
                    Location::System
                } else {
                    Location::Memory
                }
                &&& p.1@ == (LocalFontView {
                    family: Some(families@[i]@),
                    variants: None,
                    files: None,
                    last_modified: None,
                    installed: None,
                })
            },
{
    let mut r: Vec<(Location, LocalFont)> = Vec::new();
    let mut i: usize = 0;
    while i < families.len()
        invariant
            i <= families@.len(),
            3 * families@.len() <= usize::MAX,
            r@.len() == 3 * i,
            forall|a: int, j: int|
                0 <= a < i && 0 <= j < 3 ==> {
                    let p = #[trigger] r@[3 * a + j];
                    &&& p.0 == if j == 0 {
                        Location::User
                    } else if j == 1 {
                        Location::System
                    } else {
                        Location::Memory
                    }
                    &&& p.1@ == (LocalFontView {
                        family: Some(families@[a]@),
                        variants: None,
                        files: None,
                        last_modified: None,
                        installed: None,
                    })
                },
        decreases families@.len() - i,
    {
        let ghost before = r@;
        r.push((Location::User, LocalFont::unresolved(families[i].clone())));
        r.push((Location::System, LocalFont::unresolved(families[i].clone())));
        r.push((Location::Memory, LocalFont::unresolved(families[i].clone())));
        proof {
            assert forall|a: int, j: int| 0 <= a < i + 1 && 0 <= j < 3 implies {
                let p = #[trigger] r@[3 * a + j];
                &&& p.0 == if j == 0 {
                    Location::User
                } else if j == 1 {
                    Location::System
                } else {
                    Location::Memory
                }
                &&& p.1@ == (LocalFontView {
                    family: Some(families@[a]@),
                    variants: None,
                    files: None,
                    last_modified: None,
                    installed: None,
                })
            } by {
                if a < i {
                    assert(r@[3 * a + j] == before[3 * a + j]);
                }
            }
        }
        i = i + 1;
    }
    r
}

} // verus!
