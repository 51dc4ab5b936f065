//! The catalog: one aggregate per family, merged from every repository's entries
//! and from the local records.
use vstd::prelude::*;

use crate::font::{Font, FontView};
use crate::keyed::{
    has_key, insert_entry, keys_unique, lemma_index_of, lemma_insert_entry, lemma_insert_twice,
    lookup, StrMap,
};
use crate::record::{LocalFont, LocalFontView, Location, RepoFont, RepoFontView};

verus! {

/// The aggregate stored under `k`, or a fresh one for that family.
pub open spec fn font_or_empty(cat: Seq<(Seq<char>, FontView)>, k: Seq<char>) -> FontView {
    match lookup(cat, k) {
        Some(f) => f,
        None => FontView::empty(k),
    }
}

/// The catalog after recording that repository `repo` offers `e`.
pub open spec fn merge_repo_entry(cat: Seq<(Seq<char>, FontView)>, repo: Seq<char>, e: RepoFontView) -> Seq<
    (Seq<char>, FontView),
> {
    insert_entry(cat, e.family, font_or_empty(cat, e.family).with_repo(repo, e))
}

/// The catalog after recording, in order, the entries `es` of repository `repo`.
pub open spec fn merge_repo_list(cat: Seq<(Seq<char>, FontView)>, repo: Seq<char>, es: Seq<RepoFontView>) -> Seq<
    (Seq<char>, FontView),
>
    decreases es.len(),
{
    if es.len() == 0 {
        cat
    } else {
        merge_repo_entry(merge_repo_list(cat, repo, es.drop_last()), repo, es.last())
    }
}

/// The catalog after recording, in order, each repository's entries.
pub open spec fn merge_repos(cat: Seq<(Seq<char>, FontView)>, rs: Seq<(Seq<char>, Seq<RepoFontView>)>) -> Seq<
    (Seq<char>, FontView),
>
    decreases rs.len(),
{
    if rs.len() == 0 {
        cat
    } else {
        merge_repo_list(merge_repos(cat, rs.drop_last()), rs.last().0, rs.last().1)
    }
}

/// The family a local record names (empty when it names none).
pub open spec fn local_key(rec: LocalFontView) -> Seq<char> {
    match rec.family {
        Some(f) => f,
        None => Seq::empty(),
    }
}

/// The catalog after storing `rec` as its family's record at `loc`.
pub open spec fn merge_local(cat: Seq<(Seq<char>, FontView)>, loc: Location, rec: LocalFontView) -> Seq<
    (Seq<char>, FontView),
> {
    let k = local_key(rec);
    insert_entry(cat, k, font_or_empty(cat, k).with_local(loc, rec))
}

/// The catalog after storing, in order, the local records `ls`.
pub open spec fn merge_locals(cat: Seq<(Seq<char>, FontView)>, ls: Seq<(Location, LocalFontView)>) -> Seq<
    (Seq<char>, FontView),
>
    decreases ls.len(),
{
    if ls.len() == 0 {
        cat
    } else {
        merge_local(merge_locals(cat, ls.drop_last()), ls.last().0, ls.last().1)
    }
}

/// The catalog built from the repositories' entries `rs` and the local records `ls`.
pub open spec fn catalog_of(rs: Seq<(Seq<char>, Seq<RepoFontView>)>, ls: Seq<(Location, LocalFontView)>) -> Seq<
    (Seq<char>, FontView),
> {
    merge_locals(merge_repos(Seq::empty(), rs), ls)
}

/// The view of the repositories' entry lists.
pub open spec fn repo_lists_view(v: Seq<(String, Vec<RepoFont>)>) -> Seq<(Seq<char>, Seq<RepoFontView>)> {
    v.map_values(|p: (String, Vec<RepoFont>)| (p.0@, p.1@.map_values(|e: RepoFont| e@)))
}

/// The view of located local records.
pub open spec fn locals_view(v: Seq<(Location, LocalFont)>) -> Seq<(Location, LocalFontView)> {
    v.map_values(|p: (Location, LocalFont)| (p.0, p.1@))
}

/// Every local record names its family.
pub open spec fn locals_named(ls: Seq<(Location, LocalFontView)>) -> bool {
    forall|i: int| 0 <= i < ls.len() ==> (#[trigger] ls[i]).1.family is Some
}

/// Whether some repository offers an entry for family `k`.
pub open spec fn offered(rs: Seq<(Seq<char>, Seq<RepoFontView>)>, k: Seq<char>) -> bool {
    exists|i: int, j: int| 0 <= i < rs.len() && 0 <= j < rs[i].1.len() && #[trigger] rs[i].1[j].family == k
}

/// Whether some local record names family `k`.
pub open spec fn found_locally(ls: Seq<(Location, LocalFontView)>, k: Seq<char>) -> bool {
    exists|i: int| 0 <= i < ls.len() && #[trigger] ls[i].1.family == Some(k)
}

/// Records that repository `repo` offers `e`, creating the family's aggregate if needed.
fn merge_repo_font(cat: &mut StrMap<Font>, repo: &String, e: RepoFont)
    ensures
        final(cat)@ == merge_repo_entry(old(cat)@, repo@, e@),
{
    let family = e.family.clone();
    let present = cat.contains_key(family.as_str());
    proof {
        lemma_index_of(cat@, family@);
    }
    if !present {
        cat.insert(family.clone(), Font::new(family.clone()));
        proof {
            lemma_insert_entry(old(cat)@, family@, FontView::empty(family@));
        }
    }
    match cat.get_mut(family.as_str()) {
        Some(f) => {
            let ghost before = f@;
            f.add_repo_font(repo.clone(), e);
            proof {
                assert(before == font_or_empty(old(cat)@, family@));
                if !present {
                    lemma_insert_twice(old(cat)@, family@, FontView::empty(family@), before.with_repo(repo@, e@));
                }
            }
        },
        None => {},
    }
}

/// Stores `rec` as its family's record at `loc`, creating the aggregate if needed.
fn merge_local_font(cat: &mut StrMap<Font>, loc: Location, rec: LocalFont)
    requires
        rec@.family is Some,
    ensures
        final(cat)@ == merge_local(old(cat)@, loc, rec@),
{
    let family = match &rec.family {
        Some(f) => f.clone(),
        None => String::new(),
    };
    let present = cat.contains_key(family.as_str());
    proof {
        lemma_index_of(cat@, family@);
    }
    if !present {
        cat.insert(family.clone(), Font::new(family.clone()));
        proof {
            lemma_insert_entry(old(cat)@, family@, FontView::empty(family@));
        }
    }
    match cat.get_mut(family.as_str()) {
        Some(f) => {
            let ghost before = f@;
            f.set_local_font(loc, rec);
            proof {
                assert(before == font_or_empty(old(cat)@, family@));
                if !present {
                    lemma_insert_twice(old(cat)@, family@, FontView::empty(family@), before.with_local(loc, rec@));
                }
            }
        },
        None => {},
    }
}

/// Builds the catalog: first every repository's entries, repository by
/// repository and entry by entry, then every local record. A later entry of a
/// repository for the same family replaces the earlier one, and a later record
/// for the same family and location replaces the earlier one. Each local record
/// must name its family.
pub fn generate_fonts_list(
    repos_font_lists: Vec<(String, Vec<RepoFont>)>,
    local_fonts: Vec<(Location, LocalFont)>,
) -> (r: StrMap<Font>)
    requires
        locals_named(locals_view(local_fonts@)),
    ensures
        r@ == catalog_of(repo_lists_view(repos_font_lists@), locals_view(local_fonts@)),
{
    let ghost rs = repo_lists_view(repos_font_lists@);
    let ghost ls = locals_view(local_fonts@);
    let mut cat: StrMap<Font> = StrMap::new();
    let mut lists = repos_font_lists;
    let n = lists.len();
    let ghost all = lists@;
    let mut i: usize = 0;
    assert(all.subrange(0, 0) =~= Seq::<(String, Vec<RepoFont>)>::empty());
    assert(repo_lists_view(all.subrange(0, 0)) =~= Seq::<(Seq<char>, Seq<RepoFontView>)>::empty());
    while lists.len() > 0
        invariant
            all.len() == n,
            rs == repo_lists_view(all),
            i <= n,
            lists@ == all.subrange(i as int, n as int),
            cat@ == merge_repos(Seq::empty(), repo_lists_view(all.subrange(0, i as int))),
        decreases lists@.len(),
    {
        let (name, entries) = lists.remove(0);
        let ghost es = entries@.map_values(|e: RepoFont| e@);
        let ghost start = cat@;
        let mut rest = entries;
        let mut j: usize = 0;
        let m = rest.len();
        let ghost orig = rest@;
        assert(es.subrange(0, 0) =~= Seq::<RepoFontView>::empty());
        while rest.len() > 0
            invariant
                orig.len() == m,
                es == orig.map_values(|e: RepoFont| e@),
                j <= m,
                rest@ == orig.subrange(j as int, m as int),
                cat@ == merge_repo_list(start, name@, es.subrange(0, j as int)),
            decreases rest@.len(),
        {
            let e = rest.remove(0);
            proof {
                assert(e == orig[j as int]);
                assert(es.subrange(0, j + 1).drop_last() =~= es.subrange(0, j as int));
                assert(es.subrange(0, j + 1).last() == e@);
            }
            merge_repo_font(&mut cat, &name, e);
            j = j + 1;
            proof {
                assert(rest@ =~= orig.subrange(j as int, m as int));
            }
        }
        proof {
            assert(es.subrange(0, m as int) =~= es);
            let pre = repo_lists_view(all.subrange(0, i + 1));
            assert(pre.drop_last() =~= repo_lists_view(all.subrange(0, i as int)));
            assert(pre.last() == (name@, es));
        }
        i = i + 1;
        proof {
            assert(lists@ =~= all.subrange(i as int, n as int));
        }
    }
    assert(all.subrange(0, n as int) =~= all);
    let mut locals = local_fonts;
    let ln = locals.len();
    let ghost lall = locals@;
    let mut k: usize = 0;
    assert(ls.subrange(0, 0) =~= Seq::<(Location, LocalFontView)>::empty());
    let ghost repos_done = cat@;
    while locals.len() > 0
        invariant
            lall.len() == ln,
            ls == locals_view(lall),
            locals_named(ls),
            k <= ln,
            locals@ == lall.subrange(k as int, ln as int),
            repos_done == merge_repos(Seq::empty(), rs),
            cat@ == merge_locals(repos_done, ls.subrange(0, k as int)),
        decreases locals@.len(),
    {
        let (loc, rec) = locals.remove(0);
        proof {
            assert(lall[k as int] == (loc, rec));
            assert(ls[k as int] == (loc, rec@));
            assert(ls.subrange(0, k + 1).drop_last() =~= ls.subrange(0, k as int));
        }
        merge_local_font(&mut cat, loc, rec);
        k = k + 1;
        proof {
            assert(locals@ =~= lall.subrange(k as int, ln as int));
        }
    }
    assert(ls.subrange(0, ln as int) =~= ls);
    cat
}

pub proof fn lemma_merge_repo_list_keys(cat: Seq<(Seq<char>, FontView)>, repo: Seq<char>, es: Seq<RepoFontView>)
    requires
        keys_unique(cat),
    ensures
        keys_unique(merge_repo_list(cat, repo, es)),
        forall|k: Seq<char>|
            #[trigger] has_key(merge_repo_list(cat, repo, es), k) <==> (has_key(cat, k) || exists|j: int|
                0 <= j < es.len() && #[trigger] es[j].family == k),
    decreases es.len(),
{
    if es.len() > 0 {
        let rest = es.drop_last();
        let prev = merge_repo_list(cat, repo, rest);
        lemma_merge_repo_list_keys(cat, repo, rest);
        let e = es.last();
        lemma_insert_entry(prev, e.family, font_or_empty(prev, e.family).with_repo(repo, e));
        let res = merge_repo_list(cat, repo, es);
        assert(res == merge_repo_entry(prev, repo, e));
        assert forall|k: Seq<char>|
            has_key(res, k) <==> (has_key(cat, k) || exists|j: int|
                0 <= j < es.len() && #[trigger] es[j].family == k) by {
            let inn = exists|j: int| 0 <= j < es.len() && #[trigger] es[j].family == k;
            let inr = exists|j: int| 0 <= j < rest.len() && #[trigger] rest[j].family == k;
            if inn {
                let j = choose|j: int| 0 <= j < es.len() && #[trigger] es[j].family == k;
                if j < es.len() - 1 {
                    assert(rest[j].family == k);
                }
            }
            if inr {
                let j = choose|j: int| 0 <= j < rest.len() && #[trigger] rest[j].family == k;
                assert(es[j].family == k);
            }
            assert(es[es.len() - 1].family == e.family);
            assert(inn <==> (inr || k == e.family));
            assert(has_key(prev, k) <==> (has_key(cat, k) || inr));
            if k == e.family {
                assert(has_key(res, k));
            } else {
                assert(has_key(res, k) == has_key(prev, k));
            }
        }
    }
}

pub proof fn lemma_merge_repos_keys(cat: Seq<(Seq<char>, FontView)>, rs: Seq<(Seq<char>, Seq<RepoFontView>)>)
    requires
        keys_unique(cat),
    ensures
        keys_unique(merge_repos(cat, rs)),
        forall|k: Seq<char>| #[trigger] has_key(merge_repos(cat, rs), k) <==> (has_key(cat, k) || offered(rs, k)),
    decreases rs.len(),
{
    if rs.len() > 0 {
        let rest = rs.drop_last();
        let prev = merge_repos(cat, rest);
        lemma_merge_repos_keys(cat, rest);
        let last = rs.last();
        lemma_merge_repo_list_keys(prev, last.0, last.1);
        assert forall|k: Seq<char>| has_key(merge_repos(cat, rs), k) <==> (has_key(cat, k) || offered(rs, k)) by {
            if offered(rs, k) {
                let (i, j) = choose|i: int, j: int|
                    0 <= i < rs.len() && 0 <= j < rs[i].1.len() && #[trigger] rs[i].1[j].family == k;
                if i < rs.len() - 1 {
                    assert(rest[i].1[j].family == k);
                } else {
                    assert(last.1[j].family == k);
                }
            }
            if offered(rest, k) {
                let (i, j) = choose|i: int, j: int|
                    0 <= i < rest.len() && 0 <= j < rest[i].1.len() && #[trigger] rest[i].1[j].family == k;
                assert(rs[i].1[j].family == k);
            }
            if exists|j: int| 0 <= j < last.1.len() && #[trigger] last.1[j].family == k {
                let j = choose|j: int| 0 <= j < last.1.len() && #[trigger] last.1[j].family == k;
                assert(rs[rs.len() - 1].1[j].family == k);
            }
        }
    }
}

pub proof fn lemma_merge_locals_keys(cat: Seq<(Seq<char>, FontView)>, ls: Seq<(Location, LocalFontView)>)
    requires
        keys_unique(cat),
        locals_named(ls),
    ensures
        keys_unique(merge_locals(cat, ls)),
        forall|k: Seq<char>| #[trigger] has_key(merge_locals(cat, ls), k) <==> (has_key(cat, k) || found_locally(ls, k)),
    decreases ls.len(),
{
    if ls.len() > 0 {
        let rest = ls.drop_last();
        assert(locals_named(rest)) by {
            assert forall|i: int| 0 <= i < rest.len() implies (#[trigger] rest[i]).1.family is Some by {
                assert(rest[i] == ls[i]);
            }
        }
        let prev = merge_locals(cat, rest);
        lemma_merge_locals_keys(cat, rest);
        let last = ls.last();
        assert(ls[ls.len() - 1] == last);
        let key = local_key(last.1);
        lemma_insert_entry(prev, key, font_or_empty(prev, key).with_local(last.0, last.1));
        let res = merge_locals(cat, ls);
        assert(res == merge_local(prev, last.0, last.1));
        assert(last.1.family == Some(key));
        assert forall|k: Seq<char>| #[trigger] has_key(res, k) <==> (has_key(cat, k) || found_locally(ls, k)) by {
            if found_locally(ls, k) {
                let i = choose|i: int| 0 <= i < ls.len() && #[trigger] ls[i].1.family == Some(k);
                if i < ls.len() - 1 {
                    assert(rest[i].1.family == Some(k));
                }
            }
            if found_locally(rest, k) {
                let i = choose|i: int| 0 <= i < rest.len() && #[trigger] rest[i].1.family == Some(k);
                assert(ls[i].1.family == Some(k));
            }
            assert(found_locally(ls, k) <==> (found_locally(rest, k) || k == key));
            assert(has_key(prev, k) <==> (has_key(cat, k) || found_locally(rest, k)));
            if k == key {
                assert(has_key(res, k));
            } else {
                assert(has_key(res, k) == has_key(prev, k));
            }
        }
    }
}

/// Every family that some repository offers or some local record names has an
/// aggregate in the catalog, exactly one, and the catalog has no other.
pub proof fn lemma_catalog_families(rs: Seq<(Seq<char>, Seq<RepoFontView>)>, ls: Seq<(Location, LocalFontView)>)
    requires
        locals_named(ls),
    ensures
        keys_unique(catalog_of(rs, ls)),
        forall|k: Seq<char>| has_key(catalog_of(rs, ls), k) <==> (offered(rs, k) || found_locally(ls, k)),
{
    let empty = Seq::<(Seq<char>, FontView)>::empty();
    lemma_merge_repos_keys(empty, rs);
    lemma_merge_locals_keys(merge_repos(empty, rs), ls);
}

} // verus!
