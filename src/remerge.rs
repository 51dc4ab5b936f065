//! Re-merging: what each aggregate of a catalog holds in terms of the inputs, and
//! that merging the same inputs again into the catalog they built changes nothing.
use vstd::prelude::*;

use crate::catalog::{
    catalog_of, font_or_empty, found_locally, lemma_catalog_families, lemma_merge_locals_keys,
    lemma_merge_repo_list_keys, lemma_merge_repos_keys, local_key, locals_named, merge_locals, merge_repo_list,
    merge_repos, offered,
};
use crate::font::FontView;
use crate::keyed::{
    has_key, index_of, insert_all, insert_entry, keys_unique, lemma_index_of, lemma_insert_all_concat,
    lemma_insert_all_twice, lemma_insert_entry, lemma_unique_index, lookup,
};
use crate::record::{LocalFontView, Location, RepoFontView};

verus! {

/// What the entries `es` of repository `repo` write into the repositories of family `k`.
pub open spec fn entry_writes(repo: Seq<char>, es: Seq<RepoFontView>, k: Seq<char>) -> Seq<(Seq<char>, RepoFontView)>
    decreases es.len(),
{
    if es.len() == 0 {
        Seq::empty()
    } else {
        let p = entry_writes(repo, es.drop_last(), k);
        if es.last().family == k {
            p.push((repo, es.last()))
        } else {
            p
        }
    }
}

/// What all the repositories' entries write into the repositories of family `k`, in order.
pub open spec fn repo_writes(rs: Seq<(Seq<char>, Seq<RepoFontView>)>, k: Seq<char>) -> Seq<(Seq<char>, RepoFontView)>
    decreases rs.len(),
{
    if rs.len() == 0 {
        Seq::empty()
    } else {
        repo_writes(rs.drop_last(), k) + entry_writes(rs.last().0, rs.last().1, k)
    }
}

/// The aggregate with the writes `ws` made to its repositories.
pub open spec fn with_repo_writes(f: FontView, ws: Seq<(Seq<char>, RepoFontView)>) -> FontView {
    FontView { repos: insert_all(f.repos, ws), ..f }
}

/// The last record that `ls` stores for family `k` at `loc`, if any.
pub open spec fn local_write(ls: Seq<(Location, LocalFontView)>, k: Seq<char>, loc: Location) -> Option<LocalFontView>
    decreases ls.len(),
{
    if ls.len() == 0 {
        None
    } else if ls.last().0 == loc && local_key(ls.last().1) == k {
        Some(ls.last().1)
    } else {
        local_write(ls.drop_last(), k, loc)
    }
}

/// `b` where it is a record, else `a`.
pub open spec fn overwritten(a: Option<LocalFontView>, b: Option<LocalFontView>) -> Option<LocalFontView> {
    match b {
        Some(x) => Some(x),
        None => a,
    }
}

/// The aggregate of family `k` with the records that `ls` stores for it.
pub open spec fn with_local_writes(f: FontView, ls: Seq<(Location, LocalFontView)>, k: Seq<char>) -> FontView {
    FontView {
        user: overwritten(f.user, local_write(ls, k, Location::User)),
        system: overwritten(f.system, local_write(ls, k, Location::System)),
        memory: overwritten(f.memory, local_write(ls, k, Location::Memory)),
        ..f
    }
}

proof fn lemma_insert_all_empty(s: Seq<(Seq<char>, RepoFontView)>)
    ensures
        insert_all(s, Seq::<(Seq<char>, RepoFontView)>::empty()) == s,
{
}

proof fn lemma_entry_writes_none(repo: Seq<char>, es: Seq<RepoFontView>, k: Seq<char>)
    requires
        forall|j: int| 0 <= j < es.len() ==> (#[trigger] es[j]).family != k,
    ensures
        entry_writes(repo, es, k) == Seq::<(Seq<char>, RepoFontView)>::empty(),
    decreases es.len(),
{
    if es.len() > 0 {
        let p = es.drop_last();
        assert forall|j: int| 0 <= j < p.len() implies (#[trigger] p[j]).family != k by {
            assert(p[j] == es[j]);
        }
        lemma_entry_writes_none(repo, p, k);
        assert(es[es.len() - 1] == es.last());
    }
}

proof fn lemma_repo_writes_none(rs: Seq<(Seq<char>, Seq<RepoFontView>)>, k: Seq<char>)
    requires
        !offered(rs, k),
    ensures
        repo_writes(rs, k) == Seq::<(Seq<char>, RepoFontView)>::empty(),
    decreases rs.len(),
{
    if rs.len() > 0 {
        let p = rs.drop_last();
        assert(!offered(p, k)) by {
            if offered(p, k) {
                let (i, j) = choose|i: int, j: int|
                    0 <= i < p.len() && 0 <= j < p[i].1.len() && #[trigger] p[i].1[j].family == k;
                assert(rs[i].1[j].family == k);
            }
        }
        lemma_repo_writes_none(p, k);
        let last = rs.last();
        assert(rs[rs.len() - 1] == last);
        assert forall|j: int| 0 <= j < last.1.len() implies (#[trigger] last.1[j]).family != k by {
            if last.1[j].family == k {
                assert(rs[rs.len() - 1].1[j].family == k);
            }
        }
        lemma_entry_writes_none(last.0, last.1, k);
        assert(repo_writes(rs, k) =~= Seq::<(Seq<char>, RepoFontView)>::empty());
    }
}

/// Entries of one repository merged into a catalog that has their families: each
/// aggregate keeps its place and gets those entries' writes.
proof fn lemma_repo_list_in_place(c: Seq<(Seq<char>, FontView)>, repo: Seq<char>, es: Seq<RepoFontView>)
    requires
        keys_unique(c),
        forall|j: int| 0 <= j < es.len() ==> has_key(c, (#[trigger] es[j]).family),
    ensures
        merge_repo_list(c, repo, es).len() == c.len(),
        forall|i: int|
            0 <= i < c.len() ==> #[trigger] merge_repo_list(c, repo, es)[i] == (
                c[i].0,
                with_repo_writes(c[i].1, entry_writes(repo, es, c[i].0)),
            ),
    decreases es.len(),
{
    if es.len() > 0 {
        let p = es.drop_last();
        assert forall|j: int| 0 <= j < p.len() implies has_key(c, (#[trigger] p[j]).family) by {
            assert(p[j] == es[j]);
        }
        lemma_repo_list_in_place(c, repo, p);
        let prev = merge_repo_list(c, repo, p);
        let e = es.last();
        assert(es[es.len() - 1] == e);
        let k = e.family;
        assert(keys_unique(prev)) by {
            assert forall|a: int, b: int| 0 <= a < prev.len() && 0 <= b < prev.len() && a != b implies prev[a].0
                != prev[b].0 by {
                assert(prev[a].0 == c[a].0 && prev[b].0 == c[b].0);
            }
        }
        lemma_index_of(c, k);
        let i0 = index_of(c, k);
        assert(prev[i0].0 == k);
        lemma_unique_index(prev, i0);
        let nf = font_or_empty(prev, k).with_repo(repo, e);
        assert(merge_repo_list(c, repo, es) == prev.update(i0, (k, nf)));
        assert forall|i: int| 0 <= i < c.len() implies #[trigger] merge_repo_list(c, repo, es)[i] == (
            c[i].0,
            with_repo_writes(c[i].1, entry_writes(repo, es, c[i].0)),
        ) by {
            if i == i0 {
                let w = entry_writes(repo, p, k);
                assert(entry_writes(repo, es, k) == w.push((repo, e)));
                assert(w.push((repo, e)).drop_last() =~= w);
                assert(insert_all(c[i].1.repos, w.push((repo, e))) == insert_entry(
                    insert_all(c[i].1.repos, w),
                    repo,
                    e,
                ));
            } else {
                assert(c[i].0 != k);
            }
        }
    }
}

/// Every repository's entries merged into a catalog that has all their families:
/// each aggregate keeps its place and gets all the writes made to it.
proof fn lemma_repos_in_place(c: Seq<(Seq<char>, FontView)>, rs: Seq<(Seq<char>, Seq<RepoFontView>)>)
    requires
        keys_unique(c),
        forall|k: Seq<char>| offered(rs, k) ==> has_key(c, k),
    ensures
        merge_repos(c, rs).len() == c.len(),
        forall|i: int|
            0 <= i < c.len() ==> #[trigger] merge_repos(c, rs)[i] == (
                c[i].0,
                with_repo_writes(c[i].1, repo_writes(rs, c[i].0)),
            ),
    decreases rs.len(),
{
    if rs.len() > 0 {
        let p = rs.drop_last();
        assert forall|k: Seq<char>| offered(p, k) implies has_key(c, k) by {
            let (i, j) = choose|i: int, j: int|
                0 <= i < p.len() && 0 <= j < p[i].1.len() && #[trigger] p[i].1[j].family == k;
            assert(rs[i].1[j].family == k);
        }
        lemma_repos_in_place(c, p);
        let prev = merge_repos(c, p);
        let last = rs.last();
        assert(rs[rs.len() - 1] == last);
        assert(keys_unique(prev)) by {
            assert forall|a: int, b: int| 0 <= a < prev.len() && 0 <= b < prev.len() && a != b implies prev[a].0
                != prev[b].0 by {
                assert(prev[a].0 == c[a].0 && prev[b].0 == c[b].0);
            }
        }
        assert forall|j: int| 0 <= j < last.1.len() implies has_key(prev, (#[trigger] last.1[j]).family) by {
            let k = last.1[j].family;
            assert(rs[rs.len() - 1].1[j].family == k);
            assert(has_key(c, k));
            let a = choose|a: int| 0 <= a < c.len() && #[trigger] c[a].0 == k;
            assert(prev[a].0 == k);
        }
        lemma_repo_list_in_place(prev, last.0, last.1);
        assert forall|i: int| 0 <= i < c.len() implies #[trigger] merge_repos(c, rs)[i] == (
            c[i].0,
            with_repo_writes(c[i].1, repo_writes(rs, c[i].0)),
        ) by {
            let k = c[i].0;
            lemma_insert_all_concat(c[i].1.repos, repo_writes(p, k), entry_writes(last.0, last.1, k));
            assert(merge_repos(c, rs)[i] == merge_repo_list(prev, last.0, last.1)[i]);
        }
    }
}

/// Entries of one repository merged into a catalog: every aggregate present after
/// holds what it held before (or a fresh one) with those entries' writes.
proof fn lemma_repo_list_lookup(c: Seq<(Seq<char>, FontView)>, repo: Seq<char>, es: Seq<RepoFontView>)
    requires
        keys_unique(c),
    ensures
        forall|k: Seq<char>|
            has_key(merge_repo_list(c, repo, es), k) ==> #[trigger] lookup(merge_repo_list(c, repo, es), k) == Some(
                with_repo_writes(font_or_empty(c, k), entry_writes(repo, es, k)),
            ),
    decreases es.len(),
{
    if es.len() == 0 {
        assert forall|k: Seq<char>| has_key(c, k) implies #[trigger] lookup(c, k) == Some(
            with_repo_writes(font_or_empty(c, k), entry_writes(repo, es, k)),
        ) by {
            lemma_index_of(c, k);
            lemma_insert_all_empty(font_or_empty(c, k).repos);
        }
    } else {
        let p = es.drop_last();
        lemma_repo_list_lookup(c, repo, p);
        lemma_merge_repo_list_keys(c, repo, p);
        let prev = merge_repo_list(c, repo, p);
        let e = es.last();
        assert(es[es.len() - 1] == e);
        let k0 = e.family;
        let nf = font_or_empty(prev, k0).with_repo(repo, e);
        lemma_insert_entry(prev, k0, nf);
        let t = merge_repo_list(c, repo, es);
        assert(t == insert_entry(prev, k0, nf));
        assert forall|k: Seq<char>| has_key(t, k) implies #[trigger] lookup(t, k) == Some(
            with_repo_writes(font_or_empty(c, k), entry_writes(repo, es, k)),
        ) by {
            if k == k0 {
                let w = entry_writes(repo, p, k);
                assert(entry_writes(repo, es, k) == w.push((repo, e)));
                assert(w.push((repo, e)).drop_last() =~= w);
                let fc = font_or_empty(c, k);
                assert(insert_all(fc.repos, w.push((repo, e))) == insert_entry(insert_all(fc.repos, w), repo, e));
                lemma_index_of(prev, k);
                if !has_key(prev, k) {
                    lemma_index_of(c, k);
                    assert forall|j: int| 0 <= j < p.len() implies (#[trigger] p[j]).family != k by {}
                    lemma_entry_writes_none(repo, p, k);
                    lemma_insert_all_empty(fc.repos);
                    assert(fc == FontView::empty(k));
                    assert(font_or_empty(prev, k) == FontView::empty(k));
                    assert(with_repo_writes(fc, w) == fc);
                } else {
                    assert(lookup(prev, k) == Some(with_repo_writes(fc, w)));
                    assert(font_or_empty(prev, k) == with_repo_writes(fc, w));
                }
                assert(nf == with_repo_writes(fc, w.push((repo, e))));
                assert(lookup(t, k) == Some(nf));
            } else {
                assert(entry_writes(repo, es, k) == entry_writes(repo, p, k));
                assert(lookup(t, k) == lookup(prev, k));
                assert(has_key(prev, k));
            }
        }
    }
}

/// Every repository's entries merged into a catalog: every aggregate present after
/// holds what it held before (or a fresh one) with all the writes made to it.
proof fn lemma_repos_lookup(c: Seq<(Seq<char>, FontView)>, rs: Seq<(Seq<char>, Seq<RepoFontView>)>)
    requires
        keys_unique(c),
    ensures
        forall|k: Seq<char>|
            has_key(merge_repos(c, rs), k) ==> #[trigger] lookup(merge_repos(c, rs), k) == Some(
                with_repo_writes(font_or_empty(c, k), repo_writes(rs, k)),
            ),
    decreases rs.len(),
{
    if rs.len() == 0 {
        assert forall|k: Seq<char>| has_key(c, k) implies #[trigger] lookup(c, k) == Some(
            with_repo_writes(font_or_empty(c, k), repo_writes(rs, k)),
        ) by {
            lemma_index_of(c, k);
            lemma_insert_all_empty(font_or_empty(c, k).repos);
        }
    } else {
        let p = rs.drop_last();
        lemma_repos_lookup(c, p);
        lemma_merge_repos_keys(c, p);
        let prev = merge_repos(c, p);
        let last = rs.last();
        assert(rs[rs.len() - 1] == last);
        lemma_repo_list_lookup(prev, last.0, last.1);
        lemma_merge_repo_list_keys(prev, last.0, last.1);
        let t = merge_repos(c, rs);
        assert(t == merge_repo_list(prev, last.0, last.1));
        assert forall|k: Seq<char>| has_key(t, k) implies #[trigger] lookup(t, k) == Some(
            with_repo_writes(font_or_empty(c, k), repo_writes(rs, k)),
        ) by {
            let fc = font_or_empty(c, k);
            let w1 = repo_writes(p, k);
            let w2 = entry_writes(last.0, last.1, k);
            lemma_insert_all_concat(fc.repos, w1, w2);
            lemma_index_of(prev, k);
            if !has_key(prev, k) {
                lemma_index_of(c, k);
                lemma_repo_writes_none(p, k);
                lemma_insert_all_empty(fc.repos);
            }
        }
    }
}

proof fn lemma_local_write_none(ls: Seq<(Location, LocalFontView)>, k: Seq<char>, loc: Location)
    requires
        locals_named(ls),
        !found_locally(ls, k),
    ensures
        local_write(ls, k, loc) is None,
    decreases ls.len(),
{
    if ls.len() > 0 {
        let p = ls.drop_last();
        assert(locals_named(p)) by {
            assert forall|j: int| 0 <= j < p.len() implies (#[trigger] p[j]).1.family is Some by {
                assert(p[j] == ls[j]);
            }
        }
        assert(!found_locally(p, k)) by {
            if found_locally(p, k) {
                let j = choose|j: int| 0 <= j < p.len() && #[trigger] p[j].1.family == Some(k);
                assert(ls[j].1.family == Some(k));
            }
        }
        lemma_local_write_none(p, k, loc);
        assert(ls[ls.len() - 1] == ls.last());
        assert(ls.last().1.family is Some);
        if local_key(ls.last().1) == k {
            assert(ls[ls.len() - 1].1.family == Some(k));
        }
    }
}

proof fn lemma_local_writes_step(f: FontView, ls: Seq<(Location, LocalFontView)>, k: Seq<char>)
    requires
        ls.len() > 0,
    ensures
        local_key(ls.last().1) == k ==> with_local_writes(f, ls, k) == with_local_writes(f, ls.drop_last(), k).with_local(
            ls.last().0,
            ls.last().1,
        ),
        local_key(ls.last().1) != k ==> with_local_writes(f, ls, k) == with_local_writes(f, ls.drop_last(), k),
{
}

/// Local records merged into a catalog that has their families: each aggregate
/// keeps its place and gets the records stored for it.
proof fn lemma_locals_in_place(c: Seq<(Seq<char>, FontView)>, ls: Seq<(Location, LocalFontView)>)
    requires
        keys_unique(c),
        forall|j: int| 0 <= j < ls.len() ==> has_key(c, local_key((#[trigger] ls[j]).1)),
    ensures
        merge_locals(c, ls).len() == c.len(),
        forall|i: int|
            0 <= i < c.len() ==> #[trigger] merge_locals(c, ls)[i] == (c[i].0, with_local_writes(c[i].1, ls, c[i].0)),
    decreases ls.len(),
{
    if ls.len() == 0 {
        assert forall|i: int| 0 <= i < c.len() implies #[trigger] merge_locals(c, ls)[i] == (
            c[i].0,
            with_local_writes(c[i].1, ls, c[i].0),
        ) by {}
    } else {
        let p = ls.drop_last();
        assert forall|j: int| 0 <= j < p.len() implies has_key(c, local_key((#[trigger] p[j]).1)) by {
            assert(p[j] == ls[j]);
        }
        lemma_locals_in_place(c, p);
        let prev = merge_locals(c, p);
        let (loc, rec) = ls.last();
        assert(ls[ls.len() - 1] == ls.last());
        let k = local_key(rec);
        assert(keys_unique(prev)) by {
            assert forall|a: int, b: int| 0 <= a < prev.len() && 0 <= b < prev.len() && a != b implies prev[a].0
                != prev[b].0 by {
                assert(prev[a].0 == c[a].0 && prev[b].0 == c[b].0);
            }
        }
        lemma_index_of(c, k);
        let i0 = index_of(c, k);
        assert(prev[i0].0 == k);
        lemma_unique_index(prev, i0);
        let nf = font_or_empty(prev, k).with_local(loc, rec);
        assert(merge_locals(c, ls) == prev.update(i0, (k, nf)));
        assert forall|i: int| 0 <= i < c.len() implies #[trigger] merge_locals(c, ls)[i] == (
            c[i].0,
            with_local_writes(c[i].1, ls, c[i].0),
        ) by {
            lemma_local_writes_step(c[i].1, ls, c[i].0);
        }
    }
}

/// Local records merged into a catalog: every aggregate present after holds what
/// it held before (or a fresh one) with the records stored for it.
proof fn lemma_locals_lookup(c: Seq<(Seq<char>, FontView)>, ls: Seq<(Location, LocalFontView)>)
    requires
        keys_unique(c),
        locals_named(ls),
    ensures
        forall|k: Seq<char>|
            has_key(merge_locals(c, ls), k) ==> #[trigger] lookup(merge_locals(c, ls), k) == Some(
                with_local_writes(font_or_empty(c, k), ls, k),
            ),
    decreases ls.len(),
{
    if ls.len() == 0 {
        assert forall|k: Seq<char>| has_key(c, k) implies #[trigger] lookup(c, k) == Some(
            with_local_writes(font_or_empty(c, k), ls, k),
        ) by {
            lemma_index_of(c, k);
        }
    } else {
        let p = ls.drop_last();
        assert(locals_named(p)) by {
            assert forall|j: int| 0 <= j < p.len() implies (#[trigger] p[j]).1.family is Some by {
                assert(p[j] == ls[j]);
            }
        }
        lemma_locals_lookup(c, p);
        lemma_merge_locals_keys(c, p);
        let prev = merge_locals(c, p);
        let (loc, rec) = ls.last();
        let k0 = local_key(rec);
        let nf = font_or_empty(prev, k0).with_local(loc, rec);
        lemma_insert_entry(prev, k0, nf);
        let t = merge_locals(c, ls);
        assert(t == insert_entry(prev, k0, nf));
        assert forall|k: Seq<char>| has_key(t, k) implies #[trigger] lookup(t, k) == Some(
            with_local_writes(font_or_empty(c, k), ls, k),
        ) by {
            let fc = font_or_empty(c, k);
            lemma_local_writes_step(fc, ls, k);
            if k == k0 {
                lemma_index_of(prev, k);
                if !has_key(prev, k) {
                    lemma_index_of(c, k);
                    lemma_local_write_none(p, k, Location::User);
                    lemma_local_write_none(p, k, Location::System);
                    lemma_local_write_none(p, k, Location::Memory);
                    assert(with_local_writes(fc, p, k) == fc);
                    assert(font_or_empty(prev, k) == fc);
                } else {
                    assert(font_or_empty(prev, k) == with_local_writes(fc, p, k));
                }
                assert(lookup(t, k) == Some(nf));
            } else {
                assert(lookup(t, k) == lookup(prev, k));
                assert(has_key(prev, k));
            }
        }
    }
}

/// Merging the same repository entries and local records again into the catalog
/// they built changes nothing: every entry and record is already in place.
pub proof fn lemma_remerge_changes_nothing(rs: Seq<(Seq<char>, Seq<RepoFontView>)>, ls: Seq<(Location, LocalFontView)>)
    requires
        locals_named(ls),
    ensures
        merge_locals(merge_repos(catalog_of(rs, ls), rs), ls) == catalog_of(rs, ls),
{
    let empty = Seq::<(Seq<char>, FontView)>::empty();
    let c0 = merge_repos(empty, rs);
    let c = catalog_of(rs, ls);
    lemma_catalog_families(rs, ls);
    lemma_merge_repos_keys(empty, rs);
    lemma_repos_lookup(empty, rs);
    lemma_locals_lookup(c0, ls);
    assert forall|i: int| 0 <= i < c.len() implies (#[trigger] c[i]).1 == with_local_writes(
        with_repo_writes(FontView::empty(c[i].0), repo_writes(rs, c[i].0)),
        ls,
        c[i].0,
    ) by {
        let k = c[i].0;
        lemma_unique_index(c, i);
        lemma_index_of(c0, k);
        lemma_index_of(empty, k);
        if !has_key(c0, k) {
            lemma_repo_writes_none(rs, k);
            lemma_insert_all_empty(FontView::empty(k).repos);
        }
    }
    lemma_repos_in_place(c, rs);
    let d = merge_repos(c, rs);
    assert forall|i: int| 0 <= i < c.len() implies #[trigger] d[i] == c[i] by {
        let k = c[i].0;
        lemma_insert_all_twice(Seq::<(Seq<char>, RepoFontView)>::empty(), repo_writes(rs, k));
    }
    assert(d =~= c);
    assert forall|j: int| 0 <= j < ls.len() implies has_key(c, local_key((#[trigger] ls[j]).1)) by {
        assert(ls[j].1.family is Some);
        assert(found_locally(ls, local_key(ls[j].1)));
    }
    lemma_locals_in_place(c, ls);
    assert forall|i: int| 0 <= i < c.len() implies #[trigger] merge_locals(c, ls)[i] == c[i] by {}
    assert(merge_locals(c, ls) =~= c);
}

} // verus!
