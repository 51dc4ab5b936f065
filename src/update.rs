//! Update detection: which repositories carry a newer copy of a family than the
//! local one.
use vstd::prelude::*;

use crate::font::{resolved_by, Attribute, Font, FontView};
use crate::record::{texts_view, LocalFont, Location, RepoFontView};

verus! {

/// The Unix time, in seconds, of midnight UTC at the start of the day that `s`
/// writes as `YYYY-MM-DD`, as chrono reads that format; None where chrono
/// rejects `s`.
pub uninterp spec fn midnight_utc_of(s: Seq<char>) -> Option<i64>;

/// Whether `c` is a decimal digit.
pub open spec fn is_digit(c: char) -> bool {
    '0' <= c && c <= '9'
}

/// The value of a decimal digit.
pub open spec fn digit_value(c: char) -> int {
    c as int - '0' as int
}

/// Whether `s` is written `DDDD-DD-DD` with decimal digits, and its month (the
/// middle pair) is not 1 to 12 or its day (the last pair) is not 1 to 31.
pub open spec fn date_out_of_range(s: Seq<char>) -> bool {
    &&& s.len() == 10
    &&& is_digit(s[0]) && is_digit(s[1]) && is_digit(s[2]) && is_digit(s[3])
    &&& s[4] == '-' && s[7] == '-'
    &&& is_digit(s[5]) && is_digit(s[6]) && is_digit(s[8]) && is_digit(s[9])
    &&& {
        let month = 10 * digit_value(s[5]) + digit_value(s[6]);
        let day = 10 * digit_value(s[8]) + digit_value(s[9]);
        month < 1 || month > 12 || day < 1 || day > 31
    }
}

/// Relies on chrono's `NaiveDate::parse_from_str` with the format `%Y-%m-%d`, and
/// on chrono turning that day at 00:00 (`NaiveDate::and_time` with
/// `NaiveTime::MIN`, `NaiveDateTime::and_utc`) into Unix seconds
/// (`DateTime::timestamp`). The outcome depends on the text alone. Out-of-bound
/// dates are errors, as `parse_from_str` documents: a month outside 1 to 12 or a
/// day outside 1 to 31 is refused when read (`Parsed::set_month`, `set_day`).
#[verifier::external_body]
fn parse_day(s: &str) -> (r: Option<i64>)
    ensures
        r == midnight_utc_of(s@),
        date_out_of_range(s@) ==> r is None,
{
    match chrono::NaiveDate::parse_from_str(s, "%Y-%m-%d") {
        Ok(d) => Some(d.and_time(chrono::NaiveTime::MIN).and_utc().timestamp()),
        Err(_) => None,
    }
}

/// Whether the entry gives a date whose month or day is out of range.
pub open spec fn entry_out_of_range(e: RepoFontView) -> bool {
    e.last_modified matches Some(d) && date_out_of_range(d)
}

/// The date of a repository entry: None when it gives none or one that does not parse.
pub open spec fn entry_date(e: RepoFontView) -> Option<i64> {
    match e.last_modified {
        Some(d) => midnight_utc_of(d),
        None => None,
    }
}

/// The names, in order, of the dated entries whose date is later than `local`.
pub open spec fn newer_names(dated: Seq<(Seq<char>, Option<i64>)>, local: i64) -> Seq<Seq<char>>
    decreases dated.len(),
{
    if dated.len() == 0 {
        Seq::empty()
    } else {
        let prev = newer_names(dated.drop_last(), local);
        match dated.last().1 {
            Some(t) if t > local => prev.push(dated.last().0),
            _ => prev,
        }
    }
}

/// Each repository of an aggregate with its entry's date.
pub open spec fn dated_repos(repos: Seq<(Seq<char>, RepoFontView)>) -> Seq<(Seq<char>, Option<i64>)> {
    repos.map_values(|e: (Seq<char>, RepoFontView)| (e.0, entry_date(e.1)))
}

/// A list of names, or None where it is empty.
pub open spec fn unless_empty(names: Seq<Seq<char>>) -> Option<Seq<Seq<char>>> {
    if names.len() == 0 {
        None
    } else {
        Some(names)
    }
}

/// The view of an optional list of texts.
pub open spec fn opt_texts_view(o: Option<Vec<String>>) -> Option<Seq<Seq<char>>> {
    match o {
        Some(v) => Some(texts_view(v@)),
        None => None,
    }
}

/// The names, in order, of the entries whose date is later than `local`; None when
/// there are none. An entry without a date takes no part.
pub fn newer_repos(dated: &Vec<(String, Option<i64>)>, local: i64) -> (r: Option<Vec<String>>)
    ensures
        opt_texts_view(r) == unless_empty(
            newer_names(dated@.map_values(|e: (String, Option<i64>)| (e.0@, e.1)), local),
        ),
{
    let ghost all = dated@.map_values(|e: (String, Option<i64>)| (e.0@, e.1));
    let mut out: Vec<String> = Vec::new();
    let mut i: usize = 0;
    while i < dated.len()
        invariant
            i <= dated@.len(),
            all == dated@.map_values(|e: (String, Option<i64>)| (e.0@, e.1)),
            texts_view(out@) == newer_names(all.subrange(0, i as int), local),
        decreases dated@.len() - i,
    {
        proof {
            assert(all.subrange(0, i + 1).drop_last() =~= all.subrange(0, i as int));
        }
        match dated[i].1 {
            Some(t) => {
                if t > local {
                    out.push(dated[i].0.clone());
                    assert(texts_view(out@) =~= newer_names(all.subrange(0, i as int), local).push(
                        all[i as int].0,
                    ));
                }
            },
            None => {},
        }
        i = i + 1;
    }
    assert(all.subrange(0, dated@.len() as int) =~= all);
    if out.len() > 0 {
        Some(out)
    } else {
        assert(texts_view(out@) =~= Seq::<Seq<char>>::empty());
        None
    }
}

impl Font {
    /// The date that repository `repo` gives this family, as midnight UTC in Unix
    /// seconds; None when the repository does not offer the family, gives no date,
    /// or gives one that does not read as `YYYY-MM-DD`.
    pub fn get_repo_last_modified(&self, repo: &str) -> (r: Option<i64>)
        ensures
            r == match self@.repo_entry(repo@) {
                Some(e) => entry_date(e),
                None => None,
            },
            (self@.repo_entry(repo@) matches Some(e) && entry_out_of_range(e)) ==> r is None,
    {
        match self.get_repo_font(repo) {
            Some(e) => match &e.last_modified {
                Some(d) => parse_day(d.as_str()),
                None => None,
            },
            None => None,
        }
    }

    /// The repositories, in merge order, whose entry is dated later than `local`;
    /// None when there are none.
    pub fn repos_with_update_since(&self, local: i64) -> (r: Option<Vec<String>>)
        ensures
            opt_texts_view(r) == unless_empty(newer_names(dated_repos(self@.repos), local)),
            forall|i: int|
                0 <= i < self@.repos.len() && entry_out_of_range(#[trigger] self@.repos[i].1) ==> entry_date(
                    self@.repos[i].1,
                ) is None,
    {
        let names = match self.get_repos_availability() {
            Some(v) => v,
            None => {
                let v: Vec<String> = Vec::new();
                assert(texts_view(v@) =~= Seq::<Seq<char>>::empty());
                v
            },
        };
        let ghost repos = self@.repos;
        assert(names@.len() == texts_view(names@).len());
        assert(crate::keyed::keys_of(repos).len() == repos.len());
        let mut dated: Vec<(String, Option<i64>)> = Vec::new();
        let mut i: usize = 0;
        while i < names.len()
            invariant
                repos == self@.repos,
                texts_view(names@) == crate::keyed::keys_of(repos),
                crate::keyed::keys_unique(repos),
                i <= names@.len(),
                names@.len() == repos.len(),
                dated@.map_values(|e: (String, Option<i64>)| (e.0@, e.1)) == dated_repos(repos).subrange(0, i as int),
                forall|j: int|
                    0 <= j < i && entry_out_of_range(#[trigger] repos[j].1) ==> entry_date(repos[j].1) is None,
            decreases names@.len() - i,
        {
            let name = names[i].clone();
            let d = self.get_repo_last_modified(name.as_str());
            proof {
                assert(texts_view(names@)[i as int] == name@);
                assert(crate::keyed::keys_of(repos)[i as int] == repos[i as int].0);
                crate::keyed::lemma_unique_index(repos, i as int);
            }
            let ghost before = dated@;
            let ghost key = name@;
            dated.push((name, d));
            proof {
                assert(d == entry_date(repos[i as int].1));
                assert(key == repos[i as int].0);
                let now = dated@.map_values(|e: (String, Option<i64>)| (e.0@, e.1));
                let was = before.map_values(|e: (String, Option<i64>)| (e.0@, e.1));
                assert(was.len() == i);
                assert(before.len() == i);
                assert(dated@ == before.push((dated@[i as int].0, d)));
                assert(now.len() == i + 1);
                assert forall|j: int| 0 <= j < i + 1 implies now[j] == dated_repos(repos).subrange(0, i + 1)[j] by {
                    if j < i {
                        assert(dated@[j] == before[j]);
                        assert(now[j] == was[j]);
                        assert(was[j] == dated_repos(repos).subrange(0, i as int)[j]);
                    }
                }
                assert(now =~= dated_repos(repos).subrange(0, i + 1));
            }
            i = i + 1;
        }
        assert(dated_repos(repos).subrange(0, names@.len() as int) =~= dated_repos(repos));
        newer_repos(&dated, local)
    }

    /// The repositories whose entry is newer than the copy at `loc`, asking
    /// `resolve` for that copy's date when the record cannot tell. None when there
    /// are none, and None when no date of a local copy is known.
    pub fn get_all_repos_with_update_at<F: FnOnce(String) -> Option<(Location, LocalFont)>>(
        &mut self,
        loc: Location,
        resolve: F,
    ) -> (r: Option<Vec<String>>)
        requires
            forall|s: String| call_requires(resolve, (s,)),
        ensures
            resolved_by(old(self)@, loc, Attribute::LastModified, resolve, final(self)@),
            opt_texts_view(r) == updates_at(final(self)@, loc),
    {
        match self.get_local_last_modified_at(loc, resolve) {
            Some(t) => self.repos_with_update_since(t),
            None => None,
        }
    }

    /// The repositories with a newer copy than the user's (see `get_all_repos_with_update_at`).
    pub fn get_all_repos_with_update_user<F: FnOnce(String) -> Option<(Location, LocalFont)>>(
        &mut self,
        resolve: F,
    ) -> (r: Option<Vec<String>>)
        requires
            forall|s: String| call_requires(resolve, (s,)),
        ensures
            resolved_by(old(self)@, Location::User, Attribute::LastModified, resolve, final(self)@),
            opt_texts_view(r) == updates_at(final(self)@, Location::User),
    {
        self.get_all_repos_with_update_at(Location::User, resolve)
    }

    /// The repositories with a newer copy than the system's (see `get_all_repos_with_update_at`).
    pub fn get_all_repos_with_update_system<F: FnOnce(String) -> Option<(Location, LocalFont)>>(
        &mut self,
        resolve: F,
    ) -> (r: Option<Vec<String>>)
        requires
            forall|s: String| call_requires(resolve, (s,)),
        ensures
            resolved_by(old(self)@, Location::System, Attribute::LastModified, resolve, final(self)@),
            opt_texts_view(r) == updates_at(final(self)@, Location::System),
    {
        self.get_all_repos_with_update_at(Location::System, resolve)
    }

    /// Whether some repository has a newer copy than the user's.
    pub fn is_update_available_user<F: FnOnce(String) -> Option<(Location, LocalFont)>>(
        &mut self,
        resolve: F,
    ) -> (r: bool)
        requires
            forall|s: String| call_requires(resolve, (s,)),
        ensures
            resolved_by(old(self)@, Location::User, Attribute::LastModified, resolve, final(self)@),
            r == updates_at(final(self)@, Location::User) is Some,
    {
        self.get_all_repos_with_update_user(resolve).is_some()
    }

    /// Whether some repository has a newer copy than the system's.
    pub fn is_update_available_system<F: FnOnce(String) -> Option<(Location, LocalFont)>>(
        &mut self,
        resolve: F,
    ) -> (r: bool)
        requires
            forall|s: String| call_requires(resolve, (s,)),
        ensures
            resolved_by(old(self)@, Location::System, Attribute::LastModified, resolve, final(self)@),
            r == updates_at(final(self)@, Location::System) is Some,
    {
        self.get_all_repos_with_update_system(resolve).is_some()
    }
}

/// The repositories with a newer entry than the copy at `loc`: None when the copy's
/// date is unknown or no repository is newer.
pub open spec fn updates_at(f: FontView, loc: Location) -> Option<Seq<Seq<char>>> {
    match f.last_modified_at(loc) {
        Some(t) => unless_empty(newer_names(dated_repos(f.repos), t)),
        None => None,
    }
}

proof fn lemma_undated_ignored(d: Seq<(Seq<char>, Option<i64>)>, i: int, local: i64)
    requires
        0 <= i < d.len(),
        d[i].1 is None,
    ensures
        newer_names(d, local) == newer_names(d.remove(i), local),
    decreases d.len(),
{
    if i == d.len() - 1 {
        assert(d.remove(i) =~= d.drop_last());
    } else {
        lemma_undated_ignored(d.drop_last(), i, local);
        let r = d.remove(i);
        assert(r.drop_last() =~= d.drop_last().remove(i));
        assert(r.last() == d.last());
    }
}

/// A repository entry without a usable date takes no part in update detection:
/// the repositories found newer than any local date are those found when the
/// entry is left out. (`repos_with_update_since` states that a date with a month
/// or day out of range is such a date.)
pub proof fn lemma_undated_entry_ignored(repos: Seq<(Seq<char>, RepoFontView)>, i: int, local: i64)
    requires
        0 <= i < repos.len(),
        entry_date(repos[i].1) is None,
    ensures
        newer_names(dated_repos(repos), local) == newer_names(dated_repos(repos.remove(i)), local),
{
    lemma_undated_ignored(dated_repos(repos), i, local);
    assert(dated_repos(repos.remove(i)) =~= dated_repos(repos).remove(i));
}

} // verus!
