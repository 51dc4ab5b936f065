//! One family's aggregate: what each repository offers of it and what is known of
//! its local copies, with lazy resolution of what is not known yet.
use vstd::prelude::*;

use crate::keyed::{insert_entry, keys_of, keys_unique, lookup, StrMap};
use crate::record::{
    copy_opt_text, copy_texts, opt_text_view, texts_view, uninstalled_view, LocalFont, LocalFontView, Location, RepoFont, RepoFontView,
};

verus! {

/// A field of a local record that a query can ask for.
#[derive(PartialEq, Eq, Structural, Clone, Copy, Debug)]
pub enum Attribute {
    Installed,
    Variants,
    Files,
    LastModified,
    Family,
}

impl LocalFontView {
    /// Whether the record holds the field.
    pub open spec fn has(self, a: Attribute) -> bool {
        match a {
            Attribute::Installed => self.installed is Some,
            Attribute::Variants => self.variants is Some,
            Attribute::Files => self.files is Some,
            Attribute::LastModified => self.last_modified is Some,
            Attribute::Family => self.family is Some,
        }
    }
}

/// The view of an optional local record.
pub open spec fn opt_local_view(o: Option<LocalFont>) -> Option<LocalFontView> {
    match o {
        Some(r) => Some(r@),
        None => None,
    }
}

/// The view of what a resolver found: the location and the record.
pub open spec fn found_view(o: Option<(Location, LocalFont)>) -> Option<(Location, LocalFontView)> {
    match o {
        Some((l, r)) => Some((l, r@)),
        None => None,
    }
}

/// A family's aggregate.
#[derive(Debug)]
pub struct Font {
    family: String,
    repo_font: StrMap<RepoFont>,
    local_user: Option<LocalFont>,
    local_system: Option<LocalFont>,
    local_memory: Option<LocalFont>,
}

pub struct FontView {
    pub family: Seq<char>,
    /// Repository name to entry, in the order the repositories were merged.
    pub repos: Seq<(Seq<char>, RepoFontView)>,
    pub user: Option<LocalFontView>,
    pub system: Option<LocalFontView>,
    pub memory: Option<LocalFontView>,
}

impl View for Font {
    type V = FontView;

    closed spec fn view(&self) -> FontView {
        FontView {
            family: self.family@,
            repos: self.repo_font@,
            user: opt_local_view(self.local_user),
            system: opt_local_view(self.local_system),
            memory: opt_local_view(self.local_memory),
        }
    }
}

impl FontView {
    /// The aggregate of a family that nothing is known of yet.
    pub open spec fn empty(family: Seq<char>) -> FontView {
        FontView { family, repos: Seq::empty(), user: None, system: None, memory: None }
    }

    /// The record at a location.
    pub open spec fn local(self, loc: Location) -> Option<LocalFontView> {
        match loc {
            Location::User => self.user,
            Location::System => self.system,
            Location::Memory => self.memory,
        }
    }

    /// The aggregate with `rec` as the record at `loc`.
    pub open spec fn with_local(self, loc: Location, rec: LocalFontView) -> FontView {
        match loc {
            Location::User => FontView { user: Some(rec), ..self },
            Location::System => FontView { system: Some(rec), ..self },
            Location::Memory => FontView { memory: Some(rec), ..self },
        }
    }

    /// The aggregate with `entry` as what repository `repo` offers.
    pub open spec fn with_repo(self, repo: Seq<char>, entry: RepoFontView) -> FontView {
        FontView { repos: insert_entry(self.repos, repo, entry), ..self }
    }

    /// Whether a query for `a` at `loc` has to ask the resolver: there is no record
    /// there, or the record lacks the field and is not that of a removed copy.
    pub open spec fn needs_resolution(self, loc: Location, a: Attribute) -> bool {
        match self.local(loc) {
            None => true,
            Some(r) => !r.has(a) && !r.is_uninstalled(),
        }
    }

    /// The aggregate once the resolver, asked on behalf of `loc`, answered `found`:
    /// a record it found is stored at its own location; when it found nothing,
    /// `loc` is marked as holding no copy.
    pub open spec fn after_resolution(self, loc: Location, found: Option<(Location, LocalFontView)>) -> FontView {
        match found {
            Some((l, r)) => self.with_local(l, r),
            None => self.with_local(loc, uninstalled_view()),
        }
    }

    /// Whether the record at `loc` says the family is installed there (false when unknown).
    pub open spec fn installed_at(self, loc: Location) -> bool {
        match self.local(loc) {
            Some(r) => match r.installed {
                Some(b) => b,
                None => false,
            },
            None => false,
        }
    }

    /// The variants of the copy at `loc` (none when unknown).
    pub open spec fn variants_at(self, loc: Location) -> Seq<Seq<char>> {
        match self.local(loc) {
            Some(r) => match r.variants {
                Some(v) => v,
                None => Seq::empty(),
            },
            None => Seq::empty(),
        }
    }

    /// The files of the copy at `loc` (none when unknown).
    pub open spec fn files_at(self, loc: Location) -> Seq<(Seq<char>, Seq<char>)> {
        match self.local(loc) {
            Some(r) => match r.files {
                Some(m) => m,
                None => Seq::empty(),
            },
            None => Seq::empty(),
        }
    }

    /// When the copy at `loc` was last modified, if that is known.
    pub open spec fn last_modified_at(self, loc: Location) -> Option<i64> {
        match self.local(loc) {
            Some(r) => r.last_modified,
            None => None,
        }
    }

    /// The family name the copy at `loc` reports (empty when unknown).
    pub open spec fn family_at(self, loc: Location) -> Seq<char> {
        match self.local(loc) {
            Some(r) => match r.family {
                Some(f) => f,
                None => Seq::empty(),
            },
            None => Seq::empty(),
        }
    }

    /// What repository `repo` offers of this family, if anything.
    pub open spec fn repo_entry(self, repo: Seq<char>) -> Option<RepoFontView> {
        lookup(self.repos, repo)
    }
}

/// How the aggregate changes in one lazy query for `a` at `loc`: untouched when the
/// record can answer; otherwise `resolve` is called once, with the family name,
/// and its answer is stored.
pub open spec fn resolved_by<F: FnOnce(String) -> Option<(Location, LocalFont)>>(
    before: FontView,
    loc: Location,
    a: Attribute,
    resolve: F,
    after: FontView,
) -> bool {
    if before.needs_resolution(loc, a) {
        exists|name: String, found: Option<(Location, LocalFont)>|
            name@ == before.family && call_ensures(resolve, (name,), found) && after
                == before.after_resolution(loc, found_view(found))
    } else {
        after == before
    }
}

impl Font {
    /// The aggregate of a family that nothing is known of yet.
    pub fn new(family: String) -> (r: Font)
        ensures
            r@ == FontView::empty(family@),
    {
        Font {
            family,
            repo_font: StrMap::new(),
            local_user: None,
            local_system: None,
            local_memory: None,
        }
    }

    /// The family's name.
    pub fn family(&self) -> (r: &String)
        ensures
            r@ == self@.family,
    {
        &self.family
    }

    /// Records what repository `repo` offers of this family, replacing an earlier entry.
    pub fn add_repo_font(&mut self, repo: String, entry: RepoFont)
        ensures
            final(self)@ == old(self)@.with_repo(repo@, entry@),
    {
        self.repo_font.insert(repo, entry);
    }

    /// The record at `loc`.
    pub fn get_local_font(&self, loc: Location) -> (r: Option<&LocalFont>)
        ensures
            self@.local(loc) == match r {
                Some(rec) => Some(rec@),
                None => None::<LocalFontView>,
            },
    {
        match loc {
            Location::User => self.local_user.as_ref(),
            Location::System => self.local_system.as_ref(),
            Location::Memory => self.local_memory.as_ref(),
        }
    }

    /// Stores `rec` as the record at `loc`, replacing what was there.
    pub fn set_local_font(&mut self, loc: Location, rec: LocalFont)
        ensures
            final(self)@ == old(self)@.with_local(loc, rec@),
    {
        match loc {
            Location::User => self.local_user = Some(rec),
            Location::System => self.local_system = Some(rec),
            Location::Memory => self.local_memory = Some(rec),
        }
    }

    /// Whether a query for `a` at `loc` has to ask the resolver.
    pub fn needs_resolution(&self, loc: Location, a: Attribute) -> (r: bool)
        ensures
            r == self@.needs_resolution(loc, a),
    {
        match self.get_local_font(loc) {
            None => true,
            Some(rec) => {
                let held = match a {
                    Attribute::Installed => rec.installed.is_some(),
                    Attribute::Variants => rec.variants.is_some(),
                    Attribute::Files => rec.files.is_some(),
                    Attribute::LastModified => rec.last_modified.is_some(),
                    Attribute::Family => rec.family.is_some(),
                };
                let removed = match rec.installed {
                    Some(b) => !b,
                    None => false,
                };
                !held && !removed
            },
        }
    }

    /// Stores the resolver's answer to a query made on behalf of `loc`.
    pub fn record_resolution(&mut self, loc: Location, found: Option<(Location, LocalFont)>)
        ensures
            final(self)@ == old(self)@.after_resolution(loc, found_view(found)),
    {
        match found {
            Some((l, rec)) => self.set_local_font(l, rec),
            None => self.set_local_font(loc, LocalFont::uninstalled()),
        }
    }

    /// Asks `resolve` for this family when a query for `a` at `loc` cannot be
    /// answered from the records, and stores its answer.
    pub fn resolve_if_needed<F: FnOnce(String) -> Option<(Location, LocalFont)>>(
        &mut self,
        loc: Location,
        a: Attribute,
        resolve: F,
    )
        requires
            forall|s: String| call_requires(resolve, (s,)),
        ensures
            resolved_by(old(self)@, loc, a, resolve, final(self)@),
    {
        if self.needs_resolution(loc, a) {
            let name = self.family.clone();
            let found = resolve(name);
            self.record_resolution(loc, found);
        }
    }

    /// Whether the record at `loc` says the family is installed there.
    pub fn cached_installed(&self, loc: Location) -> (r: bool)
        ensures
            r == self@.installed_at(loc),
    {
        match self.get_local_font(loc) {
            Some(rec) => match rec.installed {
                Some(b) => b,
                None => false,
            },
            None => false,
        }
    }

    /// The variants that the record at `loc` lists.
    pub fn cached_variants(&self, loc: Location) -> (r: Vec<String>)
        ensures
            texts_view(r@) == self@.variants_at(loc),
    {
        match self.get_local_font(loc) {
            Some(rec) => match &rec.variants {
                Some(v) => copy_texts(v),
                None => {
                    let r: Vec<String> = Vec::new();
                    assert(texts_view(r@) =~= Seq::<Seq<char>>::empty());
                    r
                },
            },
            None => {
                let r: Vec<String> = Vec::new();
                assert(texts_view(r@) =~= Seq::<Seq<char>>::empty());
                r
            },
        }
    }

    /// The files that the record at `loc` lists.
    pub fn cached_files(&self, loc: Location) -> (r: StrMap<String>)
        ensures
            r@ == self@.files_at(loc),
    {
        match self.get_local_font(loc) {
            Some(rec) => match &rec.files {
                Some(m) => m.copy(),
                None => StrMap::new(),
            },
            None => StrMap::new(),
        }
    }

    /// When the record at `loc` says the copy was last modified.
    pub fn cached_last_modified(&self, loc: Location) -> (r: Option<i64>)
        ensures
            r == self@.last_modified_at(loc),
    {
        match self.get_local_font(loc) {
            Some(rec) => rec.last_modified,
            None => None,
        }
    }

    /// The family name that the record at `loc` reports.
    pub fn cached_family(&self, loc: Location) -> (r: String)
        ensures
            r@ == self@.family_at(loc),
    {
        match self.get_local_font(loc) {
            Some(rec) => match &rec.family {
                Some(f) => f.clone(),
                None => String::new(),
            },
            None => String::new(),
        }
    }
}

impl Font {
    /// Whether the family is installed at `loc`, asking `resolve` when the record
    /// cannot tell; false when nobody knows.
    pub fn is_font_installed_at<F: FnOnce(String) -> Option<(Location, LocalFont)>>(
        &mut self,
        loc: Location,
        resolve: F,
    ) -> (r: bool)
        requires
            forall|s: String| call_requires(resolve, (s,)),
        ensures
            resolved_by(old(self)@, loc, Attribute::Installed, resolve, final(self)@),
            r == final(self)@.installed_at(loc),
    {
        self.resolve_if_needed(loc, Attribute::Installed, resolve);
        self.cached_installed(loc)
    }

    /// The variants of the copy at `loc`, asking `resolve` when the record cannot
    /// tell; none when nobody knows.
    pub fn get_local_variants_at<F: FnOnce(String) -> Option<(Location, LocalFont)>>(
        &mut self,
        loc: Location,
        resolve: F,
    ) -> (r: Vec<String>)
        requires
            forall|s: String| call_requires(resolve, (s,)),
        ensures
            resolved_by(old(self)@, loc, Attribute::Variants, resolve, final(self)@),
            texts_view(r@) == final(self)@.variants_at(loc),
    {
        self.resolve_if_needed(loc, Attribute::Variants, resolve);
        self.cached_variants(loc)
    }

    /// The files of the copy at `loc`, asking `resolve` when the record cannot
    /// tell; none when nobody knows.
    pub fn get_local_files_at<F: FnOnce(String) -> Option<(Location, LocalFont)>>(
        &mut self,
        loc: Location,
        resolve: F,
    ) -> (r: StrMap<String>)
        requires
            forall|s: String| call_requires(resolve, (s,)),
        ensures
            resolved_by(old(self)@, loc, Attribute::Files, resolve, final(self)@),
            r@ == final(self)@.files_at(loc),
    {
        self.resolve_if_needed(loc, Attribute::Files, resolve);
        self.cached_files(loc)
    }

    /// When the copy at `loc` was last modified, asking `resolve` when the record
    /// cannot tell; None when nobody knows.
    pub fn get_local_last_modified_at<F: FnOnce(String) -> Option<(Location, LocalFont)>>(
        &mut self,
        loc: Location,
        resolve: F,
    ) -> (r: Option<i64>)
        requires
            forall|s: String| call_requires(resolve, (s,)),
        ensures
            resolved_by(old(self)@, loc, Attribute::LastModified, resolve, final(self)@),
            r == final(self)@.last_modified_at(loc),
    {
        self.resolve_if_needed(loc, Attribute::LastModified, resolve);
        self.cached_last_modified(loc)
    }

    /// The family name that the copy at `loc` reports, asking `resolve` when the
    /// record cannot tell; empty when nobody knows.
    pub fn get_local_font_family_at<F: FnOnce(String) -> Option<(Location, LocalFont)>>(
        &mut self,
        loc: Location,
        resolve: F,
    ) -> (r: String)
        requires
            forall|s: String| call_requires(resolve, (s,)),
        ensures
            resolved_by(old(self)@, loc, Attribute::Family, resolve, final(self)@),
            r@ == final(self)@.family_at(loc),
    {
        self.resolve_if_needed(loc, Attribute::Family, resolve);
        self.cached_family(loc)
    }

    /// Whether the family is installed at the system location (see `is_font_installed_at`).
    pub fn is_font_system_installed<F: FnOnce(String) -> Option<(Location, LocalFont)>>(&mut self, resolve: F) -> (r: bool)
        requires
            forall|s: String| call_requires(resolve, (s,)),
        ensures
            resolved_by(old(self)@, Location::System, Attribute::Installed, resolve, final(self)@),
            r == final(self)@.installed_at(Location::System),
    {
        self.is_font_installed_at(Location::System, resolve)
    }

    /// Whether the family is installed at the user location (see `is_font_installed_at`).
    pub fn is_font_user_installed<F: FnOnce(String) -> Option<(Location, LocalFont)>>(&mut self, resolve: F) -> (r: bool)
        requires
            forall|s: String| call_requires(resolve, (s,)),
        ensures
            resolved_by(old(self)@, Location::User, Attribute::Installed, resolve, final(self)@),
            r == final(self)@.installed_at(Location::User),
    {
        self.is_font_installed_at(Location::User, resolve)
    }

    /// Whether the family is installed at the memory location (see `is_font_installed_at`).
    pub fn is_font_memory_installed<F: FnOnce(String) -> Option<(Location, LocalFont)>>(&mut self, resolve: F) -> (r: bool)
        requires
            forall|s: String| call_requires(resolve, (s,)),
        ensures
            resolved_by(old(self)@, Location::Memory, Attribute::Installed, resolve, final(self)@),
            r == final(self)@.installed_at(Location::Memory),
    {
        self.is_font_installed_at(Location::Memory, resolve)
    }

    /// The variants of the copy at the system location (see `get_local_variants_at`).
    pub fn get_local_system_variants<F: FnOnce(String) -> Option<(Location, LocalFont)>>(&mut self, resolve: F) -> (r: Vec<String>)
        requires
            forall|s: String| call_requires(resolve, (s,)),
        ensures
            resolved_by(old(self)@, Location::System, Attribute::Variants, resolve, final(self)@),
            texts_view(r@) == final(self)@.variants_at(Location::System),
    {
        self.get_local_variants_at(Location::System, resolve)
    }

    /// The variants of the copy at the user location (see `get_local_variants_at`).
    pub fn get_local_user_variants<F: FnOnce(String) -> Option<(Location, LocalFont)>>(&mut self, resolve: F) -> (r: Vec<String>)
        requires
            forall|s: String| call_requires(resolve, (s,)),
        ensures
            resolved_by(old(self)@, Location::User, Attribute::Variants, resolve, final(self)@),
            texts_view(r@) == final(self)@.variants_at(Location::User),
    {
        self.get_local_variants_at(Location::User, resolve)
    }

    /// The variants of the copy at the memory location (see `get_local_variants_at`).
    pub fn get_local_memory_variants<F: FnOnce(String) -> Option<(Location, LocalFont)>>(&mut self, resolve: F) -> (r: Vec<String>)
        requires
            forall|s: String| call_requires(resolve, (s,)),
        ensures
            resolved_by(old(self)@, Location::Memory, Attribute::Variants, resolve, final(self)@),
            texts_view(r@) == final(self)@.variants_at(Location::Memory),
    {
        self.get_local_variants_at(Location::Memory, resolve)
    }

    /// The files of the copy at the system location (see `get_local_files_at`).
    pub fn get_local_system_files<F: FnOnce(String) -> Option<(Location, LocalFont)>>(&mut self, resolve: F) -> (r: StrMap<String>)
        requires
            forall|s: String| call_requires(resolve, (s,)),
        ensures
            resolved_by(old(self)@, Location::System, Attribute::Files, resolve, final(self)@),
            r@ == final(self)@.files_at(Location::System),
    {
        self.get_local_files_at(Location::System, resolve)
    }

    /// The files of the copy at the user location (see `get_local_files_at`).
    pub fn get_local_user_files<F: FnOnce(String) -> Option<(Location, LocalFont)>>(&mut self, resolve: F) -> (r: StrMap<String>)
        requires
            forall|s: String| call_requires(resolve, (s,)),
        ensures
            resolved_by(old(self)@, Location::User, Attribute::Files, resolve, final(self)@),
            r@ == final(self)@.files_at(Location::User),
    {
        self.get_local_files_at(Location::User, resolve)
    }

    /// The files of the copy at the memory location (see `get_local_files_at`).
    pub fn get_local_memory_files<F: FnOnce(String) -> Option<(Location, LocalFont)>>(&mut self, resolve: F) -> (r: StrMap<String>)
        requires
            forall|s: String| call_requires(resolve, (s,)),
        ensures
            resolved_by(old(self)@, Location::Memory, Attribute::Files, resolve, final(self)@),
            r@ == final(self)@.files_at(Location::Memory),
    {
        self.get_local_files_at(Location::Memory, resolve)
    }

    /// When the copy at the system location was last modified, or `now` when nobody
    /// knows (see `get_local_last_modified_at`).
    pub fn get_local_system_last_modified<F: FnOnce(String) -> Option<(Location, LocalFont)>>(
        &mut self,
        resolve: F,
        now: i64,
    ) -> (r: i64)
        requires
            forall|s: String| call_requires(resolve, (s,)),
        ensures
            resolved_by(old(self)@, Location::System, Attribute::LastModified, resolve, final(self)@),
            r == match final(self)@.last_modified_at(Location::System) {
                Some(t) => t,
                None => now,
            },
    {
        match self.get_local_last_modified_at(Location::System, resolve) {
            Some(t) => t,
            None => now,
        }
    }

    /// When the copy at the user location was last modified, or `now` when nobody
    /// knows (see `get_local_last_modified_at`).
    pub fn get_local_user_last_modified<F: FnOnce(String) -> Option<(Location, LocalFont)>>(
        &mut self,
        resolve: F,
        now: i64,
    ) -> (r: i64)
        requires
            forall|s: String| call_requires(resolve, (s,)),
        ensures
            resolved_by(old(self)@, Location::User, Attribute::LastModified, resolve, final(self)@),
            r == match final(self)@.last_modified_at(Location::User) {
                Some(t) => t,
                None => now,
            },
    {
        match self.get_local_last_modified_at(Location::User, resolve) {
            Some(t) => t,
            None => now,
        }
    }

    /// When the copy at the memory location was last modified, or `now` when nobody
    /// knows (see `get_local_last_modified_at`).
    pub fn get_local_memory_last_modified<F: FnOnce(String) -> Option<(Location, LocalFont)>>(
        &mut self,
        resolve: F,
        now: i64,
    ) -> (r: i64)
        requires
            forall|s: String| call_requires(resolve, (s,)),
        ensures
            resolved_by(old(self)@, Location::Memory, Attribute::LastModified, resolve, final(self)@),
            r == match final(self)@.last_modified_at(Location::Memory) {
                Some(t) => t,
                None => now,
            },
    {
        match self.get_local_last_modified_at(Location::Memory, resolve) {
            Some(t) => t,
            None => now,
        }
    }

    /// The family name that the copy at the system location reports (see
    /// `get_local_font_family_at`).
    pub fn get_local_system_font_family<F: FnOnce(String) -> Option<(Location, LocalFont)>>(&mut self, resolve: F) -> (r: String)
        requires
            forall|s: String| call_requires(resolve, (s,)),
        ensures
            resolved_by(old(self)@, Location::System, Attribute::Family, resolve, final(self)@),
            r@ == final(self)@.family_at(Location::System),
    {
        self.get_local_font_family_at(Location::System, resolve)
    }

    /// The family name that the copy at the user location reports (see
    /// `get_local_font_family_at`).
    pub fn get_local_user_font_family<F: FnOnce(String) -> Option<(Location, LocalFont)>>(&mut self, resolve: F) -> (r: String)
        requires
            forall|s: String| call_requires(resolve, (s,)),
        ensures
            resolved_by(old(self)@, Location::User, Attribute::Family, resolve, final(self)@),
            r@ == final(self)@.family_at(Location::User),
    {
        self.get_local_font_family_at(Location::User, resolve)
    }

    /// The family name that the copy at the memory location reports (see
    /// `get_local_font_family_at`).
    pub fn get_local_memory_font_family<F: FnOnce(String) -> Option<(Location, LocalFont)>>(&mut self, resolve: F) -> (r: String)
        requires
            forall|s: String| call_requires(resolve, (s,)),
        ensures
            resolved_by(old(self)@, Location::Memory, Attribute::Family, resolve, final(self)@),
            r@ == final(self)@.family_at(Location::Memory),
    {
        self.get_local_font_family_at(Location::Memory, resolve)
    }

    /// Whether the family is installed anywhere: the system location is asked
    /// first, then the user location, then memory, stopping at the first yes.
    pub fn is_font_installed<F: Fn(String) -> Option<(Location, LocalFont)>>(&mut self, resolve: &F) -> (r: bool)
        requires
            forall|s: String| call_requires(*resolve, (s,)),
        ensures
            exists|s1: FontView|
                {
                    &&& resolved_by(old(self)@, Location::System, Attribute::Installed, resolve, s1)
                    &&& if s1.installed_at(Location::System) {
                        final(self)@ == s1 && r
                    } else {
                        exists|s2: FontView|
                            {
                                &&& resolved_by(s1, Location::User, Attribute::Installed, resolve, s2)
                                &&& if s2.installed_at(Location::User) {
                                    final(self)@ == s2 && r
                                } else {
                                    &&& resolved_by(s2, Location::Memory, Attribute::Installed, resolve, final(self)@)
                                    &&& r == final(self)@.installed_at(Location::Memory)
                                }
                            }
                    }
                },
    {
        let ghost s0 = self@;
        if self.is_font_system_installed(resolve) {
            assert(resolved_by(s0, Location::System, Attribute::Installed, resolve, self@));
            return true;
        }
        let ghost s1 = self@;
        if self.is_font_user_installed(resolve) {
            assert(resolved_by(s1, Location::User, Attribute::Installed, resolve, self@));
            return true;
        }
        let ghost s2 = self@;
        let r = self.is_font_memory_installed(resolve);
        assert(resolved_by(s2, Location::Memory, Attribute::Installed, resolve, self@));
        r
    }
}

impl Font {
    /// The entry that repository `repo` has for this family.
    pub fn get_repo_font(&self, repo: &str) -> (r: Option<&RepoFont>)
        ensures
            self@.repo_entry(repo@) == match r {
                Some(e) => Some(e@),
                None => None::<RepoFontView>,
            },
    {
        self.repo_font.get(repo)
    }

    /// Whether repository `repo` offers this family.
    pub fn is_font_in_repo(&self, repo: &str) -> (r: bool)
        ensures
            r == self@.repo_entry(repo@) is Some,
    {
        self.get_repo_font(repo).is_some()
    }

    /// The repositories that offer this family, in merge order; None when there are none.
    pub fn get_repos_availability(&self) -> (r: Option<Vec<String>>)
        ensures
            r is Some <==> self@.repos.len() > 0,
            r matches Some(v) ==> texts_view(v@) == keys_of(self@.repos),
            r is None ==> keys_of(self@.repos) == Seq::<Seq<char>>::empty(),
            keys_unique(self@.repos),
    {
        if self.repo_font.len() > 0 {
            let v = self.repo_font.keys();
            assert(texts_view(v@) =~= v@.map_values(|s: String| s@));
            Some(v)
        } else {
            None
        }
    }

    /// The repository to use when none is named: the first that offers this family.
    pub fn get_first_available_repo(&self) -> (r: Option<String>)
        ensures
            r is Some <==> self@.repos.len() > 0,
            r matches Some(name) ==> name@ == self@.repos[0].0,
    {
        if self.repo_font.len() > 0 {
            Some(self.repo_font.key_at(0).clone())
        } else {
            None
        }
    }

    /// The variants that repository `repo` lists for this family.
    pub fn get_repo_variants(&self, repo: &str) -> (r: Option<Vec<String>>)
        ensures
            match self@.repo_entry(repo@) {
                Some(e) => r matches Some(v) && texts_view(v@) == e.variants,
                None => r is None,
            },
    {
        match self.get_repo_font(repo) {
            Some(e) => Some(copy_texts(&e.variants)),
            None => None,
        }
    }

    /// The variant files that repository `repo` serves for this family.
    pub fn get_repo_files(&self, repo: &str) -> (r: Option<StrMap<String>>)
        ensures
            match self@.repo_entry(repo@) {
                Some(e) => r matches Some(m) && m@ == e.files,
                None => r is None,
            },
    {
        match self.get_repo_font(repo) {
            Some(e) => Some(e.files.copy()),
            None => None,
        }
    }

    /// The family name that repository `repo` gives.
    pub fn get_repo_family(&self, repo: &str) -> (r: Option<String>)
        ensures
            match self@.repo_entry(repo@) {
                Some(e) => r matches Some(f) && f@ == e.family,
                None => r is None,
            },
    {
        match self.get_repo_font(repo) {
            Some(e) => Some(e.family.clone()),
            None => None,
        }
    }

    /// The subsets that repository `repo` lists, if it lists any.
    pub fn get_repo_subsets(&self, repo: &str) -> (r: Option<Vec<String>>)
        ensures
            match self@.repo_entry(repo@) {
                Some(e) => match e.subsets {
                    Some(s) => r matches Some(v) && texts_view(v@) == s,
                    None => r is None,
                },
                None => r is None,
            },
    {
        match self.get_repo_font(repo) {
            Some(e) => match &e.subsets {
                Some(v) => Some(copy_texts(v)),
                None => None,
            },
            None => None,
        }
    }

    /// The version that repository `repo` gives, if any.
    pub fn get_repo_version(&self, repo: &str) -> (r: Option<String>)
        ensures
            opt_text_view(r) == match self@.repo_entry(repo@) {
                Some(e) => e.version,
                None => None,
            },
    {
        match self.get_repo_font(repo) {
            Some(e) => copy_opt_text(&e.version),
            None => None,
        }
    }

    /// The commentary that repository `repo` gives, if any.
    pub fn get_repo_commentary(&self, repo: &str) -> (r: Option<String>)
        ensures
            opt_text_view(r) == match self@.repo_entry(repo@) {
                Some(e) => e.commentary,
                None => None,
            },
    {
        match self.get_repo_font(repo) {
            Some(e) => copy_opt_text(&e.commentary),
            None => None,
        }
    }

    /// The creator that repository `repo` names, if any.
    pub fn get_repo_creator(&self, repo: &str) -> (r: Option<String>)
        ensures
            opt_text_view(r) == match self@.repo_entry(repo@) {
                Some(e) => e.creator,
                None => None,
            },
    {
        match self.get_repo_font(repo) {
            Some(e) => copy_opt_text(&e.creator),
            None => None,
        }
    }
}

} // verus!
