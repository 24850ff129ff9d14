//! The search for the applications' names, one source after the other.
//!
//! The registry comes first. What it leaves without a name is looked for in
//! the application-info cache, and what is still without one in the
//! accounts' shortcut files. A search that was allowed to goes on to ask a
//! remote service for what is left. A source is asked only for the
//! applications that no earlier source has named, and not at all where none
//! is left.
//!
//! Reading the files and asking the service is the caller's part:
//! `Resolution::lookup` says what to read next and for which applications,
//! `Resolution::supply` takes what was read.

use vstd::prelude::*;
use crate::steam::app_info;
use crate::steam::app_info::app_info_keys;
use crate::steam::bin_vdf::{name_in, names_in};
use crate::steam::names::{restricted, unnamed, AppNames};
use crate::steam::registry::{Entries, Registry};
use crate::steam::shortcuts;
use crate::steam::shortcuts::{contents, shortcut_names};
use crate::steam::AppId;

verus! {

/// The source that is to be read next.
#[derive(Clone, Copy, Debug, PartialEq, Eq, Structural)]
pub enum Tier {
    /// The application-info cache.
    AppInfo,
    /// The accounts' shortcut files.
    Shortcuts,
    /// The remote service.
    Remote,
    /// None: the search is over.
    Done,
}

/// What the caller is asked to read, with the applications that still have
/// no name.
pub enum Lookup {
    /// The application-info cache.
    AppInfo(Vec<AppId>),
    /// The shortcut file of every account.
    Shortcuts(Vec<AppId>),
    /// The answer of the remote service for each of the applications.
    Remote(Vec<AppId>),
    /// Nothing more.
    Finished,
}

/// What the caller has read.
pub enum Source {
    /// The bytes of the application-info cache, or `None` where the file
    /// could not be read.
    AppInfo(Option<Vec<u8>>),
    /// The bytes of each shortcut file that could be read.
    Shortcuts(Vec<Vec<u8>>),
    /// What the remote service answered: applications with their names,
    /// and `None` in place of the name where asking failed.
    Remote(Vec<(AppId, Option<String>)>),
}

/// The state of a search.
pub struct Resolution {
    /// The applications whose names are looked for.
    pub wanted: Vec<AppId>,
    /// The names found so far.
    pub app_names: AppNames,
    /// The names among them that come from shortcut files.
    pub shortcuts: AppNames,
    /// Whether the remote service may be asked.
    pub remote: bool,
    /// The source to read next.
    pub next: Tier,
}

/// The model of a search.
pub struct Search {
    pub wanted: Seq<AppId>,
    pub names: Map<AppId, Seq<char>>,
    pub shortcuts: Map<AppId, Seq<char>>,
    pub remote: bool,
    pub next: Tier,
}

impl View for Resolution {
    type V = Search;

    open spec fn view(&self) -> Search {
        Search {
            wanted: self.wanted@,
            names: self.app_names@,
            shortcuts: self.shortcuts@,
            remote: self.remote,
            next: self.next,
        }
    }
}

impl Search {
    /// The applications that still have no name, in the order in which they
    /// are wanted.
    pub open spec fn missing(self) -> Seq<AppId> {
        unnamed(self.names, self.wanted)
    }

    /// The source that follows `tier` once `names` are found: none where
    /// every application has its name.
    pub open spec fn tier_after(wanted: Seq<AppId>, names: Map<AppId, Seq<char>>, tier: Tier) -> Tier {
        if unnamed(names, wanted).len() == 0 {
            Tier::Done
        } else {
            tier
        }
    }

    /// The search after the registry, which is its beginning: the names
    /// that the registry has for the wanted applications. The remote service
    /// is not asked unless the search is allowed to.
    pub open spec fn started(wanted: Seq<AppId>, registry: Entries) -> Search {
        let names = restricted(registry.names, wanted);
        Search {
            wanted,
            names,
            shortcuts: Map::empty(),
            remote: false,
            next: Search::tier_after(wanted, names, Tier::AppInfo),
        }
    }

    /// The search, allowed to ask the remote service.
    pub open spec fn allowing_remote(self) -> Search {
        Search {
            wanted: self.wanted,
            names: self.names,
            shortcuts: self.shortcuts,
            remote: true,
            next: self.next,
        }
    }

    /// The search after the application-info cache was read. It names the
    /// applications that were missing and that it holds; a cache that could
    /// not be read names none.
    pub open spec fn with_app_info(self, cache: Option<Seq<u8>>) -> Search {
        let names = match cache {
            Some(buf) => self.names.union_prefer_right(
                names_in(buf, app_info_keys(), self.missing()),
            ),
            None => self.names,
        };
        Search {
            wanted: self.wanted,
            names,
            shortcuts: self.shortcuts,
            remote: self.remote,
            next: Search::tier_after(self.wanted, names, Tier::Shortcuts),
        }
    }

    /// The search after the shortcut files were read. They name the
    /// applications that were missing and that one of them holds. The search
    /// ends here unless it may ask the remote service.
    pub open spec fn with_shortcuts(self, files: Seq<Seq<u8>>) -> Search {
        let found = shortcut_names(files, self.missing(), files.len() as int);
        let names = self.names.union_prefer_right(found);
        Search {
            wanted: self.wanted,
            names,
            shortcuts: found,
            remote: self.remote,
            next: if self.remote {
                Search::tier_after(self.wanted, names, Tier::Remote)
            } else {
                Tier::Done
            },
        }
    }

    /// The search after the remote service has answered, which is its end.
    /// The service names the applications that were missing and for which
    /// it gave a name; an application for which asking failed stays without
    /// one.
    pub open spec fn with_remote(self, answers: Seq<(AppId, Option<Seq<char>>)>) -> Search {
        Search {
            wanted: self.wanted,
            names: self.names.union_prefer_right(
                remote_names(answers, self.missing(), answers.len() as int),
            ),
            shortcuts: self.shortcuts,
            remote: self.remote,
            next: Tier::Done,
        }
    }

    /// The search after `source` was supplied. What is not the source that
    /// the search asked for is not looked at.
    pub open spec fn supplied(self, source: Source) -> Search {
        match (self.next, source) {
            (Tier::AppInfo, Source::AppInfo(Some(buf))) => self.with_app_info(Some(buf@)),
            (Tier::AppInfo, Source::AppInfo(None)) => self.with_app_info(None),
            (Tier::Shortcuts, Source::Shortcuts(files)) => self.with_shortcuts(contents(files@)),
            (Tier::Remote, Source::Remote(answers)) => self.with_remote(answers_view(answers@)),
            _ => self,
        }
    }

    /// Whether every name belongs to a wanted application, and every name
    /// from a shortcut file is among the names.
    pub open spec fn bounded(self) -> bool {
        &&& forall|id: AppId| #[trigger] self.names.contains_key(id) ==> self.wanted.contains(id)
        &&& forall|id: AppId| #[trigger]
            self.shortcuts.contains_key(id) ==> self.names.contains_key(id)
    }
}

/// The names that the first `n` answers of the remote service give the
/// applications of `ids`: of two names for one application, the later one
/// stays.
pub open spec fn remote_names(
    answers: Seq<(AppId, Option<Seq<char>>)>,
    ids: Seq<AppId>,
    n: int,
) -> Map<AppId, Seq<char>>
    decreases n,
{
    if n <= 0 || n > answers.len() {
        Map::empty()
    } else {
        let before = remote_names(answers, ids, n - 1);
        match answers[n - 1].1 {
            Some(name) => if ids.contains(answers[n - 1].0) {
                before.insert(answers[n - 1].0, name)
            } else {
                before
            },
            None => before,
        }
    }
}

/// The model of the answers of the remote service.
pub open spec fn answers_view(answers: Seq<(AppId, Option<String>)>) -> Seq<
    (AppId, Option<Seq<char>>),
> {
    Seq::new(
        answers.len(),
        |i: int|
            (
                answers[i].0,
                match answers[i].1 {
                    Some(name) => Some(name@),
                    None => None,
                },
            ),
    )
}

/// How many applications the remote service may be asked for at a time.
pub const MAX_LOOKUPS_IN_FLIGHT: usize = 10;

/// Cuts `ids` into the batches in which the remote service is asked: each
/// of `MAX_LOOKUPS_IN_FLIGHT` applications, the last of those that are
/// left.
pub fn in_batches(ids: &Vec<AppId>) -> (batches: Vec<Vec<AppId>>)
    ensures
        batches.len() * MAX_LOOKUPS_IN_FLIGHT >= ids.len() > (batches.len() - 1)
            * MAX_LOOKUPS_IN_FLIGHT,
        forall|b: int|
            0 <= b < batches.len() ==> 0 < (#[trigger] batches[b]).len() <= MAX_LOOKUPS_IN_FLIGHT
                && batches[b]@ == ids@.subrange(
                b * MAX_LOOKUPS_IN_FLIGHT,
                b * MAX_LOOKUPS_IN_FLIGHT + batches[b].len(),
            ),
{
    let mut batches: Vec<Vec<AppId>> = Vec::new();
    let mut from: usize = 0;
    while from < ids.len()
        invariant
            from <= ids.len(),
            from == batches.len() * MAX_LOOKUPS_IN_FLIGHT || (from == ids.len() && batches.len()
                * MAX_LOOKUPS_IN_FLIGHT >= ids.len() > (batches.len() - 1)
                * MAX_LOOKUPS_IN_FLIGHT),
            forall|b: int|
                0 <= b < batches.len() ==> 0 < (#[trigger] batches[b]).len()
                    <= MAX_LOOKUPS_IN_FLIGHT && batches[b]@ == ids@.subrange(
                    b * MAX_LOOKUPS_IN_FLIGHT,
                    b * MAX_LOOKUPS_IN_FLIGHT + batches[b].len(),
                ),
        decreases ids.len() - from,
    {
        let to: usize = if ids.len() - from > MAX_LOOKUPS_IN_FLIGHT {
            from + MAX_LOOKUPS_IN_FLIGHT
        } else {
            ids.len()
        };
        let mut batch: Vec<AppId> = Vec::new();
        let mut i: usize = from;
        while i < to
            invariant
                from <= i <= to <= ids.len(),
                batch@ == ids@.subrange(from as int, i as int),
            decreases to - i,
        {
            batch.push(ids[i]);
            i += 1;
        }
        batches.push(batch);
        from = to;
    }
    batches
}

impl Resolution {
    /// Allows the search to ask the remote service for what the files leave
    /// without a name. This counts when the shortcut files are supplied: a
    /// search that is past them is not changed by it.
    pub fn allow_remote(&mut self)
        ensures
            final(self)@ == old(self)@.allowing_remote(),
    {
        self.remote = true;
    }

    /// What to read next, and for which applications: those that are wanted
    /// and have no name yet.
    pub fn lookup(&self) -> (lookup: Lookup)
        ensures
            match lookup {
                Lookup::AppInfo(ids) => self.next == Tier::AppInfo && ids@ == self@.missing(),
                Lookup::Shortcuts(ids) => self.next == Tier::Shortcuts && ids@
                    == self@.missing(),
                Lookup::Remote(ids) => self.next == Tier::Remote && ids@ == self@.missing(),
                Lookup::Finished => self.next == Tier::Done,
            },
            forall|id: AppId|
                (match lookup {
                    Lookup::AppInfo(ids) => ids@.contains(id),
                    Lookup::Shortcuts(ids) => ids@.contains(id),
                    Lookup::Remote(ids) => ids@.contains(id),
                    Lookup::Finished => false,
                }) ==> self@.wanted.contains(id) && !self@.names.contains_key(id),
    {
        proof {
            assert forall|id: AppId|
                self@.missing().contains(id) implies self@.wanted.contains(id)
                && !self@.names.contains_key(id) by {
                lemma_missing(self@.names, self@.wanted, id);
            }
        }
        match self.next {
            Tier::AppInfo => Lookup::AppInfo(self.app_names.missing(self.wanted.as_slice())),
            Tier::Shortcuts => Lookup::Shortcuts(self.app_names.missing(self.wanted.as_slice())),
            Tier::Remote => Lookup::Remote(self.app_names.missing(self.wanted.as_slice())),
            Tier::Done => Lookup::Finished,
        }
    }

    /// The source after `tier`, given the names found so far.
    fn following(&self, tier: Tier) -> (next: Tier)
        ensures
            next == Search::tier_after(self.wanted@, self.app_names@, tier),
    {
        if self.app_names.missing(self.wanted.as_slice()).len() == 0 {
            Tier::Done
        } else {
            tier
        }
    }

    /// Takes what the caller has read and goes on to the next source.
    pub fn supply(&mut self, source: Source)
        ensures
            final(self)@ == old(self)@.supplied(source),
    {
        match source {
            Source::AppInfo(cache) => {
                if self.next == Tier::AppInfo {
                    match cache {
                        Some(buf) => {
                            let missing = self.app_names.missing(self.wanted.as_slice());
                            let found = app_info::parse_names(buf.as_slice(), missing.as_slice());
                            assert(restricted(found@, missing@) =~= found@);
                            self.app_names.extend(&found, missing.as_slice());
                        },
                        None => {},
                    }
                    self.next = self.following(Tier::Shortcuts);
                }
            },
            Source::Shortcuts(files) => {
                if self.next == Tier::Shortcuts {
                    let missing = self.app_names.missing(self.wanted.as_slice());
                    let found = shortcuts::parse_names(&files, missing.as_slice());
                    self.app_names.extend(&found, missing.as_slice());
                    proof {
                        lemma_shortcut_names_bounded(
                            contents(files@),
                            missing@,
                            files.len() as int,
                        );
                        assert(restricted(found@, missing@) =~= found@);
                    }
                    self.shortcuts = found;
                    self.next = if self.remote {
                        self.following(Tier::Remote)
                    } else {
                        Tier::Done
                    };
                }
            },
            Source::Remote(answers) => {
                if self.next == Tier::Remote {
                    let missing = self.app_names.missing(self.wanted.as_slice());
                    let found = named_by(&answers, &missing);
                    proof {
                        lemma_remote_names_bounded(
                            answers_view(answers@),
                            missing@,
                            answers.len() as int,
                        );
                        assert(restricted(found@, missing@) =~= found@);
                    }
                    self.app_names.extend(&found, missing.as_slice());
                    self.next = Tier::Done;
                }
            },
        }
    }
}

/// The names that the answers of the remote service give the applications
/// of `ids`.
fn named_by(answers: &Vec<(AppId, Option<String>)>, ids: &Vec<AppId>) -> (found: AppNames)
    ensures
        found@ == remote_names(answers_view(answers@), ids@, answers.len() as int),
{
    let mut found = AppNames::new();
    let mut i: usize = 0;
    while i < answers.len()
        invariant
            i <= answers.len(),
            found@ == remote_names(answers_view(answers@), ids@, i as int),
        decreases answers.len() - i,
    {
        let id = answers[i].0;
        match &answers[i].1 {
            Some(name) => {
                if crate::steam::contains_id(ids, id) {
                    found.insert(id, name.clone());
                }
            },
            None => {},
        }
        i += 1;
    }
    found
}

/// The remote service names no application that it was not asked for.
pub proof fn lemma_remote_names_bounded(
    answers: Seq<(AppId, Option<Seq<char>>)>,
    ids: Seq<AppId>,
    n: int,
)
    ensures
        forall|id: AppId| #[trigger]
            remote_names(answers, ids, n).contains_key(id) ==> ids.contains(id),
    decreases n,
{
    let all = remote_names(answers, ids, n);
    if 0 < n <= answers.len() {
        lemma_remote_names_bounded(answers, ids, n - 1);
        let before = remote_names(answers, ids, n - 1);
        assert forall|id: AppId| #[trigger] all.contains_key(id) implies ids.contains(id) by {
            if id != answers[n - 1].0 {
                assert(before.contains_key(id));
            }
        }
    } else {
        assert(all == Map::<AppId, Seq<char>>::empty());
    }
}

impl Search {
    /// The end of the search that begins with `registry` and is supplied, as
    /// far as it asks for them, with the application-info cache `cache` and
    /// the shortcut files `files`.
    pub open spec fn finished(
        wanted: Seq<AppId>,
        registry: Entries,
        cache: Option<Seq<u8>>,
        files: Seq<Seq<u8>>,
    ) -> Search {
        let begun = Search::started(wanted, registry);
        let cached = if begun.next == Tier::AppInfo {
            begun.with_app_info(cache)
        } else {
            begun
        };
        if cached.next == Tier::Shortcuts {
            cached.with_shortcuts(files)
        } else {
            cached
        }
    }

    /// Whether the search asks for a source only while an application is
    /// without a name.
    pub open spec fn asks_for_need(self) -> bool {
        self.next != Tier::Done ==> self.missing().len() > 0
    }
}

/// The applications that a source is asked for are the wanted ones that
/// have no name yet: none that an earlier source has named.
pub proof fn lemma_missing(names: Map<AppId, Seq<char>>, wanted: Seq<AppId>, id: AppId)
    ensures
        unnamed(names, wanted).contains(id) <==> wanted.contains(id) && !names.contains_key(id),
{
    let no_name = |id: AppId| !names.contains_key(id);
    if unnamed(names, wanted).contains(id) {
        wanted.lemma_filter_contains_rev(no_name, id);
        let i = choose|i: int| 0 <= i < wanted.filter(no_name).len() && wanted.filter(no_name)[i] == id;
        wanted.lemma_filter_pred(no_name, i);
    }
    if wanted.contains(id) && !names.contains_key(id) {
        let i = choose|i: int| 0 <= i < wanted.len() && wanted[i] == id;
        wanted.lemma_filter_contains(no_name, i);
    }
}

/// A search begins with names of wanted applications only, and asks for a
/// source only if one of them is without a name.
pub proof fn lemma_search_begins_well(wanted: Seq<AppId>, registry: Entries)
    ensures
        Search::started(wanted, registry).bounded(),
        Search::started(wanted, registry).asks_for_need(),
        Search::started(wanted, registry).wanted == wanted,
{
}

/// Whatever a search is supplied with, it goes on naming wanted applications
/// only and asks for the next source only if one of them is without a name.
/// It keeps every name it has found: no source replaces the name that an
/// earlier one gave.
pub proof fn lemma_search_goes_on_well(search: Search, source: Source)
    requires
        search.bounded(),
        search.asks_for_need(),
    ensures
        search.supplied(source).bounded(),
        search.supplied(source).asks_for_need(),
        search.supplied(source).wanted == search.wanted,
        forall|id: AppId| #[trigger]
            search.names.contains_key(id) ==> search.supplied(source).names.contains_key(id)
                && search.supplied(source).names[id] == search.names[id],
{
    let after = search.supplied(source);
    let missing = search.missing();
    assert forall|id: AppId| missing.contains(id) implies search.wanted.contains(id)
        && !search.names.contains_key(id) by {
        lemma_missing(search.names, search.wanted, id);
    }
    match (search.next, source) {
        (Tier::Shortcuts, Source::Shortcuts(files)) => {
            lemma_shortcut_names_bounded(contents(files@), missing, files@.len() as int);
        },
        (Tier::Remote, Source::Remote(answers)) => {
            lemma_remote_names_bounded(answers_view(answers@), missing, answers@.len() as int);
        },
        _ => {},
    }
}

/// An application that neither the registry nor the application-info cache
/// nor any shortcut file names has no name at the end of the search.
pub proof fn lemma_unnamed_everywhere(
    wanted: Seq<AppId>,
    registry: Entries,
    cache: Option<Seq<u8>>,
    files: Seq<Seq<u8>>,
    id: AppId,
)
    requires
        !registry.names.contains_key(id),
        match cache {
            Some(buf) => name_in(buf, app_info_keys(), id) is None,
            None => true,
        },
        forall|i: int|
            0 <= i < files.len() ==> name_in(#[trigger] files[i], shortcuts::shortcut_keys(), id)
                is None,
    ensures
        !Search::finished(wanted, registry, cache, files).names.contains_key(id),
        !Search::finished(wanted, registry, cache, files).shortcuts.contains_key(id),
{
    let begun = Search::started(wanted, registry);
    let cached = if begun.next == Tier::AppInfo {
        begun.with_app_info(cache)
    } else {
        begun
    };
    lemma_no_shortcut_name(files, cached.missing(), files.len() as int, id);
}

/// Shortcut files that hold no name for an application give it none.
pub proof fn lemma_no_shortcut_name(files: Seq<Seq<u8>>, ids: Seq<AppId>, n: int, id: AppId)
    requires
        forall|i: int|
            0 <= i < files.len() ==> name_in(#[trigger] files[i], shortcuts::shortcut_keys(), id)
                is None,
    ensures
        !shortcut_names(files, ids, n).contains_key(id),
    decreases n,
{
    if 0 < n <= files.len() {
        lemma_no_shortcut_name(files, ids, n - 1, id);
        assert(name_in(files[n - 1], shortcuts::shortcut_keys(), id) is None);
    }
}

/// The shortcut files name no application that was not asked for.
pub proof fn lemma_shortcut_names_bounded(files: Seq<Seq<u8>>, ids: Seq<AppId>, n: int)
    ensures
        forall|id: AppId| #[trigger]
            shortcut_names(files, ids, n).contains_key(id) ==> ids.contains(id),
    decreases n,
{
    let all = shortcut_names(files, ids, n);
    if 0 < n <= files.len() {
        lemma_shortcut_names_bounded(files, ids, n - 1);
        let before = shortcut_names(files, ids, n - 1);
        let last = names_in(files[n - 1], shortcuts::shortcut_keys(), ids);
        assert(all == before.union_prefer_right(last));
        assert forall|id: AppId| #[trigger] all.contains_key(id) implies ids.contains(id) by {
            if !last.contains_key(id) {
                assert(before.contains_key(id));
            }
        }
    } else {
        assert(all == Map::<AppId, Seq<char>>::empty());
    }
}

/// Begins the search for the names of the applications of `whitelist` with
/// what the registry knows of them.
pub fn get_app_names(whitelist: &Vec<AppId>, registry: &Registry) -> (resolution: Resolution)
    ensures
        resolution@ == Search::started(whitelist@, registry@),
{
    let mut wanted: Vec<AppId> = Vec::new();
    let mut i: usize = 0;
    while i < whitelist.len()
        invariant
            i <= whitelist.len(),
            wanted@ == whitelist@.take(i as int),
        decreases whitelist.len() - i,
    {
        wanted.push(whitelist[i]);
        i += 1;
    }
    assert(whitelist@.take(i as int) =~= whitelist@);
    let mut app_names = AppNames::new();
    app_names.extend(&registry.app_names, wanted.as_slice());
    assert(app_names@ =~= restricted(registry@.names, whitelist@));
    let mut resolution = Resolution {
        wanted,
        app_names,
        shortcuts: AppNames::new(),
        remote: false,
        next: Tier::AppInfo,
    };
    resolution.next = resolution.following(Tier::AppInfo);
    resolution
}

} // verus!
