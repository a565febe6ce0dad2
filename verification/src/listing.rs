//! What `mplug list` shows: collections with their members, and the other
//! plugins, each sorted by name.

use vstd::prelude::*;
use crate::plugins::PluginSet;
use crate::sorting::{sort_by_key, sort_by_name, Named};
use crate::text::str_eq;

verus! {

broadcast use vstd::string::group_string_axioms;

/// How much of a collection is enabled.
#[derive(Debug, Clone, Copy, PartialEq, Eq, Structural)]
pub enum PluginStatus {
    /// Every member is enabled (and there is at least one).
    Enabled,
    /// Some members are enabled.
    Partial,
    /// No member is enabled.
    Disabled,
}

impl PluginStatus {
    /// The word shown for the status.
    pub fn label(&self) -> (r: &'static str)
        ensures
            r@ == match self {
                PluginStatus::Enabled => "enabled"@,
                PluginStatus::Partial => "partial"@,
                PluginStatus::Disabled => "disabled"@,
            },
    {
        match self {
            PluginStatus::Enabled => "enabled",
            PluginStatus::Partial => "partial",
            PluginStatus::Disabled => "disabled",
        }
    }
}

/// The word shown for a plugin that is or is not enabled.
pub fn enabled_label(enabled: bool) -> (r: &'static str)
    ensures
        r@ == if enabled {
            "enabled"@
        } else {
            "disabled"@
        },
{
    if enabled {
        "enabled"
    } else {
        "disabled"
    }
}

/// A member of a collection, and whether it runs.
#[derive(Debug, PartialEq, Eq)]
pub struct MemberView {
    pub name: String,
    pub enabled: bool,
}

impl View for MemberView {
    type V = (Seq<char>, bool);

    open spec fn view(&self) -> (Seq<char>, bool) {
        (self.name@, self.enabled)
    }
}

/// A collection repository with its members.
#[derive(Debug, PartialEq, Eq)]
pub struct CollectionView {
    pub name: String,
    pub status: PluginStatus,
    pub members: Vec<MemberView>,
}

impl View for CollectionView {
    type V = (Seq<char>, PluginStatus, Seq<(Seq<char>, bool)>);

    open spec fn view(&self) -> (Seq<char>, PluginStatus, Seq<(Seq<char>, bool)>) {
        (self.name@, self.status, self.members@.map_values(|m: MemberView| m@))
    }
}

/// A plugin that is not a collection nor a member of one.
#[derive(Debug, PartialEq, Eq)]
pub struct StandaloneView {
    pub name: String,
    pub enabled: bool,
}

impl View for StandaloneView {
    type V = (Seq<char>, bool);

    open spec fn view(&self) -> (Seq<char>, bool) {
        (self.name@, self.enabled)
    }
}

impl Named for CollectionView {
    open spec fn key(&self) -> Seq<char> {
        self.name@
    }

    fn name_str(&self) -> (r: &str) {
        self.name.as_str()
    }
}

impl Named for StandaloneView {
    open spec fn key(&self) -> Seq<char> {
        self.name@
    }

    fn name_str(&self) -> (r: &str) {
        self.name.as_str()
    }
}

/// The installed plugins, as `mplug list` shows them.
#[derive(Debug, PartialEq, Eq)]
pub struct Listing {
    pub collections: Vec<CollectionView>,
    pub standalones: Vec<StandaloneView>,
}

/// One entry of the plugins directory.
pub enum ListingEntry {
    /// A directory, with the `[collection] plugins` of its `mplug.toml` when
    /// that could be read and has such a section.
    Directory { name: String, collection: Option<Vec<String>> },
    /// A `.lua` file or link, by its name without the extension.
    LuaFile { stem: String },
}

/// Every member is enabled.
pub open spec fn all_enabled(members: Seq<(Seq<char>, bool)>) -> bool {
    forall|i: int| 0 <= i < members.len() ==> (#[trigger] members[i]).1
}

/// Some member is enabled.
pub open spec fn any_enabled(members: Seq<(Seq<char>, bool)>) -> bool {
    exists|i: int| 0 <= i < members.len() && (#[trigger] members[i]).1
}

/// The status of a collection with these members.
pub open spec fn status_of(members: Seq<(Seq<char>, bool)>) -> PluginStatus {
    if members.len() > 0 && all_enabled(members) {
        PluginStatus::Enabled
    } else if any_enabled(members) {
        PluginStatus::Partial
    } else {
        PluginStatus::Disabled
    }
}

/// The members of collection `name`: a member runs when the collection is
/// enabled or when it is enabled itself.
pub open spec fn member_views(name: Seq<char>, members: Seq<Seq<char>>, enabled: Set<Seq<char>>) -> Seq<(Seq<char>, bool)> {
    members.map_values(|m: Seq<char>| (m, enabled.contains(name) || enabled.contains(m)))
}

/// The view of collection `name` with these members.
pub open spec fn collection_view(name: Seq<char>, members: Seq<Seq<char>>, enabled: Set<Seq<char>>) -> (Seq<char>, PluginStatus, Seq<(Seq<char>, bool)>) {
    let mv = member_views(name, members, enabled);
    (name, status_of(mv), mv)
}

/// The collections among the entries, in the order of the entries.
pub open spec fn collection_views(entries: Seq<ListingEntry>, enabled: Set<Seq<char>>) -> Seq<(Seq<char>, PluginStatus, Seq<(Seq<char>, bool)>)>
    decreases entries.len(),
{
    if entries.len() == 0 {
        seq![]
    } else {
        let prev = collection_views(entries.drop_last(), enabled);
        match entries.last() {
            ListingEntry::Directory { name, collection: Some(ms) } => prev.push(
                collection_view(name@, ms.deep_view(), enabled),
            ),
            _ => prev,
        }
    }
}

/// The members of all the collections among the entries.
pub open spec fn member_pool(entries: Seq<ListingEntry>) -> Seq<Seq<char>>
    decreases entries.len(),
{
    if entries.len() == 0 {
        seq![]
    } else {
        let prev = member_pool(entries.drop_last());
        match entries.last() {
            ListingEntry::Directory { name: _, collection: Some(ms) } => prev + ms.deep_view(),
            _ => prev,
        }
    }
}

/// The directories that are not collections, in the order of the entries.
pub open spec fn plain_dirs(entries: Seq<ListingEntry>) -> Seq<Seq<char>>
    decreases entries.len(),
{
    if entries.len() == 0 {
        seq![]
    } else {
        let prev = plain_dirs(entries.drop_last());
        match entries.last() {
            ListingEntry::Directory { name, collection: None } => prev.push(name@),
            _ => prev,
        }
    }
}

/// The `.lua` files, in the order of the entries.
pub open spec fn lua_stems(entries: Seq<ListingEntry>) -> Seq<Seq<char>>
    decreases entries.len(),
{
    if entries.len() == 0 {
        seq![]
    } else {
        let prev = lua_stems(entries.drop_last());
        match entries.last() {
            ListingEntry::LuaFile { stem } => prev.push(stem@),
            _ => prev,
        }
    }
}

/// The plugins that are neither collections nor members of one: the plain
/// directories, then the `.lua` files, each with whether it is enabled.
pub open spec fn standalone_views(entries: Seq<ListingEntry>, enabled: Set<Seq<char>>) -> Seq<(Seq<char>, bool)> {
    (plain_dirs(entries) + lua_stems(entries)).filter(
        |n: Seq<char>| !member_pool(entries).contains(n),
    ).map_values(|n: Seq<char>| (n, enabled.contains(n)))
}

/// The name a view is sorted by.
pub open spec fn collection_key(c: (Seq<char>, PluginStatus, Seq<(Seq<char>, bool)>)) -> Seq<char> {
    c.0
}

/// The name a view is sorted by.
pub open spec fn standalone_key(s: (Seq<char>, bool)) -> Seq<char> {
    s.0
}


/// The view of collection `name`, its members' flags and its status.
fn collection_entry(name: &String, members: &Vec<String>, enabled: &PluginSet) -> (r: CollectionView)
    ensures
        r@ == collection_view(name@, members.deep_view(), enabled@),
{
    let col_enabled = enabled.contains(name.as_str());
    let ghost mv = member_views(name@, members.deep_view(), enabled@);
    let mut views: Vec<MemberView> = Vec::new();
    let mut all = true;
    let mut any = false;
    let mut i: usize = 0;
    while i < members.len()
        invariant
            i <= members.len(),
            col_enabled == enabled@.contains(name@),
            mv == member_views(name@, members.deep_view(), enabled@),
            views@.map_values(|m: MemberView| m@) == mv.take(i as int),
            all == all_enabled(mv.take(i as int)),
            any == any_enabled(mv.take(i as int)),
        decreases members.len() - i,
    {
        let on = col_enabled || enabled.contains(members[i].as_str());
        let ghost before = views@.map_values(|m: MemberView| m@);
        views.push(MemberView { name: String::from_str(members[i].as_str()), enabled: on });
        proof {
            assert(members.deep_view()[i as int] == members@[i as int]@);
            assert(mv[i as int] == (members@[i as int]@, on));
            assert(mv.take(i + 1) =~= mv.take(i as int).push(mv[i as int]));
            assert(views@.map_values(|m: MemberView| m@) =~= mv.take(i + 1));
            let t = mv.take(i + 1);
            if all && on {
                assert forall|k: int| 0 <= k < t.len() implies (#[trigger] t[k]).1 by {
                    if k < i {
                        assert(t[k] == mv.take(i as int)[k]);
                    }
                }
            }
            if !all {
                let k = choose|k: int| 0 <= k < i && !(#[trigger] mv.take(i as int)[k]).1;
                assert(t[k] == mv.take(i as int)[k]);
            }
            if any {
                let k = choose|k: int| 0 <= k < i && (#[trigger] mv.take(i as int)[k]).1;
                assert(t[k] == mv.take(i as int)[k]);
            }
            if on {
                assert(t[i as int].1);
            } else {
                assert(!t[i as int].1);
            }
            if !any && !on {
                assert forall|k: int| 0 <= k < t.len() implies !(#[trigger] t[k]).1 by {
                    if k < i {
                        assert(t[k] == mv.take(i as int)[k]);
                    }
                }
            }
        }
        all = all && on;
        any = any || on;
        i = i + 1;
    }
    assert(mv.take(i as int) =~= mv);
    let status = if members.len() > 0 && all {
        PluginStatus::Enabled
    } else if any {
        PluginStatus::Partial
    } else {
        PluginStatus::Disabled
    };
    CollectionView { name: String::from_str(name.as_str()), status, members: views }
}

/// Whether `name` is one of `pool`.
fn pool_contains(pool: &Vec<String>, name: &str) -> (r: bool)
    ensures
        r == pool.deep_view().contains(name@),
{
    let mut i: usize = 0;
    while i < pool.len()
        invariant
            i <= pool.len(),
            forall|j: int| 0 <= j < i ==> pool.deep_view()[j] != name@,
        decreases pool.len() - i,
    {
        assert(pool.deep_view()[i as int] == pool@[i as int]@);
        if str_eq(pool[i].as_str(), name) {
            return true;
        }
        i = i + 1;
    }
    false
}

/// Appends a copy of each of `from` to `to`.
fn push_copies(to: &mut Vec<String>, from: &Vec<String>)
    ensures
        final(to).deep_view() == old(to).deep_view() + from.deep_view(),
{
    let mut i: usize = 0;
    while i < from.len()
        invariant
            i <= from.len(),
            to.deep_view() == old(to).deep_view() + from.deep_view().take(i as int),
        decreases from.len() - i,
    {
        let ghost before = to.deep_view();
        let copy = String::from_str(from[i].as_str());
        to.push(copy);
        proof {
            assert(to.deep_view() =~= before.push(copy@));
            assert(from.deep_view().take(i + 1) =~= from.deep_view().take(i as int).push(from@[i as int]@));
            assert(to.deep_view() =~= old(to).deep_view() + from.deep_view().take(i + 1));
        }
        i = i + 1;
    }
    assert(from.deep_view().take(i as int) =~= from.deep_view());
}

/// The listing of the plugins directory: the collections, and the plugins
/// that are neither collections nor members of one, each sorted by name.
pub fn build_listing(entries: &Vec<ListingEntry>, enabled: &PluginSet) -> (r: Listing)
    ensures
        r.collections@.map_values(|c: CollectionView| c@) == sort_by_key(
            collection_views(entries@, enabled@),
            |c: (Seq<char>, PluginStatus, Seq<(Seq<char>, bool)>)| collection_key(c),
        ),
        r.standalones@.map_values(|s: StandaloneView| s@) == sort_by_key(
            standalone_views(entries@, enabled@),
            |s: (Seq<char>, bool)| standalone_key(s),
        ),
{
    let mut cols: Vec<CollectionView> = Vec::new();
    let mut pool: Vec<String> = Vec::new();
    let mut dirs: Vec<String> = Vec::new();
    let mut luas: Vec<String> = Vec::new();
    let mut i: usize = 0;
    while i < entries.len()
        invariant
            i <= entries.len(),
            cols@.map_values(|c: CollectionView| c@) == collection_views(entries@.take(i as int), enabled@),
            pool.deep_view() == member_pool(entries@.take(i as int)),
            dirs.deep_view() == plain_dirs(entries@.take(i as int)),
            luas.deep_view() == lua_stems(entries@.take(i as int)),
        decreases entries.len() - i,
    {
        let ghost t = entries@.take(i + 1);
        proof {
            assert(t.drop_last() =~= entries@.take(i as int));
            assert(t.last() == entries@[i as int]);
        }
        match &entries[i] {
            ListingEntry::Directory { name, collection: Some(ms) } => {
                let ghost before = cols@.map_values(|c: CollectionView| c@);
                let c = collection_entry(name, ms, enabled);
                cols.push(c);
                assert(cols@.map_values(|c: CollectionView| c@) =~= before.push(c@));
                push_copies(&mut pool, ms);
            },
            ListingEntry::Directory { name, collection: None } => {
                let ghost before = dirs.deep_view();
                let copy = String::from_str(name.as_str());
                dirs.push(copy);
                assert(dirs.deep_view() =~= before.push(copy@));
            },
            ListingEntry::LuaFile { stem } => {
                let ghost before = luas.deep_view();
                let copy = String::from_str(stem.as_str());
                luas.push(copy);
                assert(luas.deep_view() =~= before.push(copy@));
            },
        }
        i = i + 1;
    }
    assert(entries@.take(i as int) =~= entries@);
    let ghost names = dirs.deep_view() + luas.deep_view();
    let ghost keep = |n: Seq<char>| !member_pool(entries@).contains(n);
    let ghost view_of = |n: Seq<char>| (n, enabled@.contains(n));
    let mut cands = dirs;
    let mut tail = luas;
    cands.append(&mut tail);
    assert(cands.deep_view() =~= names);
    let mut alone: Vec<StandaloneView> = Vec::new();
    let mut k: usize = 0;
    while k < cands.len()
        invariant
            k <= cands.len(),
            cands.deep_view() == names,
            pool.deep_view() == member_pool(entries@),
            keep == (|n: Seq<char>| !member_pool(entries@).contains(n)),
            view_of == (|n: Seq<char>| (n, enabled@.contains(n))),
            alone@.map_values(|s: StandaloneView| s@) == names.take(k as int).filter(keep).map_values(view_of),
        decreases cands.len() - k,
    {
        let ghost t = names.take(k + 1);
        proof {
            assert(t.drop_last() =~= names.take(k as int));
            assert(t.last() == cands@[k as int]@);
            reveal(Seq::filter);
        }
        if !pool_contains(&pool, cands[k].as_str()) {
            let ghost before = alone@.map_values(|s: StandaloneView| s@);
            let on = enabled.contains(cands[k].as_str());
            let v = StandaloneView { name: String::from_str(cands[k].as_str()), enabled: on };
            alone.push(v);
            assert(alone@.map_values(|s: StandaloneView| s@) =~= before.push(v@));
        }
        assert(alone@.map_values(|s: StandaloneView| s@) =~= t.filter(keep).map_values(view_of));
        k = k + 1;
    }
    assert(names.take(k as int) =~= names);
    let ghost cols_seq = cols@;
    let ghost alone_seq = alone@;
    let collections = sort_by_name(cols);
    let standalones = sort_by_name(alone);
    proof {
        crate::sorting::lemma_sort_map(
            cols_seq,
            |t: CollectionView| t.key(),
            |c: CollectionView| c@,
            |c: (Seq<char>, PluginStatus, Seq<(Seq<char>, bool)>)| collection_key(c),
        );
        crate::sorting::lemma_sort_map(
            alone_seq,
            |t: StandaloneView| t.key(),
            |s: StandaloneView| s@,
            |s: (Seq<char>, bool)| standalone_key(s),
        );
    }
    Listing { collections, standalones }
}


/// How many members the collections have in all.
pub open spec fn member_total(cols: Seq<CollectionView>) -> nat
    decreases cols.len(),
{
    if cols.len() == 0 {
        0
    } else {
        member_total(cols.drop_last()) + cols.last().members@.len()
    }
}

impl Listing {
    /// Whether no plugin is installed.
    pub fn is_empty(&self) -> (r: bool)
        ensures
            r == (self.collections@.len() == 0 && self.standalones@.len() == 0),
    {
        self.collections.len() == 0 && self.standalones.len() == 0
    }

    /// How many plugins the listing shows: the members of the collections
    /// and the other plugins (at most `usize::MAX`).
    pub fn plugin_count(&self) -> (r: usize)
        ensures
            r == if self.standalones@.len() + member_total(self.collections@) <= usize::MAX {
                self.standalones@.len() + member_total(self.collections@)
            } else {
                usize::MAX as nat
            },
    {
        let mut total: usize = self.standalones.len();
        let mut i: usize = 0;
        while i < self.collections.len()
            invariant
                i <= self.collections.len(),
                total == if self.standalones@.len() + member_total(self.collections@.take(i as int)) <= usize::MAX {
                    self.standalones@.len() + member_total(self.collections@.take(i as int))
                } else {
                    usize::MAX as nat
                },
            decreases self.collections.len() - i,
        {
            proof {
                let t = self.collections@.take(i + 1);
                assert(t.drop_last() =~= self.collections@.take(i as int));
                assert(t.last() == self.collections@[i as int]);
            }
            total = total.saturating_add(self.collections[i].members.len());
            i = i + 1;
        }
        assert(self.collections@.take(i as int) =~= self.collections@);
        total
    }
}

} // verus!
