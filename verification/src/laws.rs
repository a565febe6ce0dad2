//! Properties that hold across the library's functions.

use vstd::prelude::*;
use crate::commands::{anchor_bits, ipc_dispatch_spec, ipc_get_spec};
use crate::events::{step, StateEventView, StateView, TagState, ToplevelView};
use crate::listing::{
    collection_key, collection_view, collection_views, member_pool, member_views, standalone_key, standalone_views,
    PluginStatus,
};
use crate::logging::{keep_last, lines_of, log_tail_spec, Level};
use crate::plugins::{
    collection_targets, dir_name_of, installed, load_targets, member_links, member_place, MemberFiles, Place,
    PluginProbe,
};
use crate::sorting::{lemma_sort_permutes, lemma_sort_sorted, sort_by_key, sorted_by_key};
use crate::text::{ascii_lower_str, has_prefix, has_substring, has_suffix, strip_suffixes};

verus! {

/// The characters of all the pieces, one after the other.
pub open spec fn concat(pieces: Seq<Seq<char>>) -> Seq<char>
    decreases pieces.len(),
{
    if pieces.len() == 0 {
        seq![]
    } else {
        concat(pieces.drop_last()) + pieces.last()
    }
}

/// Splitting a log into lines loses nothing: the lines, put back together,
/// are the log.
pub proof fn lemma_lines_lose_nothing(s: Seq<char>)
    ensures
        concat(lines_of(s)) == s,
    decreases s.len(),
{
    if s.len() > 0 {
        let p = s.drop_last();
        let c = s.last();
        lemma_lines_lose_nothing(p);
        let w = lines_of(p);
        if p.len() > 0 && p.last() != '\n' && w.len() > 0 {
            let u = w.update(w.len() - 1, w.last().push(c));
            assert(u.drop_last() =~= w.drop_last());
            assert(concat(w) == concat(w.drop_last()) + w.last());
            assert(concat(u) =~= concat(w) + seq![c]);
        } else {
            assert(w.push(seq![c]).drop_last() =~= w);
            assert(concat(w.push(seq![c])) =~= concat(w) + seq![c]);
        }
        assert(p + seq![c] =~= s);
    }
}

/// Taking off trailing copies of a non-empty suffix leaves none: a plugin's
/// directory name never ends in `.git`.
pub proof fn lemma_no_suffix_left(s: Seq<char>, p: Seq<char>)
    requires
        p.len() > 0,
    ensures
        !has_suffix(strip_suffixes(s, p), p),
    decreases s.len(),
{
    if has_suffix(s, p) {
        lemma_no_suffix_left(s.take(s.len() - p.len()), p);
    }
}

/// Asking to dispatch a command that is already a `dispatch` command sends
/// it as it is: the prefix is added at most once.
pub proof fn lemma_dispatch_prefix_once(c: Seq<char>)
    ensures
        ipc_dispatch_spec(ipc_dispatch_spec(c)) == ipc_dispatch_spec(c),
{
    let d = "dispatch "@;
    if !has_prefix(c, d) {
        assert(("dispatch "@ + c).take(d.len() as int) =~= d);
    }
}

/// Enabling a plugin that was not enabled, then disabling it, gives back
/// the enabled set as it was.
pub proof fn lemma_enable_then_disable(enabled: Set<Seq<char>>, plugin: Seq<char>)
    requires
        !enabled.contains(plugin),
    ensures
        enabled.insert(plugin).remove(plugin) == enabled,
{
    assert(enabled.insert(plugin).remove(plugin) =~= enabled);
}

/// Enabling twice is enabling once.
pub proof fn lemma_enable_twice(enabled: Set<Seq<char>>, plugin: Seq<char>)
    ensures
        enabled.insert(plugin).insert(plugin) == enabled.insert(plugin),
        enabled.insert(plugin).contains(plugin),
{
    assert(enabled.insert(plugin).insert(plugin) =~= enabled.insert(plugin));
}

/// After a collection is removed, neither it nor any of its members is
/// enabled, and every other plugin keeps its state.
pub proof fn lemma_removed_collection_disabled(
    enabled: Set<Seq<char>>,
    name: Seq<char>,
    members: Seq<Seq<char>>,
    other: Seq<char>,
)
    ensures
        !enabled.difference(members.to_set()).remove(name).contains(name),
        forall|i: int| 0 <= i < members.len() ==> !enabled.difference(members.to_set()).remove(name).contains(
            #[trigger] members[i],
        ),
        other != name && !members.contains(other) ==> (enabled.difference(members.to_set()).remove(
            name,
        ).contains(other) == enabled.contains(other)),
{
    assert forall|i: int| 0 <= i < members.len() implies !enabled.difference(members.to_set()).remove(
        name,
    ).contains(#[trigger] members[i]) by {
        assert(members.to_set().contains(members[i]));
    }
}

/// A plugin's own `.lua` file is what loads, whatever else its name holds.
pub proof fn lemma_file_wins(name: Seq<char>, probe: PluginProbe)
    requires
        probe.lua_exists,
    ensures
        load_targets(name, probe) == seq![(name, Place::Standalone)],
{
}

/// A collection loads only members of its collection, in the order the
/// manifest lists them, each at most once per listing.
pub proof fn lemma_collection_targets_are_members(members: Seq<Seq<char>>, files: Seq<crate::plugins::MemberFiles>)
    ensures
        collection_targets(members, files).len() <= members.len(),
        forall|i: int|
            0 <= i < collection_targets(members, files).len() ==> members.contains(
                (#[trigger] collection_targets(members, files)[i]).0,
            ),
    decreases members.len(),
{
    if members.len() > 0 {
        let d = members.drop_last();
        lemma_collection_targets_are_members(d, files);
        let t = collection_targets(members, files);
        let pt = collection_targets(d, files);
        assert forall|i: int| 0 <= i < t.len() implies members.contains((#[trigger] t[i]).0) by {
            if i < pt.len() {
                assert(t[i] == pt[i]);
                let k = choose|k: int| 0 <= k < d.len() && d[k] == pt[i].0;
                assert(members[k] == d[k]);
            } else {
                assert(t[i].0 == members[members.len() - 1]);
            }
        }
    }
}

/// The listing is sorted by name and holds every collection and every
/// other plugin exactly as often as the directory does.
pub proof fn lemma_listing_sorted(entries: Seq<crate::listing::ListingEntry>, enabled: Set<Seq<char>>)
    ensures
        sorted_by_key(
            sort_by_key(
                collection_views(entries, enabled),
                |c: (Seq<char>, PluginStatus, Seq<(Seq<char>, bool)>)| collection_key(c),
            ),
            |c: (Seq<char>, PluginStatus, Seq<(Seq<char>, bool)>)| collection_key(c),
        ),
        sort_by_key(
            collection_views(entries, enabled),
            |c: (Seq<char>, PluginStatus, Seq<(Seq<char>, bool)>)| collection_key(c),
        ).to_multiset() == collection_views(entries, enabled).to_multiset(),
        sorted_by_key(
            sort_by_key(standalone_views(entries, enabled), |s: (Seq<char>, bool)| standalone_key(s)),
            |s: (Seq<char>, bool)| standalone_key(s),
        ),
        sort_by_key(standalone_views(entries, enabled), |s: (Seq<char>, bool)| standalone_key(s)).to_multiset()
            == standalone_views(entries, enabled).to_multiset(),
{
    lemma_sort_sorted(
        collection_views(entries, enabled),
        |c: (Seq<char>, PluginStatus, Seq<(Seq<char>, bool)>)| collection_key(c),
    );
    lemma_sort_permutes(
        collection_views(entries, enabled),
        |c: (Seq<char>, PluginStatus, Seq<(Seq<char>, bool)>)| collection_key(c),
    );
    lemma_sort_sorted(standalone_views(entries, enabled), |s: (Seq<char>, bool)| standalone_key(s));
    lemma_sort_permutes(standalone_views(entries, enabled), |s: (Seq<char>, bool)| standalone_key(s));
}

/// No member of a collection is listed among the other plugins.
pub proof fn lemma_members_not_standalone(entries: Seq<crate::listing::ListingEntry>, enabled: Set<Seq<char>>)
    ensures
        forall|i: int|
            0 <= i < standalone_views(entries, enabled).len() ==> !member_pool(entries).contains(
                (#[trigger] standalone_views(entries, enabled)[i]).0,
            ),
{
    let names = crate::listing::plain_dirs(entries) + crate::listing::lua_stems(entries);
    let keep = |n: Seq<char>| !member_pool(entries).contains(n);
    let f = names.filter(keep);
    assert forall|i: int| 0 <= i < standalone_views(entries, enabled).len() implies !member_pool(
        entries,
    ).contains((#[trigger] standalone_views(entries, enabled)[i]).0) by {
        names.lemma_filter_pred(keep, i);
        assert(standalone_views(entries, enabled)[i].0 == f[i]);
    }
}

/// When a collection is enabled, each of its members runs, and a collection
/// with members is then shown as enabled.
pub proof fn lemma_enabled_collection_runs_all(name: Seq<char>, members: Seq<Seq<char>>, enabled: Set<Seq<char>>)
    requires
        enabled.contains(name),
    ensures
        forall|i: int| 0 <= i < members.len() ==> (#[trigger] member_views(name, members, enabled)[i]).1,
        members.len() > 0 ==> crate::listing::status_of(member_views(name, members, enabled))
            == PluginStatus::Enabled,
{
}

/// What a window update reports is what the state then holds for the
/// window, and a closed window leaves the state; other windows stay as
/// they were.
pub proof fn lemma_toplevel_read_after_write(s: StateView, id: u32, info: ToplevelView, other: u32)
    requires
        other != id,
    ensures
        step(s, StateEventView::ToplevelUpdated { id, info }).toplevels[id] == info,
        step(s, StateEventView::ToplevelUpdated { id, info }).toplevels.contains_key(id),
        !step(s, StateEventView::ToplevelClosed { id }).toplevels.contains_key(id),
        step(s, StateEventView::ToplevelUpdated { id, info }).toplevels.contains_key(other)
            == s.toplevels.contains_key(other),
        step(s, StateEventView::ToplevelClosed { id }).toplevels.contains_key(other)
            == s.toplevels.contains_key(other),
        s.toplevels.contains_key(other) ==> step(s, StateEventView::ToplevelUpdated { id, info }).toplevels[other]
            == s.toplevels[other],
{
}

/// Going idle and resuming tells the listeners so, whatever came before.
pub proof fn lemma_idle_follows_events(s: StateView)
    ensures
        step(s, StateEventView::Idled).idle,
        !step(step(s, StateEventView::Idled), StateEventView::IdleResumed).idle,
{
}

/// The name a level is written with in a log line reads back as that level.
pub proof fn lemma_level_name_round_trip(l: Level)
    ensures
        Level::named(ascii_lower_str(l.name())) == Some(l),
{
    reveal_strlit("ERROR");
    reveal_strlit("WARN");
    reveal_strlit("INFO");
    reveal_strlit("DEBUG");
    reveal_strlit("error");
    reveal_strlit("warn");
    reveal_strlit("info");
    reveal_strlit("debug");
    match l {
        Level::Error => {
            assert(ascii_lower_str("ERROR"@) =~= "error"@);
        },
        Level::Warn => {
            assert(ascii_lower_str("WARN"@) =~= "warn"@);
            assert("warn"@ != "error"@);
        },
        Level::Info => {
            assert(ascii_lower_str("INFO"@) =~= "info"@);
            assert("info"@ != "error"@);
            assert("info"@[0] != "warn"@[0]);
            assert("info"@ != "warn"@);
        },
        Level::Debug => {
            assert(ascii_lower_str("DEBUG"@) =~= "debug"@);
            assert("debug"@[0] != "error"@[0]);
            assert("debug"@ != "error"@);
            assert("debug"@ != "warn"@);
            assert("debug"@ != "info"@);
        },
    }
}

/// `mplug log` prints the last `min(count, n)` of the log's `n` lines, in
/// order: none when asked for none.
pub proof fn lemma_log_tail_is_last_lines(content: Seq<char>, count: nat)
    ensures
        log_tail_spec(content, count).len() == if lines_of(content).len() <= count {
            lines_of(content).len()
        } else {
            count
        },
        keep_last(lines_of(content), count) == lines_of(content).skip(
            lines_of(content).len() - keep_last(lines_of(content), count).len(),
        ),
        count == 0 ==> log_tail_spec(content, count).len() == 0,
{
    let ls = lines_of(content);
    if ls.len() <= count {
        assert(ls.skip(0) =~= ls);
    }
}

/// A cloned plugin's directory name never ends in `.git`.
pub proof fn lemma_dir_name_not_git(path: Seq<char>)
    ensures
        !has_suffix(dir_name_of(path), ".git"@),
{
    reveal_strlit(".git");
    lemma_no_suffix_left(
        if has_prefix(path, "/"@) {
            crate::plugins::after_last_slash(path)
        } else {
            "unknown_plugin"@
        },
        ".git"@,
    );
}

/// Asking for a command that `mplug.ipc_get` already turned into a
/// compositor command sends it as it is.
pub proof fn lemma_get_prefix_once(c: Seq<char>)
    ensures
        ipc_get_spec(c) matches Some(x) ==> ipc_get_spec(x) == Some(x),
{
    reveal_strlit("get ");
    reveal_strlit("watch");
    reveal_strlit("watch ");
    reveal_strlit("dispatch ");
    let g = "get "@;
    if let Some(x) = ipc_get_spec(c) {
        if x != c {
            assert(x == g + c);
            assert(x.take(g.len() as int) =~= g);
            assert(x[0] == 'g');
            assert(x != "watch"@) by {
                if x == "watch"@ {
                    assert("watch"@[0] == 'w');
                }
            }
            assert(!has_prefix(x, "watch "@)) by {
                if has_prefix(x, "watch "@) {
                    assert(x.take(6)[0] == "watch "@[0]);
                }
            }
        }
    }
}

/// The state after the events of `es`, one after the other, from `s`.
pub open spec fn steps(s: StateView, es: Seq<StateEventView>) -> StateView
    decreases es.len(),
{
    if es.len() == 0 {
        s
    } else {
        step(steps(s, es.drop_last()), es.last())
    }
}

/// The state the latest `OutputTag` event of `es` reports for tag `t`.
pub open spec fn latest_tag(es: Seq<StateEventView>, t: u32) -> Option<TagState>
    decreases es.len(),
{
    if es.len() == 0 {
        None
    } else {
        match es.last() {
            StateEventView::OutputTag { tag, state } => if tag == t {
                Some(state)
            } else {
                latest_tag(es.drop_last(), t)
            },
            _ => latest_tag(es.drop_last(), t),
        }
    }
}

/// What the latest event of `es` about window `id` says: `Some(Some(info))`
/// for an update, `Some(None)` for a close, `None` when no event is about it.
pub open spec fn latest_window(es: Seq<StateEventView>, id: u32) -> Option<Option<ToplevelView>>
    decreases es.len(),
{
    if es.len() == 0 {
        None
    } else {
        match es.last() {
            StateEventView::ToplevelUpdated { id: w, info } => if w == id {
                Some(Some(info))
            } else {
                latest_window(es.drop_last(), id)
            },
            StateEventView::ToplevelClosed { id: w } => if w == id {
                Some(None)
            } else {
                latest_window(es.drop_last(), id)
            },
            _ => latest_window(es.drop_last(), id),
        }
    }
}

/// Tag `t` holds its latest reported state after `es`, or what it held
/// before when no event reported it.
pub open spec fn tag_follows(s: StateView, es: Seq<StateEventView>, t: u32) -> bool {
    let r = steps(s, es);
    match latest_tag(es, t) {
        Some(st) => r.tags.contains_key(t) && r.tags[t] == st,
        None => r.tags.contains_key(t) == s.tags.contains_key(t) && (s.tags.contains_key(t) ==> r.tags[t]
            == s.tags[t]),
    }
}

/// Window `id` is in the state after `es` exactly when its latest event was
/// an update, with that update's info, or, with no event about it, as it
/// was before.
pub open spec fn window_follows(s: StateView, es: Seq<StateEventView>, id: u32) -> bool {
    let r = steps(s, es);
    match latest_window(es, id) {
        Some(Some(info)) => r.toplevels.contains_key(id) && r.toplevels[id] == info,
        Some(None) => !r.toplevels.contains_key(id),
        None => r.toplevels.contains_key(id) == s.toplevels.contains_key(id) && (s.toplevels.contains_key(
            id,
        ) ==> r.toplevels[id] == s.toplevels[id]),
    }
}

/// After any sequence of events, each tag holds its latest reported state,
/// and the window table holds exactly the windows updated and not closed
/// since, each with its latest info (or, for windows no event was about,
/// what it held before).
pub proof fn lemma_state_after_events(s: StateView, es: Seq<StateEventView>)
    ensures
        forall|t: u32| #[trigger] tag_follows(s, es, t),
        forall|id: u32| #[trigger] window_follows(s, es, id),
    decreases es.len(),
{
    if es.len() > 0 {
        let d = es.drop_last();
        lemma_state_after_events(s, d);
        assert forall|t: u32| #[trigger] tag_follows(s, es, t) by {
            assert(tag_follows(s, d, t));
        }
        assert forall|id: u32| #[trigger] window_follows(s, es, id) by {
            assert(window_follows(s, d, id));
        }
    }
}

/// Member `m` is one whose `<plugins>/<m>.lua` is a symbolic link.
pub open spec fn is_link_member(members: Seq<Seq<char>>, files: Seq<MemberFiles>, m: Seq<char>) -> bool {
    exists|i: int| 0 <= i < members.len() && i < files.len() && files[i].link && #[trigger] members[i] == m
}

/// Removing a collection deletes only member links: every name it deletes
/// is a member whose `<plugins>/<member>.lua` is a symbolic link, and every
/// such member is deleted.
pub proof fn lemma_only_links_removed(members: Seq<Seq<char>>, files: Seq<MemberFiles>)
    ensures
        forall|k: int|
            0 <= k < member_links(members, files).len() ==> is_link_member(
                members,
                files,
                #[trigger] member_links(members, files)[k],
            ),
        forall|i: int|
            0 <= i < members.len() && i < files.len() && files[i].link ==> member_links(members, files).contains(
                #[trigger] members[i],
            ),
    decreases members.len(),
{
    if members.len() > 0 {
        let d = members.drop_last();
        lemma_only_links_removed(d, files);
        let p = member_links(d, files);
        let r = member_links(members, files);
        let last = members.len() - 1;
        assert forall|k: int| 0 <= k < r.len() implies is_link_member(members, files, #[trigger] r[k]) by {
            if k < p.len() {
                assert(r[k] == p[k]);
                let i = choose|i: int| 0 <= i < d.len() && i < files.len() && files[i].link && #[trigger] d[i] == p[k];
                assert(is_link_member(d, files, p[k]));
                assert(members[i] == d[i]);
            } else {
                assert(members[last] == r[k]);
            }
        }
        assert forall|i: int| 0 <= i < members.len() && i < files.len() && files[i].link implies r.contains(
            #[trigger] members[i],
        ) by {
            if i < last {
                assert(d[i] == members[i]);
                assert(p.contains(d[i]));
                let k = choose|k: int| 0 <= k < p.len() && p[k] == d[i];
                assert(r[k] == p[k]);
            } else {
                assert(r[r.len() - 1] == members[i]);
            }
        }
    }
}

/// A plugin counts as installed exactly when its path under the plugins
/// directory is a directory, or its `.lua` path is a file or a link: a
/// cloned repository can be enabled and disabled by its directory name.
pub proof fn lemma_installed_plugins(probe: PluginProbe)
    ensures
        probe.dir_is_dir ==> installed(probe),
        probe.lua_is_file ==> installed(probe),
        probe.lua_is_link ==> installed(probe),
        !probe.dir_is_dir && !probe.lua_is_file && !probe.lua_is_link ==> !installed(probe),
{
}

/// Each event that reports a value leaves the state holding exactly that
/// value, whatever it held before.
pub proof fn lemma_event_sets_what_it_reports(s: StateView, n: u32, t: Seq<char>, on: bool)
    ensures
        step(s, StateEventView::TagsAmount(n)).tag_count == n,
        step(s, StateEventView::LayoutName(t)).layout_name == t,
        step(s, StateEventView::OutputLayout(n)).layout_index == n,
        step(s, StateEventView::OutputLayoutSymbol(t)).layout_symbol == t,
        step(s, StateEventView::OutputPowerMode { on }).output_power_on == on,
        step(s, StateEventView::IpcKeyMode(t)).keymode == t,
        step(s, StateEventView::IpcKeyboardLayout(t)).keyboard_layout == t,
        step(s, StateEventView::IpcMonitors(t)).ipc_monitors == Some(t),
        step(s, StateEventView::IpcClients(t)).ipc_clients == Some(t),
        step(s, StateEventView::IpcTags(t)).ipc_tags == Some(t),
        step(s, StateEventView::Idled).idle,
        !step(s, StateEventView::IdleResumed).idle,
        step(s, StateEventView::Other) == s,
{
}

/// A listed collection shows each of its members, in order, as enabled
/// when the collection or the member is; its status comes from those
/// members alone: enabled when it has members and all are, disabled when
/// none is, partial when some are and some are not.
pub proof fn lemma_collection_status(name: Seq<char>, members: Seq<Seq<char>>, enabled: Set<Seq<char>>)
    ensures
        collection_view(name, members, enabled).0 == name,
        collection_view(name, members, enabled).2.len() == members.len(),
        forall|i: int|
            0 <= i < members.len() ==> (#[trigger] collection_view(name, members, enabled).2[i]) == (
                members[i],
                enabled.contains(name) || enabled.contains(members[i]),
            ),
        (collection_view(name, members, enabled).1 == PluginStatus::Enabled) <==> (members.len() > 0
            && forall|i: int| 0 <= i < members.len() ==> (#[trigger] collection_view(name, members, enabled).2[i]).1),
        (collection_view(name, members, enabled).1 == PluginStatus::Disabled) <==> (forall|i: int|
            0 <= i < members.len() ==> !(#[trigger] collection_view(name, members, enabled).2[i]).1),
        (collection_view(name, members, enabled).1 == PluginStatus::Partial) <==> ((exists|i: int|
            0 <= i < members.len() && (#[trigger] collection_view(name, members, enabled).2[i]).1) && (exists|j: int|
            0 <= j < members.len() && !(#[trigger] collection_view(name, members, enabled).2[j]).1)),
{
    let c = collection_view(name, members, enabled);
    let mv = c.2;
    if members.len() > 0 && forall|i: int| 0 <= i < members.len() ==> (#[trigger] mv[i]).1 {
        assert(c.1 == PluginStatus::Enabled);
        assert(mv[0].1);
    } else if exists|i: int| 0 <= i < members.len() && (#[trigger] mv[i]).1 {
        assert(c.1 == PluginStatus::Partial);
        let j = choose|j: int| 0 <= j < members.len() && !(#[trigger] mv[j]).1;
        assert(0 <= j < members.len() && !mv[j].1);
    } else {
        assert(c.1 == PluginStatus::Disabled);
    }
}

/// Where a collection member loads from: its link beside the other plugins
/// when there is one, else its file inside the repository, else nowhere.
pub proof fn lemma_member_place(files: Seq<MemberFiles>, i: int)
    ensures
        (member_place(files, i) == Some(Place::Linked)) <==> (0 <= i < files.len() && files[i].linked),
        (member_place(files, i) == Some(Place::Bundled)) <==> (0 <= i < files.len() && !files[i].linked
            && files[i].bundled),
        (member_place(files, i) is None) <==> !(0 <= i < files.len() && (files[i].linked || files[i].bundled)),
{
}

/// The targets of a collection are its members that have a file, each with
/// where it loads from, in the order of the manifest: `idx` picks them out,
/// rising, and leaves out exactly the members without a file. A member
/// without a file does not stop the ones after it from loading.
pub proof fn lemma_collection_targets_filter(members: Seq<Seq<char>>, files: Seq<MemberFiles>) -> (idx: Seq<int>)
    ensures
        idx.len() == collection_targets(members, files).len(),
        forall|k: int|
            0 <= k < idx.len() ==> 0 <= #[trigger] idx[k] < members.len() && member_place(files, idx[k]) is Some
                && collection_targets(members, files)[k] == (members[idx[k]], member_place(files, idx[k])->0),
        forall|k: int, l: int| 0 <= k < l < idx.len() ==> idx[k] < idx[l],
        forall|i: int| 0 <= i < members.len() && (#[trigger] member_place(files, i)) is Some ==> idx.contains(i),
    decreases members.len(),
{
    if members.len() == 0 {
        seq![]
    } else {
        let d = members.drop_last();
        let last = members.len() - 1;
        let pidx = lemma_collection_targets_filter(d, files);
        let pt = collection_targets(d, files);
        let t = collection_targets(members, files);
        assert forall|k: int| 0 <= k < pidx.len() implies members[#[trigger] pidx[k]] == d[pidx[k]] by {}
        match member_place(files, last) {
            Some(p) => {
                let idx = pidx.push(last);
                assert forall|k: int| 0 <= k < idx.len() implies 0 <= #[trigger] idx[k] < members.len() && member_place(
                    files,
                    idx[k],
                ) is Some && t[k] == (members[idx[k]], member_place(files, idx[k])->0) by {
                    if k < pidx.len() {
                        assert(idx[k] == pidx[k]);
                        assert(t[k] == pt[k]);
                    }
                }
                assert forall|i: int| 0 <= i < members.len() && (#[trigger] member_place(files, i)) is Some implies idx.contains(i) by {
                    if i < last {
                        let k = choose|k: int| 0 <= k < pidx.len() && pidx[k] == i;
                        assert(idx[k] == i);
                    } else {
                        assert(idx[idx.len() - 1] == i);
                    }
                }
                idx
            },
            None => {
                assert forall|k: int| 0 <= k < pidx.len() implies 0 <= #[trigger] pidx[k] < members.len() && member_place(
                    files,
                    pidx[k],
                ) is Some && t[k] == (members[pidx[k]], member_place(files, pidx[k])->0) by {
                    assert(t[k] == pt[k]);
                }
                pidx
            },
        }
    }
}

/// Every member of a collection that has a file is loaded, from where its
/// file is.
pub proof fn lemma_members_with_files_load(members: Seq<Seq<char>>, files: Seq<MemberFiles>, i: int)
    requires
        0 <= i < members.len(),
        member_place(files, i) is Some,
    ensures
        collection_targets(members, files).contains((members[i], member_place(files, i)->0)),
{
    let idx = lemma_collection_targets_filter(members, files);
    assert(member_place(files, i) is Some);
    let k = choose|k: int| 0 <= k < idx.len() && idx[k] == i;
    assert(collection_targets(members, files)[k] == (members[i], member_place(files, i)->0));
}

/// The four edge bits of a value built from four flags read back the flags.
proof fn lemma_edge_bits(t: bool, b: bool, l: bool, r: bool, x: u32)
    by (bit_vector)
    requires
        x == (if t { 1u32 } else { 0u32 }) + (if b { 2u32 } else { 0u32 }) + (if l { 4u32 } else { 0u32 }) + (if r {
            8u32
        } else {
            0u32
        }),
    ensures
        (x & 1u32 != 0u32) == t,
        (x & 2u32 != 0u32) == b,
        (x & 4u32 != 0u32) == l,
        (x & 8u32 != 0u32) == r,
        x & 0xfffffff0u32 == 0u32,
{
}

/// Each edge word of a layer surface's anchor sets its own bit: 1 for
/// `top`, 2 for `bottom`, 4 for `left`, 8 for `right`, and no other bit
/// is set.
pub proof fn lemma_anchor_edges(a: Seq<char>)
    ensures
        (anchor_bits(a) & 1u32 != 0u32) == has_substring(a, "top"@),
        (anchor_bits(a) & 2u32 != 0u32) == has_substring(a, "bottom"@),
        (anchor_bits(a) & 4u32 != 0u32) == has_substring(a, "left"@),
        (anchor_bits(a) & 8u32 != 0u32) == has_substring(a, "right"@),
        anchor_bits(a) & 0xfffffff0u32 == 0u32,
{
    let t = has_substring(a, "top"@);
    let b = has_substring(a, "bottom"@);
    let l = has_substring(a, "left"@);
    let r = has_substring(a, "right"@);
    lemma_edge_bits(t, b, l, r, anchor_bits(a));
}

} // verus!
