//! The set of enabled plugins and the configuration that holds it.

use vstd::prelude::*;
use crate::text::{
    chars_of, copy_strings, has_prefix, parse_u32, parse_u32_spec, starts_with, str_eq,
    string_of_range, strip_suffixes, trim, trim_end_matches, trimmed,
};
use crate::manifest::{entry_point_text, manifest_verdict, validate_manifest, PluginManifest};

verus! {

broadcast use vstd::string::group_string_axioms;

/// A set of plugin names: each name is held once.
pub struct PluginSet {
    names: Vec<String>,
}

impl View for PluginSet {
    type V = Set<Seq<char>>;

    closed spec fn view(&self) -> Set<Seq<char>> {
        self.names.deep_view().to_set()
    }
}

impl PluginSet {
    #[verifier::type_invariant]
    spec fn held_once(self) -> bool {
        self.names.deep_view().no_duplicates()
    }

    /// The empty set.
    pub fn new() -> (r: PluginSet)
        ensures
            r@ == Set::<Seq<char>>::empty(),
    {
        let r = PluginSet { names: Vec::new() };
        assert(r.names.deep_view().to_set() =~= Set::<Seq<char>>::empty());
        r
    }

    /// Where `name` is held, if it is.
    fn position(&self, name: &str) -> (r: Option<usize>)
        ensures
            match r {
                Some(i) => i < self.names.len() && self.names.deep_view()[i as int] == name@,
                None => !self@.contains(name@),
            },
    {
        let mut i: usize = 0;
        while i < self.names.len()
            invariant
                i <= self.names.len(),
                forall|j: int| 0 <= j < i ==> self.names.deep_view()[j] != name@,
            decreases self.names.len() - i,
        {
            assert(self.names.deep_view()[i as int] == self.names@[i as int]@);
            if str_eq(self.names[i].as_str(), name) {
                return Some(i);
            }
            i = i + 1;
        }
        proof {
            if self@.contains(name@) {
                let k = choose|k: int| 0 <= k < self.names.deep_view().len() && self.names.deep_view()[k] == name@;
                assert(self.names.deep_view()[k] != name@);
            }
        }
        None
    }

    /// Whether `name` is in the set.
    pub fn contains(&self, name: &str) -> (r: bool)
        ensures
            r == self@.contains(name@),
    {
        self.position(name).is_some()
    }

    /// Adds `name`; true when it was not in the set before.
    pub fn insert(&mut self, name: &str) -> (r: bool)
        ensures
            r == !old(self)@.contains(name@),
            final(self)@ == old(self)@.insert(name@),
    {
        proof {
            use_type_invariant(&*self);
        }
        if self.contains(name) {
            assert(self@.insert(name@) =~= self@);
            return false;
        }
        let ghost before = self.names.deep_view();
        let mut names: Vec<String> = Vec::new();
        std::mem::swap(&mut names, &mut self.names);
        names.push(String::from_str(name));
        proof {
            assert(names.deep_view() =~= before.push(name@));
            assert(before.push(name@) =~= before + seq![name@]);
            Seq::lemma_to_set_insert_commutes(before, name@);
        }
        self.names = names;
        true
    }

    /// Takes `name` out; true when it was in the set.
    pub fn remove(&mut self, name: &str) -> (r: bool)
        ensures
            r == old(self)@.contains(name@),
            final(self)@ == old(self)@.remove(name@),
    {
        proof {
            use_type_invariant(&*self);
        }
        match self.position(name) {
            Some(i) => {
                let ghost before = self.names.deep_view();
                assert(before.to_set().contains(before[i as int]));
                let mut names: Vec<String> = Vec::new();
                std::mem::swap(&mut names, &mut self.names);
                names.remove(i);
                proof {
                    assert(names.deep_view() =~= before.remove(i as int));
                    assert forall|x: Seq<char>| #[trigger] names.deep_view().to_set().contains(x)
                        == before.to_set().remove(name@).contains(x) by {
                        if names.deep_view().contains(x) {
                            let k = choose|k: int| 0 <= k < names.deep_view().len() && names.deep_view()[k] == x;
                            if k < i {
                                assert(before[k] == x);
                            } else {
                                assert(before[k + 1] == x);
                            }
                        }
                        if before.contains(x) && x != name@ {
                            let k = choose|k: int| 0 <= k < before.len() && before[k] == x;
                            assert(k != i);
                            if k < i {
                                assert(names.deep_view()[k] == x);
                            } else {
                                assert(names.deep_view()[k - 1] == x);
                            }
                        }
                    }
                    assert(names.deep_view().to_set() =~= before.to_set().remove(name@));
                }
                self.names = names;
                true
            },
            None => {
                assert(self@.remove(name@) =~= self@);
                false
            },
        }
    }

    /// How many names the set holds.
    pub fn len(&self) -> (r: usize)
        ensures
            r == self@.len(),
            self@.finite(),
    {
        proof {
            use_type_invariant(self);
            self.names.deep_view().unique_seq_to_set();
            vstd::seq_lib::seq_to_set_is_finite(self.names.deep_view());
        }
        self.names.len()
    }

    /// The names in the set, each once.
    pub fn names(&self) -> (r: Vec<String>)
        ensures
            r.deep_view().to_set() == self@,
            r.deep_view().no_duplicates(),
    {
        proof {
            use_type_invariant(self);
        }
        let mut r: Vec<String> = Vec::new();
        let mut i: usize = 0;
        while i < self.names.len()
            invariant
                i <= self.names.len(),
                r.deep_view() == self.names.deep_view().take(i as int),
            decreases self.names.len() - i,
        {
            let ghost before = r.deep_view();
            let copy = String::from_str(self.names[i].as_str());
            r.push(copy);
            proof {
                assert(self.names.deep_view()[i as int] == self.names@[i as int]@);
                assert(r.deep_view() =~= before.push(copy@));
                assert(r.deep_view() =~= self.names.deep_view().take(i + 1));
            }
            i = i + 1;
        }
        assert(self.names.deep_view().take(i as int) =~= self.names.deep_view());
        r
    }

    /// The set of the names in `names`.
    pub fn from_names(names: &Vec<String>) -> (r: PluginSet)
        ensures
            r@ == names.deep_view().to_set(),
    {
        let mut r = PluginSet::new();
        let mut i: usize = 0;
        while i < names.len()
            invariant
                i <= names.len(),
                r@ == names.deep_view().take(i as int).to_set(),
            decreases names.len() - i,
        {
            r.insert(names[i].as_str());
            proof {
                let t = names.deep_view().take(i + 1);
                assert(t =~= names.deep_view().take(i as int) + seq![names@[i as int]@]);
                Seq::lemma_to_set_insert_commutes(names.deep_view().take(i as int), names@[i as int]@);
            }
            i = i + 1;
        }
        assert(names.deep_view().take(i as int) =~= names.deep_view());
        r
    }
}

/// The persistent configuration: which plugins are enabled.
pub struct MplugConfig {
    pub enabled_plugins: PluginSet,
}

impl MplugConfig {
    /// A configuration with no plugin enabled.
    pub fn new() -> (r: MplugConfig)
        ensures
            r.enabled_plugins@ == Set::<Seq<char>>::empty(),
    {
        MplugConfig { enabled_plugins: PluginSet::new() }
    }

    /// Enables `plugin`; true when it was not enabled before.
    pub fn enable(&mut self, plugin: &str) -> (r: bool)
        ensures
            r == !old(self).enabled_plugins@.contains(plugin@),
            final(self).enabled_plugins@ == old(self).enabled_plugins@.insert(plugin@),
    {
        self.enabled_plugins.insert(plugin)
    }

    /// Disables `plugin`; true when it was enabled before.
    pub fn disable(&mut self, plugin: &str) -> (r: bool)
        ensures
            r == old(self).enabled_plugins@.contains(plugin@),
            final(self).enabled_plugins@ == old(self).enabled_plugins@.remove(plugin@),
    {
        self.enabled_plugins.remove(plugin)
    }

    /// Forgets a removed plugin: it, and each member of the collection it
    /// shipped, is no longer enabled.
    pub fn forget(&mut self, name: &str, members: &Vec<String>)
        ensures
            final(self).enabled_plugins@ == old(self).enabled_plugins@.difference(
                members.deep_view().to_set(),
            ).remove(name@),
    {
        let mut i: usize = 0;
        while i < members.len()
            invariant
                i <= members.len(),
                self.enabled_plugins@ == old(self).enabled_plugins@.difference(
                    members.deep_view().take(i as int).to_set(),
                ),
            decreases members.len() - i,
        {
            self.enabled_plugins.remove(members[i].as_str());
            proof {
                let t = members.deep_view().take(i + 1);
                assert(t =~= members.deep_view().take(i as int) + seq![members@[i as int]@]);
                Seq::lemma_to_set_insert_commutes(members.deep_view().take(i as int), members@[i as int]@);
                assert(self.enabled_plugins@ =~= old(self).enabled_plugins@.difference(t.to_set()));
            }
            i = i + 1;
        }
        assert(members.deep_view().take(i as int) =~= members.deep_view());
        self.enabled_plugins.remove(name);
    }
}

/// The members of a collection that stay enabled on their own.
pub fn still_enabled_members(members: &Vec<String>, enabled: &PluginSet) -> (r: Vec<String>)
    ensures
        r.deep_view() == members.deep_view().filter(|m: Seq<char>| enabled@.contains(m)),
{
    let ghost keep = |m: Seq<char>| enabled@.contains(m);
    let mut r: Vec<String> = Vec::new();
    let mut i: usize = 0;
    while i < members.len()
        invariant
            i <= members.len(),
            keep == (|m: Seq<char>| enabled@.contains(m)),
            r.deep_view() == members.deep_view().take(i as int).filter(keep),
        decreases members.len() - i,
    {
        let ghost t = members.deep_view().take(i + 1);
        proof {
            assert(t.drop_last() =~= members.deep_view().take(i as int));
            assert(t.last() == members@[i as int]@);
        }
        if enabled.contains(members[i].as_str()) {
            r.push(String::from_str(members[i].as_str()));
        }
        proof {
            reveal(Seq::filter);
            assert(r.deep_view() =~= t.filter(keep));
        }
        i = i + 1;
    }
    assert(members.deep_view().take(i as int) =~= members.deep_view());
    r
}


/// Which files of one collection member exist.
#[derive(Clone, Copy, Debug, PartialEq, Eq, Structural)]
pub struct MemberFiles {
    /// `<plugins>/<member>.lua`, the link that adding the collection made.
    pub linked: bool,
    /// `<plugins>/<collection>/<member>.lua`, the file inside the repository.
    pub bundled: bool,
    /// `<plugins>/<member>.lua` is a symbolic link, whether or not its target
    /// exists.
    pub link: bool,
}

/// What the plugins directory holds under one plugin name.
pub struct PluginProbe {
    /// `<plugins>/<name>.lua` exists (a link to an existing file counts).
    pub lua_exists: bool,
    /// `<plugins>/<name>.lua` is a regular file, or a link to one.
    pub lua_is_file: bool,
    /// `<plugins>/<name>.lua` is a symbolic link, whether or not its target exists.
    pub lua_is_link: bool,
    /// `<plugins>/<name>` exists.
    pub dir_exists: bool,
    /// `<plugins>/<name>` is a directory.
    pub dir_is_dir: bool,
    /// The directory's `mplug.toml`, when it could be read and parsed.
    pub manifest: Option<PluginManifest>,
    /// For the members of the manifest's collection, in order, which of
    /// their files exist; a member past the end of this list has neither.
    pub member_files: Vec<MemberFiles>,
}

/// A plugin is installed when it is a directory, or a `.lua` file or link.
pub open spec fn installed(probe: PluginProbe) -> bool {
    probe.dir_is_dir || probe.lua_is_file || probe.lua_is_link
}

/// Whether the plugin is installed.
pub fn plugin_installed(probe: &PluginProbe) -> (r: bool)
    ensures
        r == installed(*probe),
{
    probe.dir_is_dir || probe.lua_is_file || probe.lua_is_link
}

/// Something of the plugin is on disk: its directory, its `.lua` file, or a
/// link by its name.
pub open spec fn present(probe: PluginProbe) -> bool {
    probe.dir_exists || probe.lua_exists || probe.lua_is_link
}

/// Whether anything of the plugin is on disk.
pub fn plugin_present(probe: &PluginProbe) -> (r: bool)
    ensures
        r == present(*probe),
{
    probe.dir_exists || probe.lua_exists || probe.lua_is_link
}

/// The members a collection plugin ships: its directory's manifest's
/// `[collection] plugins`.
pub open spec fn members_of(probe: PluginProbe) -> Option<Seq<Seq<char>>> {
    if probe.dir_is_dir {
        match probe.manifest {
            Some(m) => match m.collection {
                Some(c) => Some(c.plugins.deep_view()),
                None => None,
            },
            None => None,
        }
    } else {
        None
    }
}

/// The members of the plugin's collection, when it is a collection.
pub fn collection_members(probe: &PluginProbe) -> (r: Option<Vec<String>>)
    ensures
        match r {
            Some(v) => members_of(*probe) == Some(v.deep_view()),
            None => members_of(*probe) is None,
        },
{
    if !probe.dir_is_dir {
        return None;
    }
    match &probe.manifest {
        Some(m) => match &m.collection {
            Some(c) => Some(copy_strings(&c.plugins)),
            None => None,
        },
        None => None,
    }
}

/// Why a plugin command was refused.
#[derive(Debug, PartialEq, Eq)]
pub enum PluginError {
    /// Nothing is installed under the name.
    NotInstalled(String),
    /// The name is taken by an installed plugin.
    AlreadyInstalled(String),
    /// The repository is not a URL.
    InvalidRepoUrl(String),
}

impl PluginError {
    /// The message shown to the user.
    pub fn message(&self) -> (r: String)
        ensures
            match self {
                PluginError::NotInstalled(n) => r@ == "Plugin '"@ + n@
                    + "' is not installed \u{2014} use `mplug list` to see installed plugins"@,
                PluginError::AlreadyInstalled(n) => r@ == "Plugin '"@ + n@
                    + "' is already installed \u{2014} use `mplug update "@ + n@ + "` to update it"@,
                PluginError::InvalidRepoUrl(u) => r@ == "Invalid repository URL: "@ + u@,
            },
    {
        match self {
            PluginError::NotInstalled(n) => {
                let mut r = String::from_str("Plugin '");
                r.append(n.as_str());
                r.append("' is not installed \u{2014} use `mplug list` to see installed plugins");
                r
            },
            PluginError::AlreadyInstalled(n) => {
                let mut r = String::from_str("Plugin '");
                r.append(n.as_str());
                r.append("' is already installed \u{2014} use `mplug update ");
                r.append(n.as_str());
                r.append("` to update it");
                r
            },
            PluginError::InvalidRepoUrl(u) => {
                let mut r = String::from_str("Invalid repository URL: ");
                r.append(u.as_str());
                r
            },
        }
    }
}

/// `mplug enable`: an installed plugin is added to the enabled set; the
/// result says whether it was newly enabled.
pub fn enable_plugin(config: &mut MplugConfig, plugin: &str, probe: &PluginProbe) -> (r: Result<bool, PluginError>)
    ensures
        r is Ok <==> (probe.dir_is_dir || probe.lua_is_file || probe.lua_is_link),
        installed(*probe) ==> r == Ok::<bool, PluginError>(!old(config).enabled_plugins@.contains(plugin@))
            && final(config).enabled_plugins@ == old(config).enabled_plugins@.insert(plugin@),
        !installed(*probe) ==> (r matches Err(PluginError::NotInstalled(n)) && n@ == plugin@)
            && final(config).enabled_plugins@ == old(config).enabled_plugins@,
{
    if !plugin_installed(probe) {
        return Err(PluginError::NotInstalled(String::from_str(plugin)));
    }
    Ok(config.enable(plugin))
}

/// `mplug disable`: an installed plugin is taken out of the enabled set; the
/// result says whether it was enabled.
pub fn disable_plugin(config: &mut MplugConfig, plugin: &str, probe: &PluginProbe) -> (r: Result<bool, PluginError>)
    ensures
        r is Ok <==> (probe.dir_is_dir || probe.lua_is_file || probe.lua_is_link),
        installed(*probe) ==> r == Ok::<bool, PluginError>(old(config).enabled_plugins@.contains(plugin@))
            && final(config).enabled_plugins@ == old(config).enabled_plugins@.remove(plugin@),
        !installed(*probe) ==> (r matches Err(PluginError::NotInstalled(n)) && n@ == plugin@)
            && final(config).enabled_plugins@ == old(config).enabled_plugins@,
{
    if !plugin_installed(probe) {
        return Err(PluginError::NotInstalled(String::from_str(plugin)));
    }
    Ok(config.disable(plugin))
}

/// The members whose `<plugins>/<member>.lua` is a symbolic link, in order;
/// a member past the end of `files` has none.
pub open spec fn member_links(members: Seq<Seq<char>>, files: Seq<MemberFiles>) -> Seq<Seq<char>>
    decreases members.len(),
{
    if members.len() == 0 {
        seq![]
    } else {
        let prev = member_links(members.drop_last(), files);
        if members.len() - 1 < files.len() && files[members.len() - 1].link {
            prev.push(members.last())
        } else {
            prev
        }
    }
}

/// The member links that removing a collection deletes: each member whose
/// `<plugins>/<member>.lua` is a symbolic link; other files there are kept.
pub fn member_links_to_remove(members: &Vec<String>, files: &Vec<MemberFiles>) -> (r: Vec<String>)
    ensures
        r.deep_view() == member_links(members.deep_view(), files@),
{
    let mut r: Vec<String> = Vec::new();
    let mut i: usize = 0;
    while i < members.len()
        invariant
            i <= members.len(),
            r.deep_view() == member_links(members.deep_view().take(i as int), files@),
        decreases members.len() - i,
    {
        let ghost before = r.deep_view();
        proof {
            let t = members.deep_view().take(i + 1);
            assert(t.drop_last() =~= members.deep_view().take(i as int));
            assert(t.last() == members@[i as int]@);
        }
        if i < files.len() && files[i].link {
            let copy = String::from_str(members[i].as_str());
            r.push(copy);
            assert(r.deep_view() =~= before.push(copy@));
        }
        i = i + 1;
    }
    assert(members.deep_view().take(i as int) =~= members.deep_view());
    r
}

/// What `mplug remove` deletes from disk.
#[derive(Debug, PartialEq, Eq)]
pub struct Removal {
    /// The plugin is a directory, which goes as a whole; otherwise its
    /// `<plugins>/<name>.lua` goes.
    pub directory: bool,
    /// The member links that go with a collection.
    pub member_links: Vec<String>,
}

/// What removing the plugin deletes: its directory (when it is one) or else
/// its `.lua` file, and the symbolic links among its collection members'
/// `<plugins>/<member>.lua`.
pub open spec fn removal_plan(probe: PluginProbe) -> (bool, Seq<Seq<char>>) {
    (
        probe.dir_is_dir,
        match members_of(probe) {
            Some(ms) => member_links(ms, probe.member_files@),
            None => Seq::<Seq<char>>::empty(),
        },
    )
}

/// `mplug remove`: a plugin that is on disk is no longer enabled, nor, for a
/// collection, any of its members; the result says what to delete: its
/// directory or its `.lua` file, and a collection's member links (only the
/// symbolic links; other files by a member's name are kept).
pub fn remove_plugin(config: &mut MplugConfig, name: &str, probe: &PluginProbe) -> (r: Result<Removal, PluginError>)
    ensures
        present(*probe) ==> (r matches Ok(plan) && (plan.directory, plan.member_links.deep_view())
            == removal_plan(*probe)),
        present(*probe) ==> final(config).enabled_plugins@ == match members_of(*probe) {
            Some(ms) => old(config).enabled_plugins@.difference(ms.to_set()).remove(name@),
            None => old(config).enabled_plugins@.remove(name@),
        },
        !present(*probe) ==> (r matches Err(PluginError::NotInstalled(n)) && n@ == name@)
            && final(config).enabled_plugins@ == old(config).enabled_plugins@,
{
    if !plugin_present(probe) {
        return Err(PluginError::NotInstalled(String::from_str(name)));
    }
    let links = match collection_members(probe) {
        Some(members) => {
            config.forget(name, &members);
            member_links_to_remove(&members, &probe.member_files)
        },
        None => {
            config.disable(name);
            Vec::new()
        },
    };
    assert(links.deep_view() == match members_of(*probe) {
        Some(ms) => member_links(ms, probe.member_files@),
        None => Seq::<Seq<char>>::empty(),
    }) by {
        if members_of(*probe) is None {
            assert(links.deep_view() =~= Seq::<Seq<char>>::empty());
        }
    }
    Ok(Removal { directory: probe.dir_is_dir, member_links: links })
}

/// The members of a new collection whose link can be made, and those
/// skipped because `<plugins>/<member>.lua` is taken (`taken[i]` for member
/// `i`; a member past its end is not taken), each in order.
pub open spec fn link_split(members: Seq<Seq<char>>, taken: Seq<bool>) -> (Seq<Seq<char>>, Seq<Seq<char>>)
    decreases members.len(),
{
    if members.len() == 0 {
        (seq![], seq![])
    } else {
        let (free, skip) = link_split(members.drop_last(), taken);
        if members.len() - 1 < taken.len() && taken[members.len() - 1] {
            (free, skip.push(members.last()))
        } else {
            (free.push(members.last()), skip)
        }
    }
}

/// `mplug add` of a collection: which member links to make, and which to
/// skip because something already has the name.
pub fn link_plan(members: &Vec<String>, taken: &Vec<bool>) -> (r: (Vec<String>, Vec<String>))
    ensures
        (r.0.deep_view(), r.1.deep_view()) == link_split(members.deep_view(), taken@),
{
    let mut free: Vec<String> = Vec::new();
    let mut skip: Vec<String> = Vec::new();
    let mut i: usize = 0;
    while i < members.len()
        invariant
            i <= members.len(),
            (free.deep_view(), skip.deep_view()) == link_split(members.deep_view().take(i as int), taken@),
        decreases members.len() - i,
    {
        let ghost bf = free.deep_view();
        let ghost bs = skip.deep_view();
        proof {
            let t = members.deep_view().take(i + 1);
            assert(t.drop_last() =~= members.deep_view().take(i as int));
            assert(t.last() == members@[i as int]@);
        }
        let copy = String::from_str(members[i].as_str());
        if i < taken.len() && taken[i] {
            skip.push(copy);
            assert(skip.deep_view() =~= bs.push(copy@));
        } else {
            free.push(copy);
            assert(free.deep_view() =~= bf.push(copy@));
        }
        i = i + 1;
    }
    assert(members.deep_view().take(i as int) =~= members.deep_view());
    (free, skip)
}

/// What `mplug outdated` says after the per-plugin lines.
#[derive(Debug, Clone, Copy, PartialEq, Eq, Structural)]
pub struct OutdatedSummary {
    /// Some plugin was checked; otherwise "no git-managed plugins found".
    pub checked: bool,
    /// Some plugin is behind; then the hint to update follows.
    pub behind: bool,
}

/// The summary of `mplug outdated`, from how many commits each checked
/// plugin is behind.
pub fn outdated_summary(counts: &Vec<u32>) -> (r: OutdatedSummary)
    ensures
        r.checked == (counts@.len() > 0),
        r.behind == exists|i: int| 0 <= i < counts@.len() && #[trigger] counts@[i] > 0,
{
    let mut behind = false;
    let mut i: usize = 0;
    while i < counts.len()
        invariant
            i <= counts.len(),
            behind == exists|k: int| 0 <= k < i && #[trigger] counts@[k] > 0,
        decreases counts.len() - i,
    {
        if counts[i] > 0 {
            behind = true;
        }
        i = i + 1;
    }
    OutdatedSummary { checked: counts.len() > 0, behind }
}

/// Where a plugin file to load lies.
pub enum Place {
    /// `<plugins>/<name>.lua`.
    Standalone,
    /// `<plugins>/<name>/<entry point>`, the entry point trimmed.
    EntryPoint(Seq<char>),
    /// `<plugins>/<member>.lua`.
    Linked,
    /// `<plugins>/<name>/<member>.lua`.
    Bundled,
}

/// Where a plugin file to load lies.
#[derive(Debug, PartialEq, Eq)]
pub enum TargetLocation {
    /// `<plugins>/<name>.lua`.
    Standalone,
    /// `<plugins>/<name>/<entry point>`, the entry point trimmed.
    EntryPoint(String),
    /// `<plugins>/<member>.lua`.
    Linked,
    /// `<plugins>/<name>/<member>.lua`.
    Bundled,
}

impl View for TargetLocation {
    type V = Place;

    open spec fn view(&self) -> Place {
        match self {
            TargetLocation::Standalone => Place::Standalone,
            TargetLocation::EntryPoint(e) => Place::EntryPoint(e@),
            TargetLocation::Linked => Place::Linked,
            TargetLocation::Bundled => Place::Bundled,
        }
    }
}

/// A plugin file to load, under the name its messages go by.
#[derive(Debug, PartialEq, Eq)]
pub struct LoadTarget {
    pub name: String,
    pub location: TargetLocation,
}

impl View for LoadTarget {
    type V = (Seq<char>, Place);

    open spec fn view(&self) -> (Seq<char>, Place) {
        (self.name@, self.location@)
    }
}

/// Where member `i` of a collection is loaded from: the link beside the
/// other plugins first, else the file inside the repository.
pub open spec fn member_place(files: Seq<MemberFiles>, i: int) -> Option<Place> {
    if 0 <= i < files.len() && files[i].linked {
        Some(Place::Linked)
    } else if 0 <= i < files.len() && files[i].bundled {
        Some(Place::Bundled)
    } else {
        None
    }
}

/// The members of a collection that have a file, in order, each with where
/// it is loaded from.
pub open spec fn collection_targets(members: Seq<Seq<char>>, files: Seq<MemberFiles>) -> Seq<(Seq<char>, Place)>
    decreases members.len(),
{
    if members.len() == 0 {
        seq![]
    } else {
        let prev = collection_targets(members.drop_last(), files);
        match member_place(files, members.len() - 1) {
            Some(p) => prev.push((members.last(), p)),
            None => prev,
        }
    }
}

/// What loading an enabled plugin runs: its `.lua` file if there is one;
/// else, for a directory with a valid manifest, its trimmed entry point when
/// that is not blank, or else each member of its collection that has a
/// file; else nothing.
pub open spec fn load_targets(name: Seq<char>, probe: PluginProbe) -> Seq<(Seq<char>, Place)> {
    if probe.lua_exists {
        seq![(name, Place::Standalone)]
    } else if probe.dir_is_dir {
        match probe.manifest {
            Some(m) => if manifest_verdict(m) is Ok {
                if trim(entry_point_text(m)).len() > 0 {
                    seq![(name, Place::EntryPoint(trim(entry_point_text(m))))]
                } else {
                    match m.collection {
                        Some(c) => collection_targets(c.plugins.deep_view(), probe.member_files@),
                        None => seq![],
                    }
                }
            } else {
                seq![]
            },
            None => seq![],
        }
    } else {
        seq![]
    }
}

/// The files to load for the enabled plugin `name`, in order.
pub fn resolve_load_targets(name: &str, probe: &PluginProbe) -> (r: Vec<LoadTarget>)
    ensures
        r@.map_values(|t: LoadTarget| t@) == load_targets(name@, *probe),
{
    let mut r: Vec<LoadTarget> = Vec::new();
    if probe.lua_exists {
        r.push(LoadTarget { name: String::from_str(name), location: TargetLocation::Standalone });
        assert(r@.map_values(|t: LoadTarget| t@) =~= load_targets(name@, *probe));
        return r;
    }
    if !probe.dir_is_dir {
        assert(r@.map_values(|t: LoadTarget| t@) =~= load_targets(name@, *probe));
        return r;
    }
    let m = match &probe.manifest {
        Some(m) => m,
        None => {
            assert(r@.map_values(|t: LoadTarget| t@) =~= load_targets(name@, *probe));
            return r;
        },
    };
    if validate_manifest(m).is_err() {
        assert(r@.map_values(|t: LoadTarget| t@) =~= load_targets(name@, *probe));
        return r;
    }
    let ep = match &m.entry_point {
        Some(e) => trimmed(e.as_str()),
        None => String::new(),
    };
    assert(ep@ == trim(entry_point_text(*m)));
    if !ep.as_str().is_empty() {
        r.push(LoadTarget { name: String::from_str(name), location: TargetLocation::EntryPoint(ep) });
        assert(r@.map_values(|t: LoadTarget| t@) =~= load_targets(name@, *probe));
        return r;
    }
    match &m.collection {
        Some(c) => {
            let ghost members = c.plugins.deep_view();
            let ghost files = probe.member_files@;
            let mut i: usize = 0;
            while i < c.plugins.len()
                invariant
                    i <= c.plugins.len(),
                    members == c.plugins.deep_view(),
                    files == probe.member_files@,
                    r@.map_values(|t: LoadTarget| t@) == collection_targets(members.take(i as int), files),
                decreases c.plugins.len() - i,
            {
                let ghost before = r@;
                let place = if i < probe.member_files.len() && probe.member_files[i].linked {
                    Some(TargetLocation::Linked)
                } else if i < probe.member_files.len() && probe.member_files[i].bundled {
                    Some(TargetLocation::Bundled)
                } else {
                    None
                };
                proof {
                    assert(members.take(i + 1).drop_last() =~= members.take(i as int));
                    assert(members.take(i + 1).last() == c.plugins@[i as int]@);
                }
                match place {
                    Some(loc) => {
                        r.push(LoadTarget { name: String::from_str(c.plugins[i].as_str()), location: loc });
                        assert(r@.map_values(|t: LoadTarget| t@) =~= before.map_values(|t: LoadTarget| t@).push(
                            r@.last()@,
                        ));
                    },
                    None => {},
                }
                i = i + 1;
            }
            assert(members.take(i as int) =~= members);
            r
        },
        None => {
            assert(r@.map_values(|t: LoadTarget| t@) =~= load_targets(name@, *probe));
            r
        },
    }
}


/// The path of the URL that `url::Url::parse` makes of `repo`; `None` when
/// `repo` does not parse as a URL.
pub uninterp spec fn url_path(repo: Seq<char>) -> Option<Seq<char>>;

/// `url::Url::parse(repo)`, taken by the parsed URL's path (`Url::path`).
/// Trusted: the result is `url_path(repo)`, the path when `repo` parses and
/// `None` when it does not; nothing more is said of what that path is.
#[verifier::external_body]
fn parsed_url_path(repo: &str) -> (r: Option<String>)
    ensures
        match r {
            Some(p) => url_path(repo@) == Some(p@),
            None => url_path(repo@) is None,
        },
{
    match url::Url::parse(repo) {
        Ok(u) => Some(u.path().to_string()),
        Err(_) => None,
    }
}

/// The characters of `p` after its last `'/'`; all of `p` when it has none.
pub open spec fn after_last_slash(p: Seq<char>) -> Seq<char>
    decreases p.len(),
{
    if p.len() == 0 {
        p
    } else if p.last() == '/' {
        seq![]
    } else {
        after_last_slash(p.drop_last()).push(p.last())
    }
}

/// The directory a plugin cloned from a URL with path `path` goes to: the
/// last segment of the path (`"unknown_plugin"` when the path has no
/// segments, that is, does not start with `'/'`), without any trailing
/// `".git"`.
pub open spec fn dir_name_of(path: Seq<char>) -> Seq<char> {
    strip_suffixes(
        if has_prefix(path, "/"@) {
            after_last_slash(path)
        } else {
            "unknown_plugin"@
        },
        ".git"@,
    )
}

proof fn lemma_after_last_slash(p: Seq<char>, j: int)
    requires
        0 <= j <= p.len(),
        forall|k: int| j <= k < p.len() ==> #[trigger] p[k] != '/',
        j == 0 || p[j - 1] == '/',
    ensures
        after_last_slash(p) == p.skip(j),
    decreases p.len(),
{
    if j == p.len() {
        if p.len() > 0 {
            assert(p.skip(j) =~= seq![]);
        } else {
            assert(p.skip(j) =~= p);
        }
    } else {
        let d = p.drop_last();
        assert forall|k: int| j <= k < d.len() implies #[trigger] d[k] != '/' by {
            assert(d[k] == p[k]);
        }
        if j > 0 {
            assert(d[j - 1] == p[j - 1]);
        }
        assert(p[p.len() - 1] != '/');
        lemma_after_last_slash(d, j);
        assert(d.skip(j).push(p.last()) =~= p.skip(j));
    }
}

/// The directory name for a cloned plugin, from its URL's path.
pub fn dir_name_from_path(path: &str) -> (r: String)
    ensures
        r@ == dir_name_of(path@),
{
    proof {
        reveal_strlit(".git");
    }
    let segment = if starts_with(path, "/") {
        let v = chars_of(path);
        let mut j = v.len();
        while j > 0 && v[j - 1] != '/'
            invariant
                j <= v.len(),
                forall|k: int| j <= k < v.len() ==> #[trigger] v@[k] != '/',
            decreases j,
        {
            j = j - 1;
        }
        proof {
            lemma_after_last_slash(v@, j as int);
            assert(v@.subrange(j as int, v@.len() as int) =~= v@.skip(j as int));
        }
        string_of_range(&v, j, v.len())
    } else {
        String::from_str("unknown_plugin")
    };
    trim_end_matches(segment.as_str(), ".git")
}

/// The directory `mplug add` clones `repo` into: the last segment of its
/// URL's path, without a trailing `".git"`; an error when `repo` is not a
/// URL.
pub fn repo_dir_name(repo: &str) -> (r: Result<String, PluginError>)
    ensures
        match url_path(repo@) {
            Some(p) => r matches Ok(d) && d@ == dir_name_of(p),
            None => r matches Err(PluginError::InvalidRepoUrl(u)) && u@ == repo@,
        },
{
    match parsed_url_path(repo) {
        Some(p) => Ok(dir_name_from_path(p.as_str())),
        None => Err(PluginError::InvalidRepoUrl(String::from_str(repo))),
    }
}

/// How many commits a plugin is behind its upstream, from the output of
/// `git rev-list --count`: the trimmed output as a number, or zero when it
/// is not one.
pub fn behind_count(output: &str) -> (r: u32)
    ensures
        r == match parse_u32_spec(trim(output@)) {
            Some(n) => n,
            None => 0,
        },
{
    let t = trimmed(output);
    match parse_u32(t.as_str()) {
        Some(n) => n,
        None => 0,
    }
}

} // verus!
