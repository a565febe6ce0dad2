use mplug::listing::{
    build_listing, enabled_label, CollectionView, ListingEntry, MemberView, PluginStatus, StandaloneView,
};
use mplug::manifest::{CollectionSection, PluginManifest};
use mplug::plugins::{
    behind_count, collection_members, dir_name_from_path, disable_plugin, enable_plugin,
    plugin_installed, plugin_present, remove_plugin, repo_dir_name, resolve_load_targets,
    still_enabled_members, link_plan, member_links_to_remove, outdated_summary, LoadTarget,
    OutdatedSummary, Removal, MemberFiles, MplugConfig, PluginError, PluginProbe, PluginSet,
    TargetLocation,
};

fn nothing() -> PluginProbe {
    PluginProbe {
        lua_exists: false,
        lua_is_file: false,
        lua_is_link: false,
        dir_exists: false,
        dir_is_dir: false,
        manifest: None,
        member_files: vec![],
    }
}

fn collection_manifest(name: &str, members: &[&str]) -> PluginManifest {
    PluginManifest {
        name: name.to_string(),
        version: "0.1.0".to_string(),
        entry_point: None,
        collection: Some(CollectionSection { plugins: members.iter().map(|m| m.to_string()).collect() }),
    }
}

fn collection_dir(name: &str, members: &[&str], files: Vec<MemberFiles>) -> PluginProbe {
    PluginProbe {
        dir_exists: true,
        dir_is_dir: true,
        manifest: Some(collection_manifest(name, members)),
        member_files: files,
        ..nothing()
    }
}

fn target(name: &str, location: TargetLocation) -> LoadTarget {
    LoadTarget { name: name.to_string(), location }
}

fn set_of(names: &[&str]) -> PluginSet {
    let mut s = PluginSet::new();
    for n in names {
        s.insert(n);
    }
    s
}

#[test]
fn resolve_standalone_lua_file() {
    let probe = PluginProbe { lua_exists: true, lua_is_file: true, ..nothing() };
    let targets = resolve_load_targets("stay-put", &probe);
    assert_eq!(targets, vec![target("stay-put", TargetLocation::Standalone)]);
}

#[test]
fn resolve_collection_loads_all_members_from_dir() {
    let inside = MemberFiles { linked: false, bundled: true, link: false };
    let probe = collection_dir("personal", &["a", "b"], vec![inside, inside]);
    let targets = resolve_load_targets("personal", &probe);
    assert_eq!(
        targets,
        vec![target("a", TargetLocation::Bundled), target("b", TargetLocation::Bundled)]
    );
}

#[test]
fn resolve_collection_skips_missing_member_file() {
    let probe = collection_dir(
        "personal",
        &["a", "missing"],
        vec![MemberFiles { linked: false, bundled: true, link: false }, MemberFiles { linked: false, bundled: false, link: false }],
    );
    let targets = resolve_load_targets("personal", &probe);
    assert_eq!(targets, vec![target("a", TargetLocation::Bundled)]);
}

#[test]
fn resolve_dir_with_entry_point() {
    let probe = PluginProbe {
        dir_exists: true,
        dir_is_dir: true,
        manifest: Some(PluginManifest {
            name: "solo".to_string(),
            version: "0.1.0".to_string(),
            entry_point: Some("init.lua".to_string()),
            collection: None,
        }),
        ..nothing()
    };
    let targets = resolve_load_targets("solo", &probe);
    assert_eq!(targets, vec![target("solo", TargetLocation::EntryPoint("init.lua".to_string()))]);
}

#[test]
fn resolve_unknown_returns_empty() {
    assert!(resolve_load_targets("nope", &nothing()).is_empty());
}

#[test]
fn resolve_prefers_link_and_trims_entry_point() {
    let probe = collection_dir(
        "bundle",
        &["x", "y"],
        vec![MemberFiles { linked: true, bundled: true, link: true }],
    );
    assert_eq!(resolve_load_targets("bundle", &probe), vec![target("x", TargetLocation::Linked)]);
    let probe = PluginProbe {
        dir_exists: true,
        dir_is_dir: true,
        manifest: Some(PluginManifest {
            name: "solo".to_string(),
            version: "1".to_string(),
            entry_point: Some("  main.lua \n".to_string()),
            collection: None,
        }),
        ..nothing()
    };
    assert_eq!(
        resolve_load_targets("solo", &probe),
        vec![target("solo", TargetLocation::EntryPoint("main.lua".to_string()))]
    );
}

#[test]
fn resolve_skips_invalid_manifest() {
    let probe = PluginProbe {
        dir_exists: true,
        dir_is_dir: true,
        manifest: Some(PluginManifest {
            name: "".to_string(),
            version: "0.1.0".to_string(),
            entry_point: Some("init.lua".to_string()),
            collection: None,
        }),
        ..nothing()
    };
    assert!(resolve_load_targets("broken", &probe).is_empty());
}

#[test]
fn build_listing_nests_collection_members_when_collection_enabled() {
    let entries = vec![
        ListingEntry::Directory {
            name: "personal".to_string(),
            collection: Some(vec!["a".to_string(), "b".to_string()]),
        },
        ListingEntry::LuaFile { stem: "stay-put".to_string() },
    ];
    let enabled = set_of(&["personal"]);
    let listing = build_listing(&entries, &enabled);

    assert_eq!(listing.collections.len(), 1);
    let c = &listing.collections[0];
    assert_eq!(c.name, "personal");
    assert_eq!(c.status, PluginStatus::Enabled);
    assert_eq!(
        c.members,
        vec![
            MemberView { name: "a".into(), enabled: true },
            MemberView { name: "b".into(), enabled: true },
        ]
    );
    assert_eq!(
        listing.standalones,
        vec![StandaloneView { name: "stay-put".into(), enabled: false }]
    );
}

#[test]
fn build_listing_collection_partial_when_member_enabled_individually() {
    let entries = vec![
        ListingEntry::Directory {
            name: "useful".to_string(),
            collection: Some(vec!["x".to_string(), "y".to_string()]),
        },
        ListingEntry::LuaFile { stem: "x".to_string() },
    ];
    let enabled = set_of(&["x"]);
    let listing = build_listing(&entries, &enabled);

    assert_eq!(listing.collections.len(), 1);
    let c = &listing.collections[0];
    assert_eq!(c.status, PluginStatus::Partial);
    assert_eq!(
        c.members,
        vec![
            MemberView { name: "x".into(), enabled: true },
            MemberView { name: "y".into(), enabled: false },
        ]
    );
    assert!(listing.standalones.is_empty(), "members should not be listed at top level");
}

#[test]
fn build_listing_sorts_by_name_and_counts() {
    let entries = vec![
        ListingEntry::LuaFile { stem: "zeta".to_string() },
        ListingEntry::Directory { name: "beta".to_string(), collection: None },
        ListingEntry::Directory { name: "col-b".to_string(), collection: Some(vec!["m".to_string()]) },
        ListingEntry::LuaFile { stem: "alpha".to_string() },
        ListingEntry::Directory { name: "col-a".to_string(), collection: Some(vec![]) },
    ];
    let listing = build_listing(&entries, &set_of(&["beta"]));
    let cols: Vec<&str> = listing.collections.iter().map(|c| c.name.as_str()).collect();
    assert_eq!(cols, vec!["col-a", "col-b"]);
    assert_eq!(listing.collections[0].status, PluginStatus::Disabled);
    assert_eq!(listing.collections[1].status, PluginStatus::Disabled);
    assert_eq!(
        listing.standalones,
        vec![
            StandaloneView { name: "alpha".into(), enabled: false },
            StandaloneView { name: "beta".into(), enabled: true },
            StandaloneView { name: "zeta".into(), enabled: false },
        ]
    );
    assert_eq!(listing.plugin_count(), 4);
    assert!(!listing.is_empty());
    assert!(build_listing(&vec![], &PluginSet::new()).is_empty());
    let _: &CollectionView = &listing.collections[0];
}

#[test]
fn labels() {
    assert_eq!(PluginStatus::Enabled.label(), "enabled");
    assert_eq!(PluginStatus::Partial.label(), "partial");
    assert_eq!(PluginStatus::Disabled.label(), "disabled");
    assert_eq!(enabled_label(true), "enabled");
    assert_eq!(enabled_label(false), "disabled");
}

#[test]
fn still_enabled_members_keeps_individually_enabled_entries() {
    let members = vec!["a".to_string(), "b".to_string(), "c".to_string()];
    let enabled = set_of(&["b"]);

    assert_eq!(still_enabled_members(&members, &enabled), vec!["b"]);

    let none = PluginSet::new();
    assert!(still_enabled_members(&members, &none).is_empty());
}

#[test]
fn plugin_set_holds_each_name_once() {
    let mut s = PluginSet::new();
    assert!(s.insert("a"));
    assert!(!s.insert("a"));
    assert!(s.insert("b"));
    assert_eq!(s.len(), 2);
    assert!(s.contains("a"));
    assert!(s.remove("a"));
    assert!(!s.remove("a"));
    assert!(!s.contains("a"));
    assert_eq!(s.names(), vec!["b"]);
    let t = PluginSet::from_names(&vec!["x".to_string(), "y".to_string(), "x".to_string()]);
    assert_eq!(t.len(), 2);
}

#[test]
fn enable_and_disable_need_an_installed_plugin() {
    let mut config = MplugConfig::new();
    let installed = PluginProbe { lua_exists: true, lua_is_file: true, ..nothing() };
    assert!(plugin_installed(&installed));
    assert!(!plugin_installed(&nothing()));
    assert_eq!(enable_plugin(&mut config, "p", &installed), Ok(true));
    assert_eq!(enable_plugin(&mut config, "p", &installed), Ok(false));
    assert!(config.enabled_plugins.contains("p"));
    assert_eq!(
        enable_plugin(&mut config, "ghost", &nothing()),
        Err(PluginError::NotInstalled("ghost".to_string()))
    );
    assert_eq!(disable_plugin(&mut config, "p", &installed), Ok(true));
    assert_eq!(disable_plugin(&mut config, "p", &installed), Ok(false));
    assert!(!config.enabled_plugins.contains("p"));
    let link_only = PluginProbe { lua_is_link: true, ..nothing() };
    assert!(plugin_installed(&link_only));
}

#[test]
fn removing_a_collection_disables_its_members() {
    let mut config = MplugConfig::new();
    config.enable("bundle");
    config.enable("a");
    config.enable("keep");
    let probe = collection_dir(
        "bundle",
        &["a", "b"],
        vec![
            MemberFiles { linked: true, bundled: true, link: true },
            MemberFiles { linked: true, bundled: true, link: false },
        ],
    );
    assert!(plugin_present(&probe));
    assert_eq!(collection_members(&probe), Some(vec!["a".to_string(), "b".to_string()]));
    // Only the member that is a link goes; b.lua is a regular file and stays.
    assert_eq!(
        remove_plugin(&mut config, "bundle", &probe),
        Ok(Removal { directory: true, member_links: vec!["a".to_string()] })
    );
    assert!(!config.enabled_plugins.contains("bundle"));
    assert!(!config.enabled_plugins.contains("a"));
    assert!(config.enabled_plugins.contains("keep"));
    assert_eq!(
        remove_plugin(&mut config, "nothing", &nothing()),
        Err(PluginError::NotInstalled("nothing".to_string()))
    );
}

#[test]
fn plugin_error_messages() {
    assert_eq!(
        PluginError::NotInstalled("x".to_string()).message(),
        "Plugin 'x' is not installed \u{2014} use `mplug list` to see installed plugins"
    );
    assert_eq!(
        PluginError::AlreadyInstalled("x".to_string()).message(),
        "Plugin 'x' is already installed \u{2014} use `mplug update x` to update it"
    );
    assert_eq!(
        PluginError::InvalidRepoUrl("nope".to_string()).message(),
        "Invalid repository URL: nope"
    );
}

#[test]
fn directory_names_from_repository_urls() {
    assert_eq!(repo_dir_name("https://github.com/user/plugin"), Ok("plugin".to_string()));
    assert_eq!(repo_dir_name("https://github.com/user/plugin.git"), Ok("plugin".to_string()));
    assert_eq!(repo_dir_name("https://github.com/user/plugin.git.git"), Ok("plugin".to_string()));
    assert_eq!(repo_dir_name("mailto:someone@example.com"), Ok("unknown_plugin".to_string()));
    assert_eq!(
        repo_dir_name("not a url"),
        Err(PluginError::InvalidRepoUrl("not a url".to_string()))
    );
    assert_eq!(dir_name_from_path("/a/b/c.git"), "c");
    assert_eq!(dir_name_from_path("/"), "");
    assert_eq!(dir_name_from_path("opaque"), "unknown_plugin");
}

#[test]
fn behind_count_reads_git_output() {
    assert_eq!(behind_count("3\n"), 3);
    assert_eq!(behind_count("  0 "), 0);
    assert_eq!(behind_count("fatal: no upstream"), 0);
    assert_eq!(behind_count(""), 0);
}

#[test]
fn standalone_file_wins_over_directory() {
    let probe = PluginProbe {
        lua_exists: true,
        lua_is_file: true,
        ..collection_dir("both", &["a"], vec![MemberFiles { linked: true, bundled: true, link: true }])
    };
    assert_eq!(resolve_load_targets("both", &probe), vec![target("both", TargetLocation::Standalone)]);
}

#[test]
fn removing_a_plain_plugin_deletes_its_file() {
    let mut config = MplugConfig::new();
    config.enable("solo");
    let probe = PluginProbe { lua_exists: true, lua_is_file: true, ..nothing() };
    assert_eq!(
        remove_plugin(&mut config, "solo", &probe),
        Ok(Removal { directory: false, member_links: vec![] })
    );
    assert!(!config.enabled_plugins.contains("solo"));
}

#[test]
fn only_member_links_are_removed() {
    let members = vec!["a".to_string(), "b".to_string(), "c".to_string()];
    let link = MemberFiles { linked: true, bundled: true, link: true };
    let file = MemberFiles { linked: true, bundled: true, link: false };
    assert_eq!(member_links_to_remove(&members, &vec![link, file, link]), vec!["a", "c"]);
    assert_eq!(member_links_to_remove(&members, &vec![link]), vec!["a"]);
    assert!(member_links_to_remove(&members, &vec![]).is_empty());
}

#[test]
fn link_plan_skips_taken_names() {
    let members = vec!["a".to_string(), "b".to_string(), "c".to_string()];
    let (free, skipped) = link_plan(&members, &vec![false, true, false]);
    assert_eq!(free, vec!["a", "c"]);
    assert_eq!(skipped, vec!["b"]);
    let (free, skipped) = link_plan(&members, &vec![]);
    assert_eq!(free, vec!["a", "b", "c"]);
    assert!(skipped.is_empty());
}

#[test]
fn outdated_summary_says_when_to_hint() {
    assert_eq!(outdated_summary(&vec![]), OutdatedSummary { checked: false, behind: false });
    assert_eq!(outdated_summary(&vec![0, 0]), OutdatedSummary { checked: true, behind: false });
    assert_eq!(outdated_summary(&vec![0, 3]), OutdatedSummary { checked: true, behind: true });
}
