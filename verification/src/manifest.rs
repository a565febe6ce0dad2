//! The `mplug.toml` manifest of a directory plugin and its validation.

use vstd::prelude::*;
use crate::text::{blank, is_blank};

verus! {

/// The `[collection]` section: the member plugins a repository ships.
#[derive(Debug, Clone)]
pub struct CollectionSection {
    pub plugins: Vec<String>,
}

/// A parsed `mplug.toml`.
#[derive(Debug, Clone)]
pub struct PluginManifest {
    pub name: String,
    pub version: String,
    pub entry_point: Option<String>,
    pub collection: Option<CollectionSection>,
}

/// Why a manifest was rejected.
#[derive(Debug, Clone, Copy, PartialEq, Eq, Structural)]
pub enum ManifestError {
    /// `name` is missing or blank.
    MissingName,
    /// `version` is missing or blank.
    MissingVersion,
    /// A member of `[collection] plugins` is blank.
    EmptyCollectionMember,
    /// Neither a non-blank `entry_point` nor a non-empty collection.
    MissingEntryPoint,
}

impl ManifestError {
    /// The message shown to the user.
    pub fn message(&self) -> (r: String)
        ensures
            *self == ManifestError::MissingName ==> r@ == "manifest is missing required field: name"@,
            *self == ManifestError::MissingVersion ==> r@ == "manifest is missing required field: version"@,
            *self == ManifestError::EmptyCollectionMember ==> r@ == "collection.plugins contains an empty name"@,
            *self == ManifestError::MissingEntryPoint ==> r@ == "manifest must have entry_point or a non-empty [collection] plugins list"@,
    {
        match self {
            ManifestError::MissingName => String::from_str("manifest is missing required field: name"),
            ManifestError::MissingVersion => String::from_str("manifest is missing required field: version"),
            ManifestError::EmptyCollectionMember => String::from_str("collection.plugins contains an empty name"),
            ManifestError::MissingEntryPoint => String::from_str(
                "manifest must have entry_point or a non-empty [collection] plugins list",
            ),
        }
    }
}

/// The members of a non-empty collection section, if the manifest has one.
pub open spec fn nonempty_collection(m: PluginManifest) -> Option<Seq<Seq<char>>> {
    match m.collection {
        Some(c) => if c.plugins@.len() > 0 {
            Some(c.plugins.deep_view())
        } else {
            None
        },
        None => None,
    }
}

/// The entry point with surrounding whitespace, or the empty string when absent.
pub open spec fn entry_point_text(m: PluginManifest) -> Seq<char> {
    match m.entry_point {
        Some(e) => e@,
        None => Seq::empty(),
    }
}

/// Some member name is blank.
pub open spec fn has_blank_member(members: Seq<Seq<char>>) -> bool {
    exists|i: int| 0 <= i < members.len() && is_blank(#[trigger] members[i])
}

/// The verdict on a manifest, checked in this order: a blank `name`, a blank
/// `version`; then, with a non-empty collection, a blank member; without
/// one, a blank or missing `entry_point`.
pub open spec fn manifest_verdict(m: PluginManifest) -> Result<(), ManifestError> {
    if is_blank(m.name@) {
        Err(ManifestError::MissingName)
    } else if is_blank(m.version@) {
        Err(ManifestError::MissingVersion)
    } else {
        match nonempty_collection(m) {
            Some(members) => if has_blank_member(members) {
                Err(ManifestError::EmptyCollectionMember)
            } else {
                Ok(())
            },
            None => if is_blank(entry_point_text(m)) {
                Err(ManifestError::MissingEntryPoint)
            } else {
                Ok(())
            },
        }
    }
}

/// Checks a manifest's required fields.
pub fn validate_manifest(manifest: &PluginManifest) -> (r: Result<(), ManifestError>)
    ensures
        r == manifest_verdict(*manifest),
{
    if blank(manifest.name.as_str()) {
        return Err(ManifestError::MissingName);
    }
    if blank(manifest.version.as_str()) {
        return Err(ManifestError::MissingVersion);
    }
    match &manifest.collection {
        Some(col) if col.plugins.len() > 0 => {
            let ghost members = col.plugins.deep_view();
            assert(nonempty_collection(*manifest) == Some(members));
            let mut i: usize = 0;
            while i < col.plugins.len()
                invariant
                    i <= col.plugins.len(),
                    members == col.plugins.deep_view(),
                    nonempty_collection(*manifest) == Some(members),
                    !is_blank(manifest.name@),
                    !is_blank(manifest.version@),
                    forall|j: int| 0 <= j < i ==> !is_blank(#[trigger] members[j]),
                decreases col.plugins.len() - i,
            {
                if blank(col.plugins[i].as_str()) {
                    assert(is_blank(members[i as int]));
                    assert(has_blank_member(members));
                    return Err(ManifestError::EmptyCollectionMember);
                }
                i = i + 1;
            }
            Ok(())
        },
        _ => {
            let empty = match &manifest.entry_point {
                Some(e) => blank(e.as_str()),
                None => true,
            };
            if empty {
                Err(ManifestError::MissingEntryPoint)
            } else {
                Ok(())
            }
        },
    }
}

/// A manifest that passes validation has a non-blank name and version, and
/// either a non-empty collection of non-blank members or a non-blank entry
/// point.
pub proof fn lemma_valid_manifest_fields(m: PluginManifest)
    requires
        manifest_verdict(m) is Ok,
    ensures
        !is_blank(m.name@),
        !is_blank(m.version@),
        match nonempty_collection(m) {
            Some(members) => forall|i: int| 0 <= i < members.len() ==> !is_blank(#[trigger] members[i]),
            None => !is_blank(entry_point_text(m)),
        },
{
}

} // verus!
