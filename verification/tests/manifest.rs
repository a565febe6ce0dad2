use mplug::manifest::{validate_manifest, CollectionSection, ManifestError, PluginManifest};

fn valid_manifest() -> PluginManifest {
    PluginManifest {
        name: "my-plugin".to_string(),
        version: "0.1.0".to_string(),
        entry_point: Some("init.lua".to_string()),
        collection: None,
    }
}

fn valid_collection_manifest() -> PluginManifest {
    PluginManifest {
        name: "my-bundle".to_string(),
        version: "1.0.0".to_string(),
        entry_point: None,
        collection: Some(CollectionSection {
            plugins: vec!["autotile".to_string(), "focus-history".to_string()],
        }),
    }
}

#[test]
fn test_valid_manifest_passes_validation() {
    assert!(validate_manifest(&valid_manifest()).is_ok());
}

#[test]
fn test_valid_collection_manifest_passes_validation() {
    assert!(validate_manifest(&valid_collection_manifest()).is_ok());
}

#[test]
fn test_empty_name_returns_err_with_name() {
    let manifest = PluginManifest {
        name: "".to_string(),
        ..valid_manifest()
    };
    let err = validate_manifest(&manifest).unwrap_err();
    assert!(
        err.message().contains("name"),
        "Error should mention 'name': {}",
        err.message()
    );
}

#[test]
fn test_empty_version_returns_err_with_version() {
    let manifest = PluginManifest {
        version: "".to_string(),
        ..valid_manifest()
    };
    let err = validate_manifest(&manifest).unwrap_err();
    assert!(
        err.message().contains("version"),
        "Error should mention 'version': {}",
        err.message()
    );
}

#[test]
fn test_no_entry_point_no_collection_fails() {
    let manifest = PluginManifest {
        name: "my-plugin".to_string(),
        version: "0.1.0".to_string(),
        entry_point: None,
        collection: None,
    };
    assert!(validate_manifest(&manifest).is_err());
}

#[test]
fn test_empty_entry_point_no_collection_fails() {
    let manifest = PluginManifest {
        name: "my-plugin".to_string(),
        version: "0.1.0".to_string(),
        entry_point: Some("".to_string()),
        collection: None,
    };
    assert!(validate_manifest(&manifest).is_err());
}

#[test]
fn test_collection_with_empty_plugin_name_fails() {
    let manifest = PluginManifest {
        collection: Some(CollectionSection {
            plugins: vec!["".to_string()],
        }),
        entry_point: None,
        ..valid_collection_manifest()
    };
    assert!(validate_manifest(&manifest).is_err());
}

#[test]
fn errors_come_in_field_order() {
    let blank_all = PluginManifest {
        name: "  ".to_string(),
        version: "\t".to_string(),
        entry_point: None,
        collection: None,
    };
    assert_eq!(validate_manifest(&blank_all), Err(ManifestError::MissingName));
    let no_version = PluginManifest { version: " ".to_string(), ..valid_manifest() };
    assert_eq!(validate_manifest(&no_version), Err(ManifestError::MissingVersion));
    let blank_entry = PluginManifest { entry_point: Some("   ".to_string()), ..valid_manifest() };
    assert_eq!(validate_manifest(&blank_entry), Err(ManifestError::MissingEntryPoint));
    let blank_member = PluginManifest {
        collection: Some(CollectionSection { plugins: vec!["a".to_string(), " ".to_string()] }),
        ..valid_collection_manifest()
    };
    assert_eq!(validate_manifest(&blank_member), Err(ManifestError::EmptyCollectionMember));
}

#[test]
fn empty_collection_needs_entry_point() {
    let with_entry = PluginManifest {
        collection: Some(CollectionSection { plugins: vec![] }),
        ..valid_manifest()
    };
    assert!(validate_manifest(&with_entry).is_ok());
    let without = PluginManifest {
        collection: Some(CollectionSection { plugins: vec![] }),
        entry_point: None,
        ..valid_manifest()
    };
    assert_eq!(validate_manifest(&without), Err(ManifestError::MissingEntryPoint));
}

#[test]
fn error_messages() {
    assert_eq!(ManifestError::MissingName.message(), "manifest is missing required field: name");
    assert_eq!(ManifestError::MissingVersion.message(), "manifest is missing required field: version");
    assert_eq!(ManifestError::EmptyCollectionMember.message(), "collection.plugins contains an empty name");
    assert_eq!(
        ManifestError::MissingEntryPoint.message(),
        "manifest must have entry_point or a non-empty [collection] plugins list"
    );
}
