use mise_plugins::plugins::{
    split_url_and_ref, AsdfPlugin, PluginEnum, PluginError, PluginLocation, PluginSource,
    PluginType, VfoxPlugin,
};

#[test]
fn test_plugin_source_parse_git() {
    // Test parsing Git URL
    let source = PluginSource::parse("https://github.com/user/plugin.git");
    match source {
        PluginSource::Git { url, git_ref } => {
            assert_eq!(url, "https://github.com/user/plugin.git");
            assert_eq!(git_ref, None);
        }
        _ => panic!("Expected a git plugin"),
    }
}

#[test]
fn test_plugin_source_parse_git_with_ref() {
    // Test parsing Git URL with refs
    let source = PluginSource::parse("https://github.com/user/plugin.git#v1.0.0");
    match source {
        PluginSource::Git { url, git_ref } => {
            assert_eq!(url, "https://github.com/user/plugin.git");
            assert_eq!(git_ref, Some("v1.0.0".to_string()));
        }
        _ => panic!("Expected a git plugin"),
    }
}

#[test]
fn test_plugin_source_parse_zip() {
    // Test parsing zip URL
    let source = PluginSource::parse("https://example.com/plugins/my-plugin.zip");
    match source {
        PluginSource::Zip { url } => {
            assert_eq!(url, "https://example.com/plugins/my-plugin.zip");
        }
        _ => panic!("Expected a Zip source"),
    }
}

#[test]
fn test_plugin_source_parse_uppercase_zip_with_query() {
    // Test parsing zip URL with query
    let source = PluginSource::parse("https://example.com/plugins/my-plugin.ZIP?version=v1.0.0");
    match source {
        PluginSource::Zip { url } => {
            assert_eq!(
                url,
                "https://example.com/plugins/my-plugin.ZIP?version=v1.0.0"
            );
        }
        _ => panic!("Expected a Zip source"),
    }
}

#[test]
fn test_plugin_source_parse_edge_cases() {
    // Test parsing git url which contains `.zip`
    let source = PluginSource::parse("https://example.com/.zip/plugin");
    match source {
        PluginSource::Git { .. } => {}
        _ => panic!("Expected a git plugin"),
    }
}

#[test]
fn test_plugin_location_remote() {
    let location = PluginLocation::Remote("https://github.com/user/plugin.git".to_string());
    assert!(location.is_remote());
    assert!(!location.is_local());
    assert_eq!(
        location.as_remote(),
        Some("https://github.com/user/plugin.git")
    );
    assert_eq!(location.as_local(), None);
}

#[test]
fn test_plugin_location_local() {
    let path = "/path/to/plugin".to_string();
    let location = PluginLocation::Local(path.clone());
    assert!(location.is_local());
    assert!(!location.is_remote());
    assert_eq!(location.as_remote(), None);
    assert_eq!(location.as_local(), Some(path.as_str()));
}

#[test]
fn test_plugin_location_equality() {
    let remote1 = PluginLocation::Remote("https://github.com/user/plugin.git".to_string());
    let remote2 = PluginLocation::Remote("https://github.com/user/plugin.git".to_string());
    let remote3 = PluginLocation::Remote("https://github.com/other/plugin.git".to_string());
    let local1 = PluginLocation::Local("/path/to/plugin".to_string());
    let local2 = PluginLocation::Local("/path/to/plugin".to_string());
    let local3 = PluginLocation::Local("/other/path".to_string());

    assert_eq!(remote1, remote2);
    assert_ne!(remote1, remote3);
    assert_eq!(local1, local2);
    assert_ne!(local1, local3);
    assert_ne!(remote1, local1);
}

#[test]
fn test_plugin_location_clone() {
    let location = PluginLocation::Remote("https://github.com/user/plugin.git".to_string());
    let cloned = location.clone();
    assert_eq!(location, cloned);
}

#[test]
fn local_locations_compare_by_path_components() {
    let a = PluginLocation::Local("/path/to//plugin/".to_string());
    let b = PluginLocation::Local("/path/./to/plugin".to_string());
    let c = PluginLocation::Local("path/to/plugin".to_string());
    assert_eq!(a, b);
    assert_ne!(a, c);
    // URLs are compared as they are written.
    let r1 = PluginLocation::Remote("https://x/a".to_string());
    let r2 = PluginLocation::Remote("https://x//a".to_string());
    assert_ne!(r1, r2);
}

#[test]
fn parse_splits_at_the_first_hash_and_keeps_the_rest() {
    match PluginSource::parse("https://h/p.git#main#extra") {
        PluginSource::Git { url, git_ref } => {
            assert_eq!(url, "https://h/p.git");
            assert_eq!(git_ref, Some("main#extra".to_string()));
        }
        _ => panic!("Expected a git plugin"),
    }
    // A fragment after the zip name does not hide the extension.
    match PluginSource::parse("https://h/p.Zip#frag") {
        PluginSource::Zip { url } => assert_eq!(url, "https://h/p.Zip#frag"),
        _ => panic!("Expected a Zip source"),
    }
    // Too short to end with `.zip`.
    assert!(matches!(PluginSource::parse("zip"), PluginSource::Git { .. }));
    // An empty ref is still a ref.
    match PluginSource::parse("u#") {
        PluginSource::Git { url, git_ref } => {
            assert_eq!(url, "u");
            assert_eq!(git_ref, Some(String::new()));
        }
        _ => panic!("Expected a git plugin"),
    }
}

#[test]
fn split_url_and_ref_cases() {
    assert_eq!(
        split_url_and_ref("https://h/p.git#v1"),
        ("https://h/p.git".to_string(), Some("v1".to_string()))
    );
    assert_eq!(split_url_and_ref("https://h/p.git"), ("https://h/p.git".to_string(), None));
}

#[test]
fn plugin_type_from_full() {
    assert_eq!(PluginType::from_full("asdf:node").ok(), Some(PluginType::Asdf));
    assert_eq!(PluginType::from_full("vfox").ok(), Some(PluginType::Vfox));
    assert_eq!(
        PluginType::from_full("vfox-backend:npm:foo").ok(),
        Some(PluginType::VfoxBackend)
    );
    match PluginType::from_full("cargo:ripgrep") {
        Err(PluginError::UnknownPluginType(full)) => assert_eq!(full, "cargo:ripgrep"),
        other => panic!("unexpected {:?}", other),
    }
    assert!(PluginType::from_full("ASDF:node").is_err());
}

#[test]
fn plugin_type_names() {
    assert_eq!(PluginType::Asdf.as_str(), "Asdf");
    assert_eq!(PluginType::VfoxBackend.as_str(), "VfoxBackend");
    assert_eq!(PluginType::parse_name("Vfox"), Some(PluginType::Vfox));
    assert_eq!(PluginType::parse_name("vfox"), None);
}

#[test]
fn plugin_enum_accessors_and_order() {
    let a = PluginEnum::Asdf(AsdfPlugin::new("node".to_string(), "/p/node".to_string()));
    let b = PluginEnum::VfoxBackend(VfoxPlugin::new("npm".to_string(), "/p/npm".to_string()));
    let c = PluginEnum::Vfox(VfoxPlugin::new("node".to_string(), "/elsewhere".to_string()));
    assert_eq!(a.name(), "node");
    assert_eq!(a.path(), "/p/node");
    assert_eq!(b.get_plugin_type(), PluginType::VfoxBackend);
    assert_eq!(c.get_plugin_type(), PluginType::Vfox);
    assert_eq!(a.to_string(), "node");
    // Plugins are equal and ordered by name alone.
    assert!(a == c);
    assert!(a < b);
    assert!(b > c);
    assert_eq!(a.partial_cmp(&c), Some(std::cmp::Ordering::Equal));
}

#[test]
fn is_installed_err_reports_the_name() {
    let a = PluginEnum::Asdf(AsdfPlugin::new("node".to_string(), "/p/node".to_string()));
    assert!(a.is_installed_err(true).is_ok());
    match a.is_installed_err(false) {
        Err(PluginError::PluginNotInstalled(name)) => assert_eq!(name, "node"),
        other => panic!("unexpected {:?}", other),
    }
}

#[test]
fn zip_kind_ignores_query_and_ascii_case() {
    for s in ["https://h/a.zip", "https://h/a.git", "https://h/a.zip#r", "x.Zip"] {
        let base = matches!(PluginSource::parse(s), PluginSource::Zip { .. });
        let q = format!("{s}?v=1.zip");
        assert_eq!(base, matches!(PluginSource::parse(&q), PluginSource::Zip { .. }));
        let up = s.to_ascii_uppercase();
        assert_eq!(base, matches!(PluginSource::parse(&up), PluginSource::Zip { .. }));
    }
}
