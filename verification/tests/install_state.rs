use itertools::Itertools;
use mise_plugins::plugins::{get, PluginError, PluginType};
use mise_plugins::toolset::backend_type::BackendType;
use mise_plugins::toolset::install_state::{
    backend_meta_path, backend_type, collect_versions, detect_plugin_type, get_plugin_info_step,
    get_plugin_info_sync, get_plugin_path, get_plugin_path_and_name, get_plugin_type,
    get_tool_full, incomplete_file_path, init_plugins, init_tools, is_banned_plugin,
    legacy_backend_meta_path, list_plugins, list_tools, list_versions, migrate_backend_meta_json,
    normalize_version_for_sort, parse_backend_meta, register_plugin_ref, reset, resolve_plugin,
    sort_versions, write_backend_meta, DetectError, Dirs, InstallState, PluginDirScan, ToolDirScan,
    InstallStateTool, PluginDirProbe, PluginInfo, PluginInfoPoll, VersionDir,
};
use versions::Versioning;

fn dirs() -> Dirs {
    Dirs {
        plugins: "/data/plugins".to_string(),
        installs: "/data/installs".to_string(),
        cache: "/cache".to_string(),
    }
}

fn info(name: &str, t: PluginType, path: &str) -> PluginInfo {
    PluginInfo { name: name.to_string(), plugin_type: t, path: path.to_string() }
}

fn strings(v: &[&str]) -> Vec<String> {
    v.iter().map(|s| s.to_string()).collect()
}

fn no_probe() -> PluginDirProbe {
    PluginDirProbe {
        exists: false,
        is_dir: false,
        has_metadata_lua: false,
        has_backend_install_lua: false,
        has_list_all: false,
    }
}

/// Scans of plugin directories whose type is not detected.
fn undetected(names: &[&str]) -> Vec<PluginDirScan> {
    names
        .iter()
        .map(|n| PluginDirScan { name: n.to_string(), remote_url: None, probe: no_probe() })
        .collect()
}

fn version_dir(name: &str) -> VersionDir {
    VersionDir { name: name.to_string(), is_runtime_symlink: false, is_incomplete: false }
}

fn tool_scan(dir: &str, meta: Option<&[&str]>, versions: &[&str]) -> ToolDirScan {
    ToolDirScan {
        dir: dir.to_string(),
        backend_meta: meta.map(strings),
        version_dirs: versions.iter().map(|v| version_dir(v)).collect(),
    }
}

#[test]
fn test_normalize_version_for_sort() {
    assert_eq!(normalize_version_for_sort("v1.0.0"), "1.0.0");
    assert_eq!(normalize_version_for_sort("V1.0.0"), "1.0.0");
    assert_eq!(normalize_version_for_sort("1.0.0"), "1.0.0");
    assert_eq!(normalize_version_for_sort("latest"), "latest");
}

#[test]
fn test_version_sorting_with_v_prefix() {
    // Test that mixed v-prefix and non-v-prefix versions sort correctly
    let versions = ["v2.0.51", "2.0.35", "2.0.52"];

    // Without normalization - demonstrates the problem
    let sorted_without_norm: Vec<_> = versions
        .iter()
        .sorted_by_cached_key(|v| (Versioning::new(v), v.to_string()))
        .collect();
    println!("Without normalization: {:?}", sorted_without_norm);

    // With normalization - the fix
    let sorted_with_norm: Vec<_> = versions
        .iter()
        .sorted_by_cached_key(|v| {
            let normalized = normalize_version_for_sort(v);
            (Versioning::new(normalized), v.to_string())
        })
        .collect();
    println!("With normalization: {:?}", sorted_with_norm);

    // With the fix, v2.0.51 should sort between 2.0.35 and 2.0.52
    // The highest version should be 2.0.52
    assert_eq!(**sorted_with_norm.last().unwrap(), "2.0.52");

    // v2.0.51 should be second to last
    assert_eq!(**sorted_with_norm.get(1).unwrap(), "v2.0.51");

    // 2.0.35 should be first
    assert_eq!(**sorted_with_norm.first().unwrap(), "2.0.35");
}

#[test]
fn test_detect_plugin_type_asdf_and_vfox() {
    // An asdf plugin: a directory holding bin/list-all
    let asdf_dir = PluginDirProbe {
        exists: true,
        is_dir: true,
        has_metadata_lua: false,
        has_backend_install_lua: false,
        has_list_all: true,
    };
    let result = detect_plugin_type(&asdf_dir).unwrap();
    assert_eq!(result, PluginType::Asdf);

    // A vfox plugin: a directory holding metadata.lua
    let vfox_dir = PluginDirProbe {
        exists: true,
        is_dir: true,
        has_metadata_lua: true,
        has_backend_install_lua: false,
        has_list_all: false,
    };
    let result = detect_plugin_type(&vfox_dir).unwrap();
    assert_eq!(result, PluginType::Vfox);
}

#[test]
fn detect_plugin_type_other_cases() {
    let mut p = PluginDirProbe {
        exists: false,
        is_dir: false,
        has_metadata_lua: false,
        has_backend_install_lua: false,
        has_list_all: false,
    };
    assert_eq!(detect_plugin_type(&p), Err(DetectError::DoesNotExist));
    p.exists = true;
    assert_eq!(detect_plugin_type(&p), Err(DetectError::NotADirectory));
    p.is_dir = true;
    assert_eq!(detect_plugin_type(&p), Err(DetectError::UnknownLayout));
    p.has_metadata_lua = true;
    p.has_backend_install_lua = true;
    p.has_list_all = true;
    assert_eq!(detect_plugin_type(&p), Ok(PluginType::VfoxBackend));
}

#[test]
fn sort_versions_orders_by_version_then_text() {
    let sorted = sort_versions(strings(&["v2.0.51", "2.0.35", "2.0.52", "10.0.0", "9.1"]));
    assert_eq!(sorted, strings(&["2.0.35", "v2.0.51", "2.0.52", "9.1", "10.0.0"]));
    // Equal versions fall back on the text: "1.0.0" < "v1.0.0".
    let sorted = sort_versions(strings(&["v1.0.0", "1.0.0"]));
    assert_eq!(sorted, strings(&["1.0.0", "v1.0.0"]));
    assert!(sort_versions(Vec::new()).is_empty());
}

#[test]
fn collect_versions_filters_and_sorts() {
    let dirs = vec![
        VersionDir { name: "1.10.0".to_string(), is_runtime_symlink: false, is_incomplete: false },
        VersionDir { name: ".hidden".to_string(), is_runtime_symlink: false, is_incomplete: false },
        VersionDir { name: "latest".to_string(), is_runtime_symlink: true, is_incomplete: false },
        VersionDir { name: "1.9.0".to_string(), is_runtime_symlink: false, is_incomplete: false },
        VersionDir { name: "2.0.0".to_string(), is_runtime_symlink: false, is_incomplete: true },
    ];
    assert_eq!(collect_versions(&dirs), strings(&["1.9.0", "1.10.0"]));
}

#[test]
fn registry_read_gives_back_write() {
    let mut state = InstallState::new(dirs());
    init_plugins(&mut state, undetected(&["node", "python"]));
    assert!(get_plugin_info_sync(&state, "node").is_none());
    assert!(list_plugins(&state).is_empty());

    let node = info("node", PluginType::Vfox, "/data/plugins/node");
    assert!(resolve_plugin(&mut state, "node", node).is_ok());
    let got = get_plugin_info_sync(&state, "node").unwrap();
    assert_eq!(got.name, "node");
    assert_eq!(got.plugin_type, PluginType::Vfox);
    assert_eq!(got.path, "/data/plugins/node");
    assert_eq!(get_plugin_type(&state, "node"), Some(PluginType::Vfox));
    assert_eq!(get_plugin_type(&state, "python"), None);

    // A second resolution is refused and changes nothing.
    let again = info("node", PluginType::Asdf, "/x");
    assert!(resolve_plugin(&mut state, "node", again).is_err());
    assert_eq!(get_plugin_type(&state, "node"), Some(PluginType::Vfox));

    // Resolving an unregistered plugin is a no-op.
    assert!(resolve_plugin(&mut state, "ruby", info("ruby", PluginType::Asdf, "/r")).is_ok());
    assert!(get_plugin_info_sync(&state, "ruby").is_none());

    let listed = list_plugins(&state);
    assert_eq!(listed.len(), 1);
    assert_eq!(listed.key_at(0), "node");
    assert_eq!(listed.get("node").unwrap().path, "/data/plugins/node");
}

#[test]
fn register_plugin_ref_is_idempotent_and_initializes() {
    let mut state = InstallState::new(dirs());
    register_plugin_ref(&mut state, "zig".to_string());
    register_plugin_ref(&mut state, "alpha".to_string());
    assert!(resolve_plugin(&mut state, "zig", info("zig", PluginType::Asdf, "/z")).is_ok());
    register_plugin_ref(&mut state, "zig".to_string());
    assert_eq!(get_plugin_type(&state, "zig"), Some(PluginType::Asdf));
    match get_plugin_info_step(&state, "alpha", false) {
        PluginInfoPoll::Pending => {}
        other => panic!("unexpected {:?}", other),
    }
    match get_plugin_info_step(&state, "nothing", true) {
        PluginInfoPoll::Unregistered => {}
        other => panic!("unexpected {:?}", other),
    }
    match get_plugin_info_step(&state, "zig", true) {
        PluginInfoPoll::Ready(i) => assert_eq!(i.path, "/z"),
        other => panic!("unexpected {:?}", other),
    }
    match get_plugin_info_step(&state, "alpha", true) {
        PluginInfoPoll::TimedOut(i) => {
            assert_eq!(i.name, "alpha");
            assert_eq!(i.plugin_type, PluginType::Asdf);
            assert_eq!(i.path, "/data/plugins/alpha");
        }
        other => panic!("unexpected {:?}", other),
    }
}

#[test]
fn init_plugins_keeps_an_initialized_registry() {
    let mut state = InstallState::new(dirs());
    init_plugins(&mut state, undetected(&["a"]));
    init_plugins(&mut state, undetected(&["b"]));
    match get_plugin_info_step(&state, "b", false) {
        PluginInfoPoll::Unregistered => {}
        other => panic!("unexpected {:?}", other),
    }
    reset(&mut state);
    init_plugins(&mut state, undetected(&["b"]));
    match get_plugin_info_step(&state, "b", false) {
        PluginInfoPoll::Pending => {}
        other => panic!("unexpected {:?}", other),
    }
}

#[test]
fn plugin_path_falls_back_on_kebab_case_name() {
    let mut state = InstallState::new(dirs());
    init_plugins(&mut state, undetected(&["node"]));
    assert!(resolve_plugin(&mut state, "node", info("node", PluginType::Vfox, "/custom/node")).is_ok());
    // The normalized name finds the resolved plugin.
    assert_eq!(
        get_plugin_path_and_name(&state, "vfox:node"),
        ("node".to_string(), "/custom/node".to_string())
    );
    // Otherwise the kebab-case name under the plugins directory.
    assert_eq!(
        get_plugin_path_and_name(&state, "MyTool"),
        ("MyTool".to_string(), "/data/plugins/my-tool".to_string())
    );
    // Unresolved: the name is the normalized one, the path that of `short`.
    assert_eq!(
        get_plugin_path_and_name(&state, "vfox:python"),
        ("python".to_string(), "/data/plugins/vfox-python".to_string())
    );
    assert_eq!(get_plugin_path(&state, "my_tool"), "/data/plugins/my-tool");
}

#[test]
fn get_looks_up_resolved_plugins_first() {
    let mut state = InstallState::new(dirs());
    init_plugins(&mut state, undetected(&["my-plugin", "node"]));
    assert!(resolve_plugin(&mut state, "my-plugin", info("my-plugin", PluginType::VfoxBackend, "/local/my-plugin")).is_ok());
    assert!(resolve_plugin(&mut state, "node", info("node", PluginType::Vfox, "/data/plugins/node")).is_ok());

    // plugin:tool with a resolved plugin part
    let p = get(&state, "my-plugin:some-tool").unwrap();
    assert_eq!(p.name(), "my-plugin");
    assert_eq!(p.get_plugin_type(), PluginType::VfoxBackend);
    assert_eq!(p.path(), "/local/my-plugin");

    // a resolved plugin by its plain name
    let p = get(&state, "node").unwrap();
    assert_eq!(p.get_plugin_type(), PluginType::Vfox);

    // unresolved: the type comes from the part after the colon
    let p = get(&state, "MyTool:asdf").unwrap();
    assert_eq!(p.name(), "MyTool");
    assert_eq!(p.get_plugin_type(), PluginType::Asdf);
    assert_eq!(p.path(), "/data/plugins/my-tool");
    match get(&state, "asdf:python") {
        Err(PluginError::UnknownPluginType(full)) => assert_eq!(full, "python"),
        other => panic!("unexpected {:?}", other),
    }

    match get(&state, "ruby") {
        Err(PluginError::UnknownPluginType(full)) => assert_eq!(full, "ruby"),
        other => panic!("unexpected {:?}", other),
    }
    match get(&state, "cargo:ripgrep") {
        Err(PluginError::UnknownPluginType(full)) => assert_eq!(full, "ripgrep"),
        other => panic!("unexpected {:?}", other),
    }
}

#[test]
fn plugin_info_is_local_by_components() {
    let i = info("x", PluginType::Asdf, "/data/plugins/x");
    assert!(!i.is_local("/data/plugins"));
    assert!(!i.is_local("/data/plugins/"));
    assert!(i.is_local("/data/plug"));
    assert!(info("x", PluginType::Asdf, "/home/me/x").is_local("/data/plugins"));
}

#[test]
fn init_tools_merges_scanned_tools_and_plugins() {
    let mut state = InstallState::new(dirs());
    init_plugins(&mut state, undetected(&["node", "tiny", "vb", "unresolved"]));
    assert!(resolve_plugin(&mut state, "node", info("node", PluginType::Asdf, "/p/node")).is_ok());
    assert!(resolve_plugin(&mut state, "tiny", info("tiny", PluginType::Vfox, "/p/tiny")).is_ok());
    assert!(resolve_plugin(&mut state, "vb", info("vb", PluginType::VfoxBackend, "/p/vb")).is_ok());
    let scanned = vec![
        tool_scan("node", Some(&["node", "core:node"]), &["20.0.0"]),
        tool_scan("empty", Some(&["empty", "aqua:x/empty"]), &[]),
        tool_scan("ripgrep", Some(&["ripgrep", "cargo:ripgrep"]), &["14.0.0", "14.1.0"]),
    ];
    init_tools(&mut state, scanned);
    let tools = list_tools(&state);
    assert_eq!(tools.len(), 4);
    assert_eq!(tools.key_at(0), "node");
    assert_eq!(tools.key_at(1), "ripgrep");
    assert_eq!(get_tool_full(&state, "node"), Some("asdf:node".to_string()));
    assert_eq!(get_tool_full(&state, "tiny"), Some("vfox:tiny".to_string()));
    assert_eq!(get_tool_full(&state, "vb"), Some("vb".to_string()));
    assert_eq!(get_tool_full(&state, "empty"), None);
    assert_eq!(list_versions(&state, "node"), strings(&["20.0.0"]));
    assert_eq!(list_versions(&state, "tiny"), Vec::<String>::new());
    assert_eq!(list_versions(&state, "ripgrep"), strings(&["14.0.0", "14.1.0"]));
    assert_eq!(list_versions(&state, "missing"), Vec::<String>::new());

    // A second initialization keeps the list.
    init_tools(&mut state, Vec::new());
    assert_eq!(list_tools(&state).len(), 4);
}

#[test]
fn backend_type_guesses_from_full_name() {
    let mut state = InstallState::new(dirs());
    init_plugins(&mut state, undetected(&["myplug", "asdfplug"]));
    assert!(resolve_plugin(&mut state, "myplug", info("myplug", PluginType::VfoxBackend, "/p")).is_ok());
    assert!(resolve_plugin(&mut state, "asdfplug", info("asdfplug", PluginType::Asdf, "/q")).is_ok());
    let scanned = vec![
        tool_scan("ripgrep", Some(&["ripgrep", "cargo:ripgrep"]), &["1"]),
        tool_scan("myplug:tool", Some(&["myplug:tool", "myplug:tool"]), &["1"]),
        tool_scan("asdfplug:tool", Some(&["asdfplug:tool", "asdfplug:tool"]), &["1"]),
    ];
    init_tools(&mut state, scanned);
    assert!(matches!(backend_type(&state, "ripgrep"), Ok(Some(BackendType::Cargo))));
    match backend_type(&state, "myplug:tool") {
        Ok(Some(BackendType::VfoxBackend(name))) => assert_eq!(name, "myplug"),
        other => panic!("unexpected {:?}", other),
    }
    assert!(matches!(backend_type(&state, "asdfplug:tool"), Ok(Some(BackendType::Unknown))));
    assert!(matches!(backend_type(&state, "missing"), Ok(None)));
    // The plugin tools carry their full names.
    assert!(matches!(backend_type(&state, "myplug"), Ok(Some(BackendType::Unknown))));
    assert!(matches!(backend_type(&state, "asdfplug"), Ok(Some(BackendType::Asdf))));
}

#[test]
fn backend_type_guess_table() {
    assert!(matches!(BackendType::guess("aqua:cli/cli"), BackendType::Aqua));
    assert!(matches!(BackendType::guess("core:node"), BackendType::Core));
    assert!(matches!(BackendType::guess("npm:prettier"), BackendType::Npm));
    assert!(matches!(BackendType::guess("ubi"), BackendType::Ubi));
    assert!(matches!(BackendType::guess("whatever:x"), BackendType::Unknown));
}

#[test]
fn banned_plugin_is_the_gradle_one() {
    let url = "https://github.com/rfrancis/asdf-gradle.git";
    assert!(is_banned_plugin("/data/plugins/gradle", Some(url)));
    assert!(is_banned_plugin("/data/plugins/gradle/", Some(url)));
    assert!(!is_banned_plugin("/data/plugins/gradle", Some("https://other/gradle.git")));
    assert!(!is_banned_plugin("/data/plugins/gradle", None));
    assert!(!is_banned_plugin("/data/plugins/my-gradle", Some(url)));
}

#[test]
fn backend_meta_paths_and_contents() {
    let d = dirs();
    assert_eq!(backend_meta_path(&d, "MyTool"), "/data/installs/my-tool/.mise.backend");
    assert_eq!(
        legacy_backend_meta_path(&d, "node"),
        "/data/installs/node/.mise.backend.json"
    );
    assert_eq!(
        incomplete_file_path(&d, "cargo:ripgrep", "14.0.0"),
        "/cache/cargo-ripgrep/14.0.0/incomplete"
    );
    assert_eq!(
        write_backend_meta("node", "core:node", "core:node[x=1]", "/i/node/20"),
        ("/i/node/20/.mise.backend".to_string(), "node\ncore:node".to_string())
    );
    assert_eq!(
        write_backend_meta("rg", "cargo:ripgrep", "cargo:ripgrep[locked=true]", "/i/rg/1"),
        ("/i/rg/1/.mise.backend".to_string(), "rg\ncargo:ripgrep[locked=true]".to_string())
    );
    // An empty short name leaves only the full name after trimming.
    assert_eq!(write_backend_meta("", "aqua:x", "aqua:x", "/i").1, "aqua:x");
}

#[test]
fn backend_meta_json_migration() {
    let j = r#"{"id": "cargo:ripgrep", "short": "rg"}"#;
    assert_eq!(migrate_backend_meta_json("ripgrep", j), Some("rg\ncargo:ripgrep".to_string()));
    let j = r#"{"id": "core:node"}"#;
    assert_eq!(migrate_backend_meta_json("node", j), Some("node\ncore:node".to_string()));
    let j = r#"{"short": "x"}"#;
    assert_eq!(migrate_backend_meta_json("x", j), None);
    // A non-string id is no id; a non-string short falls back on the directory.
    assert_eq!(migrate_backend_meta_json("x", r#"{"id": 3}"#), None);
    assert_eq!(
        migrate_backend_meta_json("dir", r#"{"id": "a:b", "short": 7}"#),
        Some("dir\na:b".to_string())
    );
    assert_eq!(migrate_backend_meta_json("x", "not json"), None);
    let j = r#"{"id": "  ", "short": " "}"#;
    assert_eq!(migrate_backend_meta_json("x", j), Some(String::new()));
}

#[test]
fn backend_meta_lines() {
    assert_eq!(parse_backend_meta("rg\ncargo:ripgrep"), strings(&["rg", "cargo:ripgrep"]));
    assert_eq!(parse_backend_meta("rg\r\n\r\ncargo:ripgrep\n"), strings(&["rg", "cargo:ripgrep"]));
    assert_eq!(parse_backend_meta(""), Vec::<String>::new());
    assert_eq!(parse_backend_meta("a\rb\r"), strings(&["a\rb\r"]));
}

#[test]
fn tool_from_install_dir_reads_metadata() {
    let vd = vec![
        VersionDir { name: "v2".to_string(), is_runtime_symlink: false, is_incomplete: false },
        VersionDir { name: "1".to_string(), is_runtime_symlink: false, is_incomplete: false },
    ];
    let t = InstallStateTool::from_install_dir("dir", Some(strings(&["rg", "cargo:ripgrep", "x"])), &vd);
    assert_eq!(t.short, "rg");
    assert_eq!(t.full, Some("cargo:ripgrep".to_string()));
    assert_eq!(t.versions, strings(&["1", "v2"]));
    let t = InstallStateTool::from_install_dir("dir", None, &vd);
    assert_eq!(t.short, "dir");
    assert_eq!(t.full, None);
    let t = InstallStateTool::from_install_dir("dir", Some(strings(&["only"])), &Vec::new());
    assert_eq!(t.short, "only");
    assert_eq!(t.full, None);
    assert!(t.versions.is_empty());
}

#[test]
fn init_tools_lists_installed_versions_in_order() {
    let mut state = InstallState::new(dirs());
    init_plugins(&mut state, undetected(&[]));
    let mut scan = tool_scan("x", None, &["v2.0.51", "2.0.35", "2.0.52", ".tmp"]);
    scan.version_dirs.push(VersionDir {
        name: "latest".to_string(),
        is_runtime_symlink: true,
        is_incomplete: false,
    });
    scan.version_dirs.push(VersionDir {
        name: "3.0.0".to_string(),
        is_runtime_symlink: false,
        is_incomplete: true,
    });
    init_tools(&mut state, vec![scan, tool_scan("none", None, &[".a"])]);
    assert_eq!(list_versions(&state, "x"), strings(&["2.0.35", "v2.0.51", "2.0.52"]));
    assert_eq!(get_tool_full(&state, "x"), None);
    assert_eq!(list_tools(&state).len(), 1);
}

#[test]
fn init_plugins_leaves_out_the_banned_plugin_and_resolves_detected_ones() {
    let mut state = InstallState::new(dirs());
    let asdf = PluginDirProbe { exists: true, is_dir: true, has_list_all: true, ..no_probe() };
    let vfox = PluginDirProbe { exists: true, is_dir: true, has_metadata_lua: true, ..no_probe() };
    let scans = vec![
        PluginDirScan {
            name: "gradle".to_string(),
            remote_url: Some("https://github.com/rfrancis/asdf-gradle.git".to_string()),
            probe: asdf,
        },
        PluginDirScan { name: "node".to_string(), remote_url: None, probe: vfox },
        PluginDirScan { name: "broken".to_string(), remote_url: None, probe: no_probe() },
        PluginDirScan {
            name: "python".to_string(),
            remote_url: Some("https://github.com/rfrancis/asdf-gradle.git".to_string()),
            probe: asdf,
        },
    ];
    let banned = init_plugins(&mut state, scans);
    assert_eq!(banned, strings(&["gradle"]));
    let node = get_plugin_info_sync(&state, "node").unwrap();
    assert_eq!(node.plugin_type, PluginType::Vfox);
    assert_eq!(node.path, "/data/plugins/node");
    assert_eq!(get_plugin_type(&state, "python"), Some(PluginType::Asdf));
    assert!(get_plugin_info_sync(&state, "broken").is_none());
    match get_plugin_info_step(&state, "broken", false) {
        PluginInfoPoll::Pending => {}
        other => panic!("unexpected {:?}", other),
    }
    match get_plugin_info_step(&state, "gradle", false) {
        PluginInfoPoll::Unregistered => {}
        other => panic!("unexpected {:?}", other),
    }
    // An initialized registry is kept and nothing is banned again.
    assert!(init_plugins(&mut state, undetected(&["other"])).is_empty());
}

#[test]
fn backend_meta_reads_back_as_written() {
    let (_, doc) = write_backend_meta("rg", "cargo:ripgrep", "cargo:ripgrep[x=1]", "/i");
    assert_eq!(parse_backend_meta(&doc), strings(&["rg", "cargo:ripgrep[x=1]"]));
}
