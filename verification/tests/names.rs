use mise_plugins::plugins::names::normalize_plugin_name;

#[test]
fn test_normalize_plugin_name() {
    // Strip vfox: prefix
    assert_eq!(normalize_plugin_name("vfox:node"), "node");
    assert_eq!(normalize_plugin_name("vfox:golang"), "golang");

    // Strip asdf: prefix
    assert_eq!(normalize_plugin_name("asdf:python"), "python");
    assert_eq!(normalize_plugin_name("asdf:ruby"), "ruby");

    // Strip vfox-backend: prefix
    assert_eq!(normalize_plugin_name("vfox-backend:npm"), "npm");

    // No prefix - return as-is
    assert_eq!(normalize_plugin_name("erlang"), "erlang");
    assert_eq!(normalize_plugin_name("elixir"), "elixir");

    // Nested colons - only strip first prefix
    assert_eq!(normalize_plugin_name("vfox:plugin:tool"), "plugin:tool");
}

#[test]
fn normalize_documented_examples_and_edges() {
    assert_eq!(normalize_plugin_name("ruby"), "ruby");
    assert_eq!(normalize_plugin_name("vfox:"), "");
    assert_eq!(normalize_plugin_name("vfox:asdf:x"), "asdf:x");
    assert_eq!(normalize_plugin_name("VFOX:node"), "VFOX:node");
    assert_eq!(normalize_plugin_name("cargo:ripgrep"), "cargo:ripgrep");
}
