use mpf_dev::infer::ancestor_candidates;
use mpf_dev::infer::choose_project_root;
use mpf_dev::link::link_component_update;
use mpf_dev::link::link_host_update;
use mpf_dev::link::link_manual_update;
use mpf_dev::link::link_plugin_update;
use mpf_dev::link::link_sdk_update;
use mpf_dev::link::plugin_component_name;
use mpf_dev::link::register_roots_update;
use mpf_dev::link::unlink_update;
use mpf_dev::link::SdkLinkError;
use mpf_dev::link::UnlinkOutcome;
use mpf_dev::paths::join_path;
use mpf_dev::paths::loose_eq;
use mpf_dev::paths::normalize_path;
use mpf_dev::paths::parent_path;
use mpf_dev::paths::resolve_against;
use mpf_dev::paths::str_lt;
use mpf_dev::paths::to_forward_slashes;
use mpf_dev::persist::RegistryParseError;
use mpf_dev::propagate::collect_roots;
use mpf_dev::propagate::propagation_plan;
use mpf_dev::propagate::RootAction;
use mpf_dev::registry::component_group;
use mpf_dev::registry::is_known_component;
use mpf_dev::registry::ComponentConfig;
use mpf_dev::registry::ComponentGroup;
use mpf_dev::registry::ComponentMode;
use mpf_dev::registry::DevConfig;
use mpf_dev::resolve::component_cmake_dir_var;
use mpf_dev::resolve::host_environment;
use mpf_dev::resolve::resolve_cache_vars;
use mpf_dev::resolve::resolve_env_paths;
use mpf_dev::resolve::resolve_prefix_paths;
use mpf_dev::resolve::resolve_qml_import_paths;
use mpf_dev::resolve::sibling_bin_candidates;
use mpf_dev::resolve::Platform;
use mpf_dev::sdk::current_link;
use mpf_dev::sdk::dev_config_path;
use mpf_dev::sdk::is_version_dir_name;
use mpf_dev::sdk::normalize_version;
use mpf_dev::sdk::version_dir;
use mpf_dev::toolchain::choose_toolkit_root;
use mpf_dev::toolchain::compiler_pair_paths;
use mpf_dev::toolchain::pick_compiler_dir;
use mpf_dev::toolchain::vendor_tools_dir;
use mpf_dev::toolchain::well_known_toolkit_paths;

fn source_with_lib(lib: &str) -> ComponentConfig {
    ComponentConfig {
        mode: ComponentMode::Source,
        lib: Some(lib.to_string()),
        qml: None,
        plugin: None,
        headers: None,
        bin: None,
        root: None,
    }
}

// Path normalizer

#[test]
fn normalize_converts_separators() {
    assert_eq!(
        normalize_path("C:\\Qt\\6.8.3\\mingw_64"),
        "C:/Qt/6.8.3/mingw_64"
    );
}

#[test]
fn normalize_collapses_dot_segments() {
    assert_eq!(normalize_path("/a/./b/../c"), "/a/c");
    assert_eq!(normalize_path("a/./b"), "a/b");
    assert_eq!(normalize_path("a//b"), "a/b");
}

#[test]
fn normalize_strips_extended_prefix() {
    assert_eq!(normalize_path("\\\\?\\C:\\work\\x"), "C:/work/x");
}

#[test]
fn normalize_handles_edge_paths() {
    assert_eq!(normalize_path("/"), "/");
    assert_eq!(normalize_path("."), ".");
    assert_eq!(normalize_path(""), ".");
    assert_eq!(normalize_path("/.."), "/");
    assert_eq!(normalize_path("foo/.."), ".");
    assert_eq!(normalize_path("../x"), "../x");
}

#[test]
fn normalize_is_idempotent_on_samples() {
    let samples = [
        "a\\.\\.\\b",
        "/a/b/../../c/./d",
        "C:\\Qt\\..\\Tools",
        "\\\\?\\D:\\x\\..\\y",
        "..",
        "a/b/c/",
        "//server//share",
    ];
    for p in samples {
        let once = normalize_path(p);
        let twice = normalize_path(&once);
        assert_eq!(once, twice);
    }
}

#[test]
fn parent_and_join() {
    assert_eq!(parent_path("/a/b"), Some("/a".to_string()));
    assert_eq!(parent_path("/a"), Some("/".to_string()));
    assert_eq!(parent_path("/"), None);
    assert_eq!(parent_path("plain"), None);
    assert_eq!(join_path("/x", "y"), "/x/y");
    assert_eq!(to_forward_slashes("a\\b/c"), "a/b/c");
}

#[test]
fn resolve_against_cwd() {
    assert_eq!(resolve_against("/home/me", "build/lib"), "/home/me/build/lib");
    assert_eq!(resolve_against("/home/me", "/abs/p"), "/abs/p");
    assert_eq!(resolve_against("/home/me", "C:\\x"), "C:/x");
}

// Registry model

#[test]
fn insert_replaces_and_appends() {
    let mut cfg = DevConfig::empty();
    cfg.insert("a".to_string(), source_with_lib("/p/lib"));
    cfg.insert("b".to_string(), source_with_lib("/q/lib"));
    assert_eq!(cfg.components.len(), 2);
    cfg.insert("a".to_string(), source_with_lib("/r/lib"));
    assert_eq!(cfg.components.len(), 2);
    assert_eq!(cfg.components[0].name, "a");
    assert_eq!(cfg.get("a").unwrap().lib.as_deref(), Some("/r/lib"));
    assert!(cfg.get("missing").is_none());
    assert!(cfg.remove("b"));
    assert!(!cfg.remove("b"));
    assert_eq!(cfg.components.len(), 1);
}

#[test]
fn known_components_and_groups() {
    assert!(is_known_component("sdk"));
    assert!(is_known_component("http-client"));
    assert!(!is_known_component("something-else"));
    assert_eq!(component_group("host"), ComponentGroup::Host);
    assert_eq!(component_group("plugin-orders"), ComponentGroup::Plugin);
    assert_eq!(component_group("myplugin2"), ComponentGroup::Plugin);
    assert_eq!(component_group("ui-components"), ComponentGroup::Library);
}

// Path resolution engine

#[test]
fn prefix_paths_empty_registry() {
    let cfg = DevConfig::empty();
    let r = resolve_prefix_paths(&cfg, "C:\\Qt\\6.8.3\\mingw_64", "/home/me/.mpf-sdk/current");
    assert_eq!(
        r,
        vec![
            "C:/Qt/6.8.3/mingw_64".to_string(),
            "/home/me/.mpf-sdk/current".to_string()
        ]
    );
}

#[test]
fn prefix_paths_deduplicate_equal_parents() {
    let mut cfg = DevConfig::empty();
    cfg.insert("alpha".to_string(), source_with_lib("/work/out/lib"));
    cfg.insert("beta".to_string(), source_with_lib("/work/out/lib"));
    let r = resolve_prefix_paths(&cfg, "/qt", "/sdk");
    let hits = r.iter().filter(|p| p.as_str() == "/work/out").count();
    assert_eq!(hits, 1);
    assert_eq!(r, vec!["/qt".to_string(), "/sdk".to_string(), "/work/out".to_string()]);
}

#[test]
fn prefix_paths_scenario_named_component() {
    // A component with a dedicated named variable stays out of the generic
    // list; its install root is emitted as that variable instead.
    let mut cfg = DevConfig::empty();
    cfg.insert("http-client".to_string(), source_with_lib("/work/http/build/lib"));
    let r = resolve_prefix_paths(&cfg, "/qt", "/sdk/current");
    assert_eq!(r, vec!["/qt".to_string(), "/sdk/current".to_string()]);
    let vars = resolve_cache_vars(&cfg);
    assert_eq!(vars.len(), 1);
    assert_eq!(vars[0].key, "MPFHttpClient_DIR");
    assert_eq!(vars[0].value, "/work/http/build");
}

#[test]
fn prefix_paths_scenario_generic_component() {
    // A component with no dedicated variable lands in the generic list,
    // its lib parent first after the head entries.
    let mut cfg = DevConfig::empty();
    cfg.insert("widgets".to_string(), source_with_lib("/work/http/build/lib"));
    let r = resolve_prefix_paths(&cfg, "/qt", "/sdk/current");
    assert_eq!(
        r,
        vec![
            "/qt".to_string(),
            "/sdk/current".to_string(),
            "/work/http/build".to_string()
        ]
    );
    assert!(resolve_cache_vars(&cfg).is_empty());
}

#[test]
fn prefix_paths_sdk_source_leads() {
    let mut cfg = DevConfig::empty();
    cfg.insert("sdk".to_string(), source_with_lib("/local/sdk/lib"));
    let r = resolve_prefix_paths(&cfg, "/qt", "/shared");
    assert_eq!(
        r,
        vec!["/local/sdk".to_string(), "/qt".to_string(), "/shared".to_string()]
    );
}

#[test]
fn named_var_table() {
    assert_eq!(
        component_cmake_dir_var("ui-components").as_deref(),
        Some("MPFUIComponents_DIR")
    );
    assert_eq!(
        component_cmake_dir_var("http-client").as_deref(),
        Some("MPFHttpClient_DIR")
    );
    assert_eq!(component_cmake_dir_var("host"), None);
}

#[test]
fn qml_import_paths_order() {
    let mut cfg = DevConfig::empty();
    let mut c = source_with_lib("/w/lib");
    c.qml = Some("/w/qml".to_string());
    cfg.insert("widgets".to_string(), c);
    let r = resolve_qml_import_paths(&cfg, "/qt", "/sdk");
    assert_eq!(
        r,
        vec!["/w/qml".to_string(), "/sdk/qml".to_string(), "/qt/qml".to_string()]
    );
}

// Process environment

#[test]
fn lib_path_precedence_over_sdk_fallback() {
    let mut cfg = DevConfig::empty();
    cfg.insert("widgets".to_string(), source_with_lib("/w/out/lib"));
    let existing = vec!["/w/out/bin".to_string()];
    let env = resolve_env_paths(&cfg, "/sdk/current", &existing, Platform::Unix);
    assert_eq!(
        env.lib_dirs,
        vec![
            "/w/out/lib".to_string(),
            "/w/out/bin".to_string(),
            "/sdk/current/lib".to_string(),
            "/sdk/current/bin".to_string()
        ]
    );
    let lib_pos = env.lib_dirs.iter().position(|p| p == "/w/out/lib").unwrap();
    let sdk_pos = env
        .lib_dirs
        .iter()
        .position(|p| p == "/sdk/current/lib")
        .unwrap();
    assert!(lib_pos < sdk_pos);
}

#[test]
fn lib_dirs_deduplicated() {
    // Two components sharing a lib directory list it once; a lib equal to
    // an SDK fallback entry suppresses the fallback.
    let mut cfg = DevConfig::empty();
    cfg.insert("alpha".to_string(), source_with_lib("/x/lib"));
    cfg.insert("beta".to_string(), source_with_lib("/x/lib"));
    let existing: Vec<String> = Vec::new();
    let env = resolve_env_paths(&cfg, "/sdk", &existing, Platform::Unix);
    assert_eq!(
        env.lib_dirs,
        vec![
            "/x/lib".to_string(),
            "/sdk/lib".to_string(),
            "/sdk/bin".to_string()
        ]
    );

    let mut cfg2 = DevConfig::empty();
    cfg2.insert("gamma".to_string(), source_with_lib("/sdk/lib"));
    let env2 = resolve_env_paths(&cfg2, "/sdk", &existing, Platform::Unix);
    assert_eq!(
        env2.lib_dirs,
        vec!["/sdk/lib".to_string(), "/sdk/bin".to_string()]
    );
}

#[test]
fn sibling_bin_skipped_when_absent() {
    let mut cfg = DevConfig::empty();
    cfg.insert("widgets".to_string(), source_with_lib("/w/out/lib"));
    let existing: Vec<String> = Vec::new();
    let env = resolve_env_paths(&cfg, "/sdk", &existing, Platform::Unix);
    assert_eq!(
        env.lib_dirs,
        vec![
            "/w/out/lib".to_string(),
            "/sdk/lib".to_string(),
            "/sdk/bin".to_string()
        ]
    );
    let cands = sibling_bin_candidates(&cfg);
    assert_eq!(cands, vec!["/w/out/bin".to_string()]);
}

#[test]
fn host_path_and_overrides() {
    let mut cfg = DevConfig::empty();
    let host = ComponentConfig {
        mode: ComponentMode::Source,
        lib: None,
        qml: Some("/h/qml".to_string()),
        plugin: None,
        headers: None,
        bin: Some("/h/bin".to_string()),
        root: None,
    };
    cfg.insert("host".to_string(), host);
    let existing: Vec<String> = Vec::new();
    let env = resolve_env_paths(&cfg, "/sdk", &existing, Platform::Unix);
    assert_eq!(env.host_path, "/h/bin/mpf-host");
    assert_eq!(env.host_qml.as_deref(), Some("/h/qml"));

    let env_win = resolve_env_paths(&cfg, "/sdk", &existing, Platform::Windows);
    assert_eq!(env_win.host_path, "/h/bin/mpf-host.exe");

    let cfg_empty = DevConfig::empty();
    let env2 = resolve_env_paths(&cfg_empty, "/sdk", &existing, Platform::Unix);
    assert_eq!(env2.host_path, "/sdk/bin/mpf-host");
    assert_eq!(env2.host_qml, None);
}

#[test]
fn host_environment_variables() {
    let mut cfg = DevConfig::empty();
    let mut plug = source_with_lib("/p/plugins");
    plug.plugin = Some("/p".to_string());
    cfg.insert("plugin-orders".to_string(), plug);
    let existing: Vec<String> = Vec::new();
    let env = resolve_env_paths(&cfg, "/sdk", &existing, Platform::Unix);
    let vars = host_environment(&env, Platform::Unix);
    let keys: Vec<&str> = vars.iter().map(|v| v.key.as_str()).collect();
    assert_eq!(
        keys,
        vec![
            "MPF_SDK_ROOT",
            "LD_LIBRARY_PATH",
            "QML_IMPORT_PATH",
            "QT_PLUGIN_PATH",
            "MPF_PLUGIN_PATH"
        ]
    );
    assert_eq!(vars[0].value, "/sdk");
    assert_eq!(vars[1].value, "/p/plugins:/sdk/lib:/sdk/bin");
    assert_eq!(vars[3].value, "/p:/sdk/plugins");
    assert_eq!(vars[4].value, "/p/plugins");

    let cfg_empty = DevConfig::empty();
    let env2 = resolve_env_paths(&cfg_empty, "/sdk", &existing, Platform::Unix);
    let vars2 = host_environment(&env2, Platform::Unix);
    let keys2: Vec<&str> = vars2.iter().map(|v| v.key.as_str()).collect();
    assert_eq!(
        keys2,
        vec!["MPF_SDK_ROOT", "LD_LIBRARY_PATH", "QML_IMPORT_PATH", "QT_PLUGIN_PATH"]
    );
}

// Link operations

#[test]
fn link_plugin_derives_paths() {
    let mut cfg = DevConfig::empty();
    link_plugin_update(&mut cfg, "orders", "/w/orders/build", Some("/w/orders".to_string()));
    let c = cfg.get("plugin-orders").unwrap();
    assert_eq!(c.lib.as_deref(), Some("/w/orders/build/plugins"));
    assert_eq!(c.qml.as_deref(), Some("/w/orders/build/qml"));
    assert_eq!(c.plugin.as_deref(), Some("/w/orders/build"));
    assert_eq!(c.root.as_deref(), Some("/w/orders"));
    assert_eq!(plugin_component_name("plugin-x"), "plugin-x");
    assert_eq!(plugin_component_name("x"), "plugin-x");
}

#[test]
fn link_host_probe_cases() {
    let mut cfg = DevConfig::empty();
    link_host_update(&mut cfg, "/h/build", true, false, true, None);
    let c = cfg.get("host").unwrap();
    assert_eq!(c.bin.as_deref(), Some("/h/build/bin"));
    assert_eq!(c.qml.as_deref(), Some("/h/build/qml"));

    let mut cfg2 = DevConfig::empty();
    link_host_update(&mut cfg2, "/h/build", false, true, false, None);
    let c2 = cfg2.get("host").unwrap();
    assert_eq!(c2.bin.as_deref(), Some("/h/build"));
    assert_eq!(c2.qml.as_deref(), Some("/h/build"));
}

#[test]
fn link_sdk_validation() {
    let mut cfg = DevConfig::empty();
    assert_eq!(
        link_sdk_update(&mut cfg, "/i", false, true),
        Err(SdkLinkError::MissingCmakeConfig)
    );
    assert_eq!(
        link_sdk_update(&mut cfg, "/i", true, false),
        Err(SdkLinkError::MissingHeaders)
    );
    assert!(cfg.get("sdk").is_none());
    assert_eq!(link_sdk_update(&mut cfg, "/i", true, true), Ok(()));
    let c = cfg.get("sdk").unwrap();
    assert_eq!(c.lib.as_deref(), Some("/i/lib"));
    assert_eq!(c.headers.as_deref(), Some("/i/include"));
    assert_eq!(c.root, None);
}

#[test]
fn link_component_probe_cases() {
    let mut cfg = DevConfig::empty();
    link_component_update(&mut cfg, "widgets", "/w/build", true, false, true, true, None);
    let c = cfg.get("widgets").unwrap();
    assert_eq!(c.lib.as_deref(), Some("/w/build/lib"));
    assert_eq!(c.qml.as_deref(), Some("/w/build/qml"));
    assert_eq!(c.headers.as_deref(), Some("/w/build/include"));

    let mut cfg2 = DevConfig::empty();
    link_component_update(&mut cfg2, "widgets", "/w/build", false, true, false, false, None);
    let c2 = cfg2.get("widgets").unwrap();
    assert_eq!(c2.lib.as_deref(), Some("/w/build/bin"));
    assert_eq!(c2.qml, None);

    let mut cfg3 = DevConfig::empty();
    link_component_update(&mut cfg3, "widgets", "/w/build", false, false, false, false, None);
    assert_eq!(cfg3.get("widgets").unwrap().lib.as_deref(), Some("/w/build"));
}

#[test]
fn link_manual_merges_explicit_and_derived() {
    let mut cfg = DevConfig::empty();
    let r = link_manual_update(
        &mut cfg,
        "plugin-orders",
        "/cwd",
        None,
        None,
        Some("orders/build".to_string()),
        Some("/inc".to_string()),
        None,
        None,
        false,
        false,
        false,
    );
    assert_eq!(r.lib.as_deref(), Some("/cwd/orders/build/plugins"));
    assert_eq!(r.qml.as_deref(), Some("/cwd/orders/build/qml"));
    assert_eq!(r.plugin.as_deref(), Some("/cwd/orders/build"));
    assert_eq!(r.headers.as_deref(), Some("/inc"));
    assert_eq!(r.root, None);

    let mut cfg2 = DevConfig::empty();
    let r2 = link_manual_update(
        &mut cfg2,
        "host",
        "/cwd",
        None,
        Some("/explicit/qml".to_string()),
        None,
        None,
        None,
        Some("hostbuild".to_string()),
        true,
        false,
        true,
    );
    assert_eq!(r2.bin.as_deref(), Some("/cwd/hostbuild/bin"));
    assert_eq!(r2.qml.as_deref(), Some("/explicit/qml"));
}

#[test]
fn unlink_variants() {
    let mut cfg = DevConfig::empty();
    cfg.insert("a".to_string(), source_with_lib("/a/lib"));
    cfg.insert("plugin-orders".to_string(), source_with_lib("/p/lib"));
    assert_eq!(unlink_update(&mut cfg, "orders"), UnlinkOutcome::RemovedPlugin);
    assert_eq!(unlink_update(&mut cfg, "a"), UnlinkOutcome::Removed);
    assert_eq!(unlink_update(&mut cfg, "nope"), UnlinkOutcome::NotLinked);
    cfg.insert("x".to_string(), source_with_lib("/x/lib"));
    cfg.insert("y".to_string(), source_with_lib("/y/lib"));
    assert_eq!(unlink_update(&mut cfg, "all"), UnlinkOutcome::ClearedAll(2));
    assert!(cfg.components.is_empty());
}

#[test]
fn register_roots_sets_matching_components() {
    let mut cfg = DevConfig::empty();
    cfg.insert("a".to_string(), source_with_lib("/proj/build/lib"));
    cfg.insert("b".to_string(), source_with_lib("/elsewhere/lib"));
    let mut with_root = source_with_lib("/proj/build/other");
    with_root.root = Some("/kept".to_string());
    cfg.insert("c".to_string(), with_root);
    register_roots_update(&mut cfg, "/proj");
    assert_eq!(cfg.get("a").unwrap().root.as_deref(), Some("/proj"));
    assert_eq!(cfg.get("b").unwrap().root, None);
    assert_eq!(cfg.get("c").unwrap().root.as_deref(), Some("/kept"));
}

// Propagation

#[test]
fn collect_roots_deduplicates_loosely() {
    let mut cfg = DevConfig::empty();
    let mut a = source_with_lib("/a/lib");
    a.root = Some("C:/Work/App".to_string());
    cfg.insert("a".to_string(), a);
    let mut b = source_with_lib("/b/lib");
    b.root = Some("c:\\work\\app".to_string());
    cfg.insert("b".to_string(), b);
    let mut c = source_with_lib("/c/lib");
    c.root = Some("/other".to_string());
    cfg.insert("c".to_string(), c);
    let roots = collect_roots(&cfg);
    assert_eq!(roots, vec!["C:/Work/App".to_string(), "/other".to_string()]);
    assert!(loose_eq("C:/Work/App", "c:\\work\\app"));
    assert!(!loose_eq("C:/Work/App", "/other"));
}

#[test]
fn propagation_isolates_roots() {
    // One root's directory is gone; the other is still processed.
    let roots = vec!["/gone".to_string(), "/there".to_string()];
    let dir_exists = vec![false, true];
    let has_marker = vec![false, true];
    let plan = propagation_plan(&roots, &dir_exists, &has_marker);
    assert_eq!(plan, vec![RootAction::SkipMissing, RootAction::Generate]);

    let plan2 = propagation_plan(
        &vec!["/a".to_string(), "/b".to_string(), "/c".to_string()],
        &vec![true, true, false],
        &vec![false, true, true],
    );
    assert_eq!(
        plan2,
        vec![
            RootAction::SkipNoProject,
            RootAction::Generate,
            RootAction::SkipMissing
        ]
    );
}

// Persistence round trip

#[test]
fn registry_text_exact_for_empty() {
    // An unset version is omitted from the rendering, not written as null.
    let cfg = DevConfig::empty();
    assert_eq!(cfg.to_json_string(), "{\"components\":{}}");

    let mut with_version = DevConfig::empty();
    with_version.sdk_version = Some("v1".to_string());
    assert_eq!(
        with_version.to_json_string(),
        "{\"sdk_version\":\"v1\",\"components\":{}}"
    );
}

#[test]
fn registry_load_of_empty_text() {
    let loaded = DevConfig::from_json_str("{\"components\":{}}").unwrap();
    assert!(loaded.sdk_version.is_none());
    assert!(loaded.components.is_empty());
    // An explicit null version, as an older file may carry, reads as none.
    let with_null = DevConfig::from_json_str("{\"sdk_version\":null,\"components\":{}}").unwrap();
    assert!(with_null.sdk_version.is_none());
    assert!(with_null.components.is_empty());
}

#[test]
fn registry_round_trip() {
    let mut cfg = DevConfig::empty();
    cfg.sdk_version = Some("v1.2.3".to_string());
    let mut full = ComponentConfig {
        mode: ComponentMode::Source,
        lib: Some("/a/lib".to_string()),
        qml: Some("/a/qml".to_string()),
        plugin: Some("/a".to_string()),
        headers: Some("/a/include".to_string()),
        bin: Some("/a/bin".to_string()),
        root: Some("/proj".to_string()),
    };
    cfg.insert("plugin-orders".to_string(), full.clone());
    full.mode = ComponentMode::Binary;
    full.lib = None;
    full.root = None;
    cfg.insert("host".to_string(), full);
    cfg.insert(
        "weird".to_string(),
        source_with_lib("C:\\with\"quote\\and\\backslash"),
    );

    let text = cfg.to_json_string();
    let loaded = DevConfig::from_json_str(&text).expect("round trip must parse");
    assert_eq!(loaded.sdk_version.as_deref(), Some("v1.2.3"));
    assert_eq!(loaded.components.len(), 3);
    for (a, b) in cfg.components.iter().zip(loaded.components.iter()) {
        assert_eq!(a.name, b.name);
        assert_eq!(a.config.mode == ComponentMode::Source, b.config.mode == ComponentMode::Source);
        assert_eq!(a.config.lib, b.config.lib);
        assert_eq!(a.config.qml, b.config.qml);
        assert_eq!(a.config.plugin, b.config.plugin);
        assert_eq!(a.config.headers, b.config.headers);
        assert_eq!(a.config.bin, b.config.bin);
        assert_eq!(a.config.root, b.config.root);
    }
    // Omitted fields come back absent, not as empty strings.
    assert_eq!(loaded.get("host").unwrap().lib, None);
    assert_eq!(loaded.get("host").unwrap().root, None);
    // And the rendering itself is reproduced exactly.
    assert_eq!(loaded.to_json_string(), text);
}

#[test]
fn registry_load_rejects_malformed() {
    assert_eq!(
        DevConfig::from_json_str("not json at all").err(),
        Some(RegistryParseError::Malformed)
    );
    // An unknown mode word.
    assert_eq!(
        DevConfig::from_json_str(
            "{\"sdk_version\":null,\"components\":{\"a\":{\"mode\":\"weird\"}}}"
        )
        .err(),
        Some(RegistryParseError::Malformed)
    );
    // A component without a mode.
    assert_eq!(
        DevConfig::from_json_str("{\"components\":{\"a\":{\"lib\":\"/x\"}}}").err(),
        Some(RegistryParseError::Malformed)
    );
    // A repeated key inside a component.
    assert_eq!(
        DevConfig::from_json_str(
            "{\"components\":{\"a\":{\"mode\":\"source\",\"lib\":\"/x\",\"lib\":\"/y\"}}}"
        )
        .err(),
        Some(RegistryParseError::Malformed)
    );
    // An unknown key.
    assert_eq!(
        DevConfig::from_json_str("{\"components\":{\"a\":{\"mode\":\"binary\",\"odd\":\"1\"}}}")
            .err(),
        Some(RegistryParseError::Malformed)
    );
    // Two components of the same name.
    assert_eq!(
        DevConfig::from_json_str(
            "{\"components\":{\"a\":{\"mode\":\"binary\"},\"a\":{\"mode\":\"source\"}}}"
        )
        .err(),
        Some(RegistryParseError::Malformed)
    );
}

#[test]
fn registry_load_accepts_format_variants() {
    // Whitespace, key re-ordering and absent optional keys all conform to
    // the persisted format and are accepted.
    let pretty = "{\n  \"components\": {\n    \"widgets\": {\n      \"lib\": \"/w/lib\",\n      \"mode\": \"source\"\n    }\n  },\n  \"sdk_version\": \"v2.0\"\n}\n";
    let loaded = DevConfig::from_json_str(pretty).expect("format variant must load");
    assert_eq!(loaded.sdk_version.as_deref(), Some("v2.0"));
    assert_eq!(loaded.components.len(), 1);
    assert_eq!(loaded.components[0].name, "widgets");
    assert_eq!(loaded.components[0].config.lib.as_deref(), Some("/w/lib"));
    assert!(loaded.components[0].config.qml.is_none());

    let trailing = DevConfig::from_json_str("{\"sdk_version\":null,\"components\":{}} ")
        .expect("trailing whitespace must load");
    assert!(trailing.components.is_empty());

    let bare = DevConfig::from_json_str("{}").expect("absent keys default");
    assert!(bare.sdk_version.is_none());
    assert!(bare.components.is_empty());

    let no_components = DevConfig::from_json_str("{\"sdk_version\":\"v1\"}").unwrap();
    assert_eq!(no_components.sdk_version.as_deref(), Some("v1"));
    assert!(no_components.components.is_empty());
}

// Preset generation

#[test]
fn presets_content_exact_for_empty_registry() {
    let cfg = DevConfig::empty();
    let text = mpf_dev::presets::generate_user_presets_content(
        &cfg,
        "/qt",
        "/sdk",
        "/qt/Tools/mingw/bin/gcc.exe",
        "/qt/Tools/mingw/bin/g++.exe",
    );
    let dev_cache = "{\"CMAKE_BUILD_TYPE\":\"Debug\",\"CMAKE_C_COMPILER\":\"/qt/Tools/mingw/bin/gcc.exe\",\"CMAKE_CXX_COMPILER\":\"/qt/Tools/mingw/bin/g++.exe\",\"CMAKE_PREFIX_PATH\":\"/qt;/sdk\",\"CMAKE_EXPORT_COMPILE_COMMANDS\":\"ON\",\"QML_IMPORT_PATH\":\"/sdk/qml;/qt/qml\"}";
    let release_cache = dev_cache.replace("Debug", "Release");
    let expected = format!(
        "{{\"version\":6,\"configurePresets\":[{{\"name\":\"dev\",\"inherits\":\"base\",\"displayName\":\"MPF Dev\",\"cacheVariables\":{}}},{{\"name\":\"release\",\"inherits\":\"base\",\"displayName\":\"MPF Release\",\"binaryDir\":\"${{sourceDir}}/build-release\",\"cacheVariables\":{}}}],\"buildPresets\":[{{\"name\":\"dev\",\"configurePreset\":\"dev\"}},{{\"name\":\"release\",\"configurePreset\":\"release\"}}]}}",
        dev_cache, release_cache
    );
    assert_eq!(text, expected);
}

#[test]
fn presets_content_carries_named_vars_and_escapes() {
    let mut cfg = DevConfig::empty();
    cfg.insert(
        "http-client".to_string(),
        source_with_lib("C:\\work\\http\\build\\lib"),
    );
    let text = mpf_dev::presets::generate_user_presets_content(
        &cfg,
        "C:\\Qt\\6.8.3\\mingw_64",
        "/sdk",
        "gcc",
        "g++",
    );
    assert!(text.contains("\"MPFHttpClient_DIR\":\"C:/work/http/build\""));
    assert!(text.contains("\"CMAKE_PREFIX_PATH\":\"C:/Qt/6.8.3/mingw_64;/sdk\""));
    let base = mpf_dev::presets::base_presets_content();
    assert!(base.contains("\"name\":\"base\""));
    assert!(base.contains("\"generator\":\"Ninja\""));
}

// Toolchain detection

#[test]
fn toolkit_root_priority() {
    let cands = vec!["/opt/qt6".to_string(), "/usr/lib/qt6".to_string()];
    let exists = vec![false, true];
    assert_eq!(
        choose_toolkit_root(Some("/env1".to_string()), Some("/env2".to_string()), &cands, &exists),
        Some("/env1".to_string())
    );
    assert_eq!(
        choose_toolkit_root(None, Some("/env2".to_string()), &cands, &exists),
        Some("/env2".to_string())
    );
    assert_eq!(
        choose_toolkit_root(None, None, &cands, &exists),
        Some("/usr/lib/qt6".to_string())
    );
    assert_eq!(
        choose_toolkit_root(None, None, &cands, &vec![false, false]),
        None
    );
    assert_eq!(well_known_toolkit_paths(Platform::Unix).len(), 3);
    assert_eq!(well_known_toolkit_paths(Platform::Windows).len(), 4);
}

#[test]
fn tools_dir_from_toolkit_root() {
    assert_eq!(
        vendor_tools_dir("C:\\Qt\\6.8.3\\mingw_64"),
        Some("C:/Qt/Tools".to_string())
    );
    assert_eq!(vendor_tools_dir("plain"), None);
}

#[test]
fn compiler_pick_is_descending_by_name() {
    let names = vec![
        "mingw1120_64".to_string(),
        "mingw810_64".to_string(),
        "notmingw".to_string(),
        "mingw900_64".to_string(),
    ];
    let is_dir = vec![true, true, true, true];
    let has_both = vec![true, true, true, false];
    // mingw900_64 sorts first by name but lacks the compilers; among the
    // qualifying directories mingw810_64 beats mingw1120_64, since names
    // compare lexicographically and '8' sorts after '1'.
    assert_eq!(
        pick_compiler_dir(&names, &is_dir, &has_both),
        Some("mingw810_64".to_string())
    );
    assert!(str_lt("mingw1120_64", "mingw810_64"));
    let none = pick_compiler_dir(&names, &is_dir, &vec![false, false, false, false]);
    assert_eq!(none, None);
    let (gcc, gpp) = compiler_pair_paths("C:/Qt/Tools/mingw900_64");
    assert_eq!(gcc, "C:/Qt/Tools/mingw900_64/bin/gcc.exe");
    assert_eq!(gpp, "C:/Qt/Tools/mingw900_64/bin/g++.exe");
}

// Project-root inference

#[test]
fn ancestors_and_root_choice() {
    let cands = ancestor_candidates("/a/b/c/d", 3);
    assert_eq!(
        cands,
        vec!["/a/b/c".to_string(), "/a/b".to_string(), "/a".to_string()]
    );
    let r = choose_project_root(&cands, &vec![false, true, true], "/cwd", false);
    assert_eq!(r, Some("/a/b".to_string()));
    let r2 = choose_project_root(&cands, &vec![false, false, false], "/cwd", true);
    assert_eq!(r2, Some("/cwd".to_string()));
    let r3 = choose_project_root(&cands, &vec![false, false, false], "/cwd", false);
    assert_eq!(r3, None);
    let shallow = ancestor_candidates("x", 3);
    assert!(shallow.is_empty());
}

// SDK layout and versions

#[test]
fn sdk_layout_paths() {
    assert_eq!(dev_config_path("/home/me/.mpf-sdk"), "/home/me/.mpf-sdk/dev.json");
    assert_eq!(current_link("/home/me/.mpf-sdk"), "/home/me/.mpf-sdk/current");
    assert_eq!(
        version_dir("/home/me/.mpf-sdk", "v1.2.3"),
        "/home/me/.mpf-sdk/v1.2.3"
    );
}

#[test]
fn sdk_root_lies_under_home() {
    if let Some(r) = mpf_dev::sdk::sdk_root() {
        assert!(r.ends_with("/.mpf-sdk"));
    }
}

#[test]
fn version_string_rules() {
    assert_eq!(normalize_version("1.2.3"), "v1.2.3");
    assert_eq!(normalize_version("v1.2.3"), "v1.2.3");
    assert!(is_version_dir_name("v1.2.3"));
    assert!(is_version_dir_name("2.0"));
    assert!(!is_version_dir_name("current"));
    assert!(!is_version_dir_name(""));
}
