//! Link and unlink operations: how one user action turns into a registry
//! update. Path derivation works on strings; whether a directory or an
//! executable exists on disk arrives as explicit probe results.

use vstd::prelude::*;
use crate::paths::fwd_slashes;
use crate::paths::join_path;
use crate::paths::normalize_path;
use crate::paths::spec_normalize;
use crate::paths::spec_resolve_against;
use crate::paths::str_eq;
use crate::paths::str_starts_with;
use crate::paths::to_forward_slashes;
use crate::registry::clone_config;
use crate::registry::clone_opt;
use crate::registry::inserted;
use crate::registry::ComponentConfig;
use crate::registry::ComponentEntry;
use crate::registry::ComponentMode;
use crate::registry::ComponentView;
use crate::registry::DevConfig;
use crate::registry::EntryView;

verus! {

/// The stored name of a linked plugin: the given name, prefixed with
/// `plugin-` unless it already is.
pub open spec fn spec_plugin_name(name: Seq<char>) -> Seq<char> {
    if "plugin-"@.is_prefix_of(name) {
        name
    } else {
        "plugin-"@ + name
    }
}

/// The stored name of a linked plugin, as `spec_plugin_name` describes.
pub fn plugin_component_name(name: &str) -> (r: String)
    ensures
        r@ == spec_plugin_name(name@),
{
    if str_starts_with(name, "plugin-") {
        String::from_str(name)
    } else {
        let mut s = String::from_str("plugin-");
        s.append(name);
        s
    }
}

/// The settings a plugin link derives from its build root: libraries under
/// `plugins`, UI modules under `qml`, the root itself as the plugin path.
pub open spec fn spec_plugin_link_config(abs: Seq<char>, root: Option<Seq<char>>) -> ComponentView {
    ComponentView {
        mode: ComponentMode::Source,
        lib: Some(spec_normalize(abs + seq!['/'] + "plugins"@)),
        qml: Some(spec_normalize(abs + seq!['/'] + "qml"@)),
        plugin: Some(spec_normalize(abs)),
        headers: None,
        bin: None,
        root: root,
    }
}

/// Registers a plugin under its `plugin-` name, deriving its paths from
/// the resolved build root `abs`.
pub fn link_plugin_update(cfg: &mut DevConfig, name: &str, abs: &str, root: Option<String>)
    requires
        old(cfg)@.wf(),
    ensures
        final(cfg)@.wf(),
        inserted(
            old(cfg)@,
            final(cfg)@,
            spec_plugin_name(name@),
            spec_plugin_link_config(abs@, root.deep_view()),
        ),
{
    let stored = plugin_component_name(name);
    let lib = join_path(abs, "plugins");
    let qml = join_path(abs, "qml");
    let config = ComponentConfig {
        mode: ComponentMode::Source,
        lib: Some(normalize_path(lib.as_str())),
        qml: Some(normalize_path(qml.as_str())),
        plugin: Some(normalize_path(abs)),
        headers: None,
        bin: None,
        root: root,
    };
    proof {
        assert(config@ == spec_plugin_link_config(abs@, config.root.deep_view()));
    }
    cfg.insert(stored, config);
}

/// The host executable directory a host link derives: the `bin`
/// subdirectory when it holds the executable, the root itself when the
/// executable sits there, else `bin` regardless.
pub open spec fn spec_host_bin_path(abs: Seq<char>, bin_has_exe: bool, root_has_exe: bool) -> Seq<
    char,
> {
    if bin_has_exe {
        spec_normalize(abs + seq!['/'] + "bin"@)
    } else if root_has_exe {
        spec_normalize(abs)
    } else {
        spec_normalize(abs + seq!['/'] + "bin"@)
    }
}

/// The UI-module directory a host link derives: the `qml` subdirectory
/// when it exists, else the root itself.
pub open spec fn spec_host_qml_path(abs: Seq<char>, has_qml_dir: bool) -> Seq<char> {
    if has_qml_dir {
        spec_normalize(abs + seq!['/'] + "qml"@)
    } else {
        spec_normalize(abs)
    }
}

/// The settings a host link derives from its build root.
pub open spec fn spec_host_link_config(
    abs: Seq<char>,
    bin_has_exe: bool,
    root_has_exe: bool,
    has_qml_dir: bool,
    root: Option<Seq<char>>,
) -> ComponentView {
    ComponentView {
        mode: ComponentMode::Source,
        lib: None,
        qml: Some(spec_host_qml_path(abs, has_qml_dir)),
        plugin: None,
        headers: None,
        bin: Some(spec_host_bin_path(abs, bin_has_exe, root_has_exe)),
        root: root,
    }
}

/// Registers the host component, deriving its executable and UI-module
/// directories from the resolved build root `abs` and the given probe
/// results.
pub fn link_host_update(
    cfg: &mut DevConfig,
    abs: &str,
    bin_has_exe: bool,
    root_has_exe: bool,
    has_qml_dir: bool,
    root: Option<String>,
)
    requires
        old(cfg)@.wf(),
    ensures
        final(cfg)@.wf(),
        inserted(
            old(cfg)@,
            final(cfg)@,
            "host"@,
            spec_host_link_config(abs@, bin_has_exe, root_has_exe, has_qml_dir, root.deep_view()),
        ),
{
    let bin_path = if bin_has_exe {
        let b = join_path(abs, "bin");
        normalize_path(b.as_str())
    } else if root_has_exe {
        normalize_path(abs)
    } else {
        let b = join_path(abs, "bin");
        normalize_path(b.as_str())
    };
    let qml_path = if has_qml_dir {
        let q = join_path(abs, "qml");
        normalize_path(q.as_str())
    } else {
        normalize_path(abs)
    };
    let config = ComponentConfig {
        mode: ComponentMode::Source,
        lib: None,
        qml: Some(qml_path),
        plugin: None,
        headers: None,
        bin: Some(bin_path),
        root: root,
    };
    cfg.insert(String::from_str("host"), config);
}

/// Why a claimed local SDK install was rejected.
#[derive(Clone, Copy, Debug, PartialEq, Eq, Structural)]
pub enum SdkLinkError {
    /// The install lacks its build-system package configuration file.
    MissingCmakeConfig,
    /// The install lacks its public-header directory.
    MissingHeaders,
}

/// The settings an SDK link derives from its install root: libraries under
/// `lib`, headers under `include`, and no project root to propagate to.
pub open spec fn spec_sdk_link_config(abs: Seq<char>) -> ComponentView {
    ComponentView {
        mode: ComponentMode::Source,
        lib: Some(spec_normalize(abs + seq!['/'] + "lib"@)),
        qml: None,
        plugin: None,
        headers: Some(spec_normalize(abs + seq!['/'] + "include"@)),
        bin: None,
        root: None,
    }
}

/// Registers a locally built SDK install, after its required structure has
/// been checked: the install must hold the build-system package
/// configuration and the public headers, else it is rejected unchanged.
pub fn link_sdk_update(
    cfg: &mut DevConfig,
    abs: &str,
    has_cmake_config: bool,
    has_include_dir: bool,
) -> (r: Result<(), SdkLinkError>)
    requires
        old(cfg)@.wf(),
    ensures
        final(cfg)@.wf(),
        !has_cmake_config ==> r == Result::<(), SdkLinkError>::Err(SdkLinkError::MissingCmakeConfig)
            && final(cfg)@ == old(cfg)@,
        has_cmake_config && !has_include_dir ==> r == Result::<(), SdkLinkError>::Err(
            SdkLinkError::MissingHeaders,
        ) && final(cfg)@ == old(cfg)@,
        has_cmake_config && has_include_dir ==> r is Ok && inserted(
            old(cfg)@,
            final(cfg)@,
            "sdk"@,
            spec_sdk_link_config(abs@),
        ),
{
    if !has_cmake_config {
        return Err(SdkLinkError::MissingCmakeConfig);
    }
    if !has_include_dir {
        return Err(SdkLinkError::MissingHeaders);
    }
    let lib = join_path(abs, "lib");
    let headers = join_path(abs, "include");
    let config = ComponentConfig {
        mode: ComponentMode::Source,
        lib: Some(normalize_path(lib.as_str())),
        qml: None,
        plugin: None,
        headers: Some(normalize_path(headers.as_str())),
        bin: None,
        root: None,
    };
    cfg.insert(String::from_str("sdk"), config);
    Ok(())
}

/// The settings a library-component link derives from its build root:
/// libraries from `lib`, else `bin`, else the root itself; UI modules and
/// headers only when their directories exist.
pub open spec fn spec_component_link_config(
    abs: Seq<char>,
    has_lib_dir: bool,
    has_bin_dir: bool,
    has_qml_dir: bool,
    has_include_dir: bool,
    root: Option<Seq<char>>,
) -> ComponentView {
    ComponentView {
        mode: ComponentMode::Source,
        lib: Some(
            if has_lib_dir {
                spec_normalize(abs + seq!['/'] + "lib"@)
            } else if has_bin_dir {
                spec_normalize(abs + seq!['/'] + "bin"@)
            } else {
                spec_normalize(abs)
            },
        ),
        qml: if has_qml_dir {
            Some(spec_normalize(abs + seq!['/'] + "qml"@))
        } else {
            None
        },
        plugin: None,
        headers: if has_include_dir {
            Some(spec_normalize(abs + seq!['/'] + "include"@))
        } else {
            None
        },
        bin: None,
        root: root,
    }
}

/// Registers a library component, deriving its paths from the resolved
/// build root `abs` and the given probe results.
pub fn link_component_update(
    cfg: &mut DevConfig,
    name: &str,
    abs: &str,
    has_lib_dir: bool,
    has_bin_dir: bool,
    has_qml_dir: bool,
    has_include_dir: bool,
    root: Option<String>,
)
    requires
        old(cfg)@.wf(),
    ensures
        final(cfg)@.wf(),
        inserted(
            old(cfg)@,
            final(cfg)@,
            name@,
            spec_component_link_config(
                abs@,
                has_lib_dir,
                has_bin_dir,
                has_qml_dir,
                has_include_dir,
                root.deep_view(),
            ),
        ),
{
    let lib = if has_lib_dir {
        let p = join_path(abs, "lib");
        normalize_path(p.as_str())
    } else if has_bin_dir {
        let p = join_path(abs, "bin");
        normalize_path(p.as_str())
    } else {
        normalize_path(abs)
    };
    let qml = if has_qml_dir {
        let p = join_path(abs, "qml");
        Some(normalize_path(p.as_str()))
    } else {
        None
    };
    let headers = if has_include_dir {
        let p = join_path(abs, "include");
        Some(normalize_path(p.as_str()))
    } else {
        None
    };
    let config = ComponentConfig {
        mode: ComponentMode::Source,
        lib: Some(lib),
        qml: qml,
        plugin: None,
        headers: headers,
        bin: None,
        root: root,
    };
    cfg.insert(String::from_str(name), config);
}

/// Resolves an optional path against the working directory.
pub open spec fn opt_resolve(cwd: Seq<char>, o: Option<Seq<char>>) -> Option<Seq<char>> {
    match o {
        Some(p) => Some(spec_resolve_against(cwd, p)),
        None => None,
    }
}

/// The first of two optional values that is present.
pub open spec fn opt_or(a: Option<Seq<char>>, b: Option<Seq<char>>) -> Option<Seq<char>> {
    if a is Some {
        a
    } else {
        b
    }
}

/// The settings of a manual link: explicitly given paths are resolved
/// against the working directory and win; a `plugin` build root derives
/// fallback library and UI-module paths; a `host` build root derives
/// fallback executable and UI-module paths from the probe results.
pub open spec fn spec_manual_link_config(
    cwd: Seq<char>,
    lib: Option<Seq<char>>,
    qml: Option<Seq<char>>,
    plugin: Option<Seq<char>>,
    headers: Option<Seq<char>>,
    bin: Option<Seq<char>>,
    host: Option<Seq<char>>,
    host_bin_has_exe: bool,
    host_root_has_exe: bool,
    host_has_qml_dir: bool,
) -> ComponentView {
    let derived_lib = match plugin {
        Some(p) => Some(spec_normalize(spec_resolve_against(cwd, p) + seq!['/'] + "plugins"@)),
        None => None,
    };
    let derived_qml = match plugin {
        Some(p) => Some(spec_normalize(spec_resolve_against(cwd, p) + seq!['/'] + "qml"@)),
        None => None,
    };
    let derived_bin = match host {
        Some(h) => Some(
            spec_host_bin_path(spec_resolve_against(cwd, h), host_bin_has_exe, host_root_has_exe),
        ),
        None => None,
    };
    let derived_host_qml = match host {
        Some(h) => Some(spec_host_qml_path(spec_resolve_against(cwd, h), host_has_qml_dir)),
        None => None,
    };
    ComponentView {
        mode: ComponentMode::Source,
        lib: opt_or(opt_resolve(cwd, lib), derived_lib),
        qml: opt_or(opt_resolve(cwd, qml), opt_or(derived_host_qml, derived_qml)),
        plugin: opt_resolve(cwd, plugin),
        headers: opt_resolve(cwd, headers),
        bin: opt_or(opt_resolve(cwd, bin), derived_bin),
        root: None,
    }
}

/// Resolves an optional path argument against the working directory.
fn resolve_opt(cwd: &str, o: &Option<String>) -> (r: Option<String>)
    ensures
        r.deep_view() == opt_resolve(cwd@, o.deep_view()),
{
    match o {
        Some(p) => Some(crate::paths::resolve_against(cwd, p.as_str())),
        None => None,
    }
}

/// Registers a component from explicitly given paths, as
/// `spec_manual_link_config` describes. The component keeps no project
/// root; a later explicit initialization may set one.
pub fn link_manual_update(
    cfg: &mut DevConfig,
    component: &str,
    cwd: &str,
    lib: Option<String>,
    qml: Option<String>,
    plugin: Option<String>,
    headers: Option<String>,
    bin: Option<String>,
    host: Option<String>,
    host_bin_has_exe: bool,
    host_root_has_exe: bool,
    host_has_qml_dir: bool,
) -> (r: ComponentConfig)
    requires
        old(cfg)@.wf(),
    ensures
        final(cfg)@.wf(),
        r@ == spec_manual_link_config(
            cwd@,
            lib.deep_view(),
            qml.deep_view(),
            plugin.deep_view(),
            headers.deep_view(),
            bin.deep_view(),
            host.deep_view(),
            host_bin_has_exe,
            host_root_has_exe,
            host_has_qml_dir,
        ),
        inserted(old(cfg)@, final(cfg)@, component@, r@),
{
    let derived_lib: Option<String> = match &plugin {
        Some(p) => {
            let ap = crate::paths::resolve_against(cwd, p.as_str());
            let j = join_path(ap.as_str(), "plugins");
            Some(normalize_path(j.as_str()))
        },
        None => None,
    };
    let derived_qml: Option<String> = match &plugin {
        Some(p) => {
            let ap = crate::paths::resolve_against(cwd, p.as_str());
            let j = join_path(ap.as_str(), "qml");
            Some(normalize_path(j.as_str()))
        },
        None => None,
    };
    let derived_bin: Option<String> = match &host {
        Some(h) => {
            let ah = crate::paths::resolve_against(cwd, h.as_str());
            let b = if host_bin_has_exe {
                let p = join_path(ah.as_str(), "bin");
                normalize_path(p.as_str())
            } else if host_root_has_exe {
                normalize_path(ah.as_str())
            } else {
                let p = join_path(ah.as_str(), "bin");
                normalize_path(p.as_str())
            };
            Some(b)
        },
        None => None,
    };
    let derived_host_qml: Option<String> = match &host {
        Some(h) => {
            let ah = crate::paths::resolve_against(cwd, h.as_str());
            let q = if host_has_qml_dir {
                let p = join_path(ah.as_str(), "qml");
                normalize_path(p.as_str())
            } else {
                normalize_path(ah.as_str())
            };
            Some(q)
        },
        None => None,
    };
    let final_lib = match resolve_opt(cwd, &lib) {
        Some(v) => Some(v),
        None => derived_lib,
    };
    let final_qml = match resolve_opt(cwd, &qml) {
        Some(v) => Some(v),
        None => match derived_host_qml {
            Some(v) => Some(v),
            None => derived_qml,
        },
    };
    let final_bin = match resolve_opt(cwd, &bin) {
        Some(v) => Some(v),
        None => derived_bin,
    };
    let config = ComponentConfig {
        mode: ComponentMode::Source,
        lib: final_lib,
        qml: final_qml,
        plugin: resolve_opt(cwd, &plugin),
        headers: resolve_opt(cwd, &headers),
        bin: final_bin,
        root: None,
    };
    let result = clone_config(&config);
    cfg.insert(String::from_str(component), config);
    result
}

/// What an unlink action did.
#[derive(Clone, Copy, Debug, PartialEq, Eq, Structural)]
pub enum UnlinkOutcome {
    /// Every component was removed; carries how many there were.
    ClearedAll(usize),
    /// The component of the given name was removed.
    Removed,
    /// The component of the name with the `plugin-` prefix was removed.
    RemovedPlugin,
    /// No component of either name was linked; nothing changed.
    NotLinked,
}

/// Unregisters a component: the special name `all` clears the registry;
/// otherwise the exact name is tried first, then the name with the
/// `plugin-` prefix; an unknown name changes nothing.
pub fn unlink_update(cfg: &mut DevConfig, component: &str) -> (r: UnlinkOutcome)
    requires
        old(cfg)@.wf(),
    ensures
        final(cfg)@.wf(),
        final(cfg)@.sdk_version == old(cfg)@.sdk_version,
        component@ == "all"@ ==> final(cfg)@.components == Seq::<EntryView>::empty() && r
            == UnlinkOutcome::ClearedAll(old(cfg)@.components.len() as usize),
        component@ != "all"@ && old(cfg)@.has(component@) ==> final(cfg)@.components == old(
            cfg,
        )@.components.remove(crate::registry::idx_of(old(cfg)@.components, component@)) && r
            == UnlinkOutcome::Removed,
        component@ != "all"@ && !old(cfg)@.has(component@) && old(cfg)@.has(
            "plugin-"@ + component@,
        ) ==> final(cfg)@.components == old(cfg)@.components.remove(
            crate::registry::idx_of(old(cfg)@.components, "plugin-"@ + component@),
        ) && r == UnlinkOutcome::RemovedPlugin,
        component@ != "all"@ && !old(cfg)@.has(component@) && !old(cfg)@.has(
            "plugin-"@ + component@,
        ) ==> final(cfg)@ == old(cfg)@ && r == UnlinkOutcome::NotLinked,
{
    if str_eq(component, "all") {
        let count = cfg.clear();
        return UnlinkOutcome::ClearedAll(count);
    }
    if cfg.remove(component) {
        return UnlinkOutcome::Removed;
    }
    let mut prefixed = String::from_str("plugin-");
    prefixed.append(component);
    if cfg.remove(prefixed.as_str()) {
        return UnlinkOutcome::RemovedPlugin;
    }
    UnlinkOutcome::NotLinked
}

/// Whether an optional stored path lies under the prefix, separators
/// forward-slashed.
pub open spec fn opt_under(o: Option<Seq<char>>, prefix: Seq<char>) -> bool {
    o is Some && prefix.is_prefix_of(fwd_slashes(o.unwrap()))
}

/// Whether any of a component's stored paths lies under the working
/// directory's `build` subtree.
pub open spec fn touches_build(c: ComponentView, cwd: Seq<char>) -> bool {
    let prefix = fwd_slashes(cwd) + seq!['/'] + "build"@;
    ||| opt_under(c.lib, prefix)
    ||| opt_under(c.qml, prefix)
    ||| opt_under(c.plugin, prefix)
    ||| opt_under(c.headers, prefix)
    ||| opt_under(c.bin, prefix)
}

/// How explicit initialization adjusts one entry: a component without a
/// project root whose paths point into the working directory's `build`
/// subtree gets the working directory recorded as its root.
pub open spec fn spec_register_entry(e: EntryView, cwd: Seq<char>) -> EntryView {
    if e.config.root is None && touches_build(e.config, cwd) {
        EntryView {
            name: e.name,
            config: ComponentView {
                mode: e.config.mode,
                lib: e.config.lib,
                qml: e.config.qml,
                plugin: e.config.plugin,
                headers: e.config.headers,
                bin: e.config.bin,
                root: Some(cwd),
            },
        }
    } else {
        e
    }
}

/// Records the (normalized) working directory as the project root of every
/// component that points into its `build` subtree and has no root yet, as
/// `spec_register_entry` describes entry by entry.
pub fn register_roots_update(cfg: &mut DevConfig, cwd_norm: &str)
    requires
        old(cfg)@.wf(),
    ensures
        final(cfg)@.wf(),
        final(cfg)@.sdk_version == old(cfg)@.sdk_version,
        final(cfg)@.components.len() == old(cfg)@.components.len(),
        forall|i: int|
            0 <= i < final(cfg)@.components.len() ==> final(cfg)@.components[i]
                == spec_register_entry(old(cfg)@.components[i], cwd_norm@),
{
    let cwd_fwd = to_forward_slashes(cwd_norm);
    let prefix = join_path(cwd_fwd.as_str(), "build");
    proof {
        assert(prefix@ == fwd_slashes(cwd_norm@) + seq!['/'] + "build"@);
    }
    let n = cfg.components.len();
    let mut out: Vec<ComponentEntry> = Vec::new();
    let mut i: usize = 0;
    while i < n
        invariant
            i <= n,
            n == cfg.components@.len(),
            cfg@ == old(cfg)@,
            prefix@ == fwd_slashes(cwd_norm@) + seq!['/'] + "build"@,
            out@.len() == i,
            forall|j: int|
                0 <= j < i ==> out@[j]@ == spec_register_entry(cfg@.components[j], cwd_norm@),
        decreases n - i,
    {
        let e = &cfg.components[i];
        let mut touches = false;
        match &e.config.lib {
            Some(p) => {
                let f = to_forward_slashes(p.as_str());
                if str_starts_with(f.as_str(), prefix.as_str()) {
                    touches = true;
                }
            },
            None => {},
        }
        match &e.config.qml {
            Some(p) => {
                let f = to_forward_slashes(p.as_str());
                if str_starts_with(f.as_str(), prefix.as_str()) {
                    touches = true;
                }
            },
            None => {},
        }
        match &e.config.plugin {
            Some(p) => {
                let f = to_forward_slashes(p.as_str());
                if str_starts_with(f.as_str(), prefix.as_str()) {
                    touches = true;
                }
            },
            None => {},
        }
        match &e.config.headers {
            Some(p) => {
                let f = to_forward_slashes(p.as_str());
                if str_starts_with(f.as_str(), prefix.as_str()) {
                    touches = true;
                }
            },
            None => {},
        }
        match &e.config.bin {
            Some(p) => {
                let f = to_forward_slashes(p.as_str());
                if str_starts_with(f.as_str(), prefix.as_str()) {
                    touches = true;
                }
            },
            None => {},
        }
        proof {
            assert(touches == touches_build(cfg@.components[i as int].config, cwd_norm@));
        }
        if e.config.root.is_none() && touches {
            let config = ComponentConfig {
                mode: e.config.mode,
                lib: clone_opt(&e.config.lib),
                qml: clone_opt(&e.config.qml),
                plugin: clone_opt(&e.config.plugin),
                headers: clone_opt(&e.config.headers),
                bin: clone_opt(&e.config.bin),
                root: Some(String::from_str(cwd_norm)),
            };
            out.push(ComponentEntry { name: e.name.clone(), config });
        } else {
            out.push(ComponentEntry { name: e.name.clone(), config: clone_config(&e.config) });
        }
        i += 1;
    }
    cfg.components = out;
    proof {
        assert forall|a: int, b: int|
            0 <= a < b < final(cfg)@.components.len() implies (
        #[trigger] final(cfg)@.components[a]).name != (#[trigger] final(cfg)@.components[b]).name
            by {
            assert(final(cfg)@.components[a].name == old(cfg)@.components[a].name);
            assert(final(cfg)@.components[b].name == old(cfg)@.components[b].name);
        }
    }
}

} // verus!
