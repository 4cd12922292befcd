//! The preset generator: renders the resolution engine's output into the
//! per-project build-configuration text, with a debug profile and an
//! optimized release profile that share the compiler pair, the prefix-path
//! list, the import-path list and the named variables.

use vstd::prelude::*;
use crate::jsontext::quoted;
use crate::jsontext::quote_string;
use crate::paths::join_list;
use crate::paths::spec_join_list;
use crate::registry::DevConfig;
use crate::resolve::resolve_cache_vars;
use crate::resolve::resolve_prefix_paths;
use crate::resolve::resolve_qml_import_paths;
use crate::resolve::spec_cache_vars;
use crate::resolve::spec_prefix_paths;
use crate::resolve::spec_qml_import_paths;
use crate::resolve::CacheVar;
use crate::resolve::CacheVarView;

verus! {

/// The named package-directory variables as they stand in a cache-variable
/// object: one `,"key":"value"` piece each, in order.
pub open spec fn spec_extras_text(vars: Seq<CacheVarView>) -> Seq<char>
    decreases vars.len(),
{
    if vars.len() == 0 {
        Seq::empty()
    } else {
        spec_extras_text(vars.drop_last()) + ","@ + quoted(vars.last().key) + ":"@ + quoted(
            vars.last().value,
        )
    }
}

/// One configure profile's cache-variable object: build type, the compiler
/// pair, the joined prefix-path list, the compile-commands-export flag,
/// the joined import-path list, and the named variables.
pub open spec fn spec_cache_obj(
    build_type: Seq<char>,
    gcc: Seq<char>,
    gpp: Seq<char>,
    prefix: Seq<char>,
    qml: Seq<char>,
    extras: Seq<CacheVarView>,
) -> Seq<char> {
    "{\"CMAKE_BUILD_TYPE\":"@ + quoted(build_type) + ",\"CMAKE_C_COMPILER\":"@ + quoted(gcc)
        + ",\"CMAKE_CXX_COMPILER\":"@ + quoted(gpp) + ",\"CMAKE_PREFIX_PATH\":"@ + quoted(prefix)
        + ",\"CMAKE_EXPORT_COMPILE_COMMANDS\":\"ON\",\"QML_IMPORT_PATH\":"@ + quoted(qml)
        + spec_extras_text(extras) + "}"@
}

/// The whole build-configuration text: a schema version marker, the `dev`
/// and `release` configure profiles inheriting the common base, and the
/// two build profiles referencing them.
pub open spec fn spec_user_presets(
    gcc: Seq<char>,
    gpp: Seq<char>,
    prefix: Seq<char>,
    qml: Seq<char>,
    extras: Seq<CacheVarView>,
) -> Seq<char> {
    "{\"version\":6,\"configurePresets\":[{\"name\":\"dev\",\"inherits\":\"base\",\"displayName\":\"MPF Dev\",\"cacheVariables\":"@
        + spec_cache_obj("Debug"@, gcc, gpp, prefix, qml, extras)
        + "},{\"name\":\"release\",\"inherits\":\"base\",\"displayName\":\"MPF Release\",\"binaryDir\":\"${sourceDir}/build-release\",\"cacheVariables\":"@
        + spec_cache_obj("Release"@, gcc, gpp, prefix, qml, extras)
        + "}],\"buildPresets\":[{\"name\":\"dev\",\"configurePreset\":\"dev\"},{\"name\":\"release\",\"configurePreset\":\"release\"}]}"@
}

/// Renders one cache-variable object, as `spec_cache_obj` describes.
fn cache_obj_string(
    build_type: &str,
    gcc: &str,
    gpp: &str,
    prefix: &str,
    qml: &str,
    extras: &Vec<CacheVar>,
) -> (r: String)
    ensures
        r@ == spec_cache_obj(build_type@, gcc@, gpp@, prefix@, qml@, extras.deep_view()),
{
    let mut s = String::from_str("{\"CMAKE_BUILD_TYPE\":");
    s.append(quote_string(build_type).as_str());
    s.append(",\"CMAKE_C_COMPILER\":");
    s.append(quote_string(gcc).as_str());
    s.append(",\"CMAKE_CXX_COMPILER\":");
    s.append(quote_string(gpp).as_str());
    s.append(",\"CMAKE_PREFIX_PATH\":");
    s.append(quote_string(prefix).as_str());
    s.append(",\"CMAKE_EXPORT_COMPILE_COMMANDS\":\"ON\",\"QML_IMPORT_PATH\":");
    s.append(quote_string(qml).as_str());
    let ghost base = s@;
    let n = extras.len();
    let mut i: usize = 0;
    while i < n
        invariant
            i <= n,
            n == extras@.len(),
            s@ == base + spec_extras_text(extras.deep_view().take(i as int)),
        decreases n - i,
    {
        s.append(",");
        s.append(quote_string(extras[i].key.as_str()).as_str());
        s.append(":");
        s.append(quote_string(extras[i].value.as_str()).as_str());
        proof {
            let ev = extras.deep_view();
            assert(ev.take(i + 1 as int).drop_last() =~= ev.take(i as int));
            assert(ev.take(i + 1 as int).last() == ev[i as int]);
            assert(s@ =~= base + spec_extras_text(ev.take(i + 1 as int)));
        }
        i += 1;
    }
    proof {
        assert(extras.deep_view().take(n as int) =~= extras.deep_view());
    }
    s.append("}");
    s
}

/// Renders the whole build-configuration text from already-joined lists,
/// as `spec_user_presets` describes.
pub fn user_presets_content(
    gcc: &str,
    gpp: &str,
    prefix: &str,
    qml: &str,
    extras: &Vec<CacheVar>,
) -> (r: String)
    ensures
        r@ == spec_user_presets(gcc@, gpp@, prefix@, qml@, extras.deep_view()),
{
    let mut s = String::from_str(
        "{\"version\":6,\"configurePresets\":[{\"name\":\"dev\",\"inherits\":\"base\",\"displayName\":\"MPF Dev\",\"cacheVariables\":",
    );
    s.append(cache_obj_string("Debug", gcc, gpp, prefix, qml, extras).as_str());
    s.append(
        "},{\"name\":\"release\",\"inherits\":\"base\",\"displayName\":\"MPF Release\",\"binaryDir\":\"${sourceDir}/build-release\",\"cacheVariables\":",
    );
    s.append(cache_obj_string("Release", gcc, gpp, prefix, qml, extras).as_str());
    s.append(
        "}],\"buildPresets\":[{\"name\":\"dev\",\"configurePreset\":\"dev\"},{\"name\":\"release\",\"configurePreset\":\"release\"}]}",
    );
    s
}

/// Resolves a registry and a toolchain snapshot into the per-project
/// build-configuration text: the prefix-path and import-path lists joined
/// with the build system's list separator, the named variables appended.
pub fn generate_user_presets_content(
    cfg: &DevConfig,
    toolkit_root: &str,
    sdk_current: &str,
    gcc: &str,
    gpp: &str,
) -> (r: String)
    requires
        cfg@.wf(),
    ensures
        r@ == spec_user_presets(
            gcc@,
            gpp@,
            spec_join_list(spec_prefix_paths(cfg@, toolkit_root@, sdk_current@), ';'),
            spec_join_list(spec_qml_import_paths(cfg@, toolkit_root@, sdk_current@), ';'),
            spec_cache_vars(cfg@),
        ),
{
    let prefix_list = resolve_prefix_paths(cfg, toolkit_root, sdk_current);
    let prefix = join_list(&prefix_list, ';');
    let qml_list = resolve_qml_import_paths(cfg, toolkit_root, sdk_current);
    let qml = join_list(&qml_list, ';');
    let extras = resolve_cache_vars(cfg);
    user_presets_content(gcc, gpp, prefix.as_str(), qml.as_str(), &extras)
}

/// The common base profile text that a project receives when it has none:
/// a hidden base configure profile with the default generator and output
/// directory.
pub fn base_presets_content() -> (r: String)
    ensures
        r@
            == "{\"version\":6,\"configurePresets\":[{\"name\":\"base\",\"hidden\":true,\"generator\":\"Ninja\",\"binaryDir\":\"${sourceDir}/build\",\"cacheVariables\":{\"CMAKE_EXPORT_COMPILE_COMMANDS\":\"ON\"}}]}"@,
{
    String::from_str(
        "{\"version\":6,\"configurePresets\":[{\"name\":\"base\",\"hidden\":true,\"generator\":\"Ninja\",\"binaryDir\":\"${sourceDir}/build\",\"cacheVariables\":{\"CMAKE_EXPORT_COMPILE_COMMANDS\":\"ON\"}}]}",
    )
}

} // verus!
