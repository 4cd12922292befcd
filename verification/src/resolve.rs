//! The path resolution engine: derives the native-build prefix-path list,
//! the UI-module import-path list, per-component named variables and the
//! process-environment path lists from a registry and a toolchain snapshot.
//!
//! The precedence rule runs through every list: source-linked paths are
//! appended first and the shared SDK's paths last, so a dependency resolves
//! from a local source build before falling back to the shared install.

use vstd::prelude::*;
use crate::paths::fwd_slashes;
use crate::paths::spec_parent_fwd;
use crate::paths::parent_dir_fwd;
use crate::paths::str_eq;
use crate::paths::str_starts_with;
use crate::paths::to_forward_slashes;
use crate::paths::vec_contains_str;
use crate::registry::ComponentMode;
use crate::registry::DevConfig;
use crate::registry::DevConfigView;
use crate::registry::EntryView;

verus! {

/// The dedicated build-system variable name for a component, if it has one.
pub open spec fn spec_named_var(name: Seq<char>) -> Option<Seq<char>> {
    if name == "ui-components"@ {
        Some("MPFUIComponents_DIR"@)
    } else if name == "http-client"@ {
        Some("MPFHttpClient_DIR"@)
    } else {
        None
    }
}

/// Maps a component name to its dedicated build-system package-directory
/// variable, for the small fixed set of names that have one.
pub fn component_cmake_dir_var(name: &str) -> (r: Option<String>)
    ensures
        r.deep_view() == spec_named_var(name@),
{
    if str_eq(name, "ui-components") {
        Some(String::from_str("MPFUIComponents_DIR"))
    } else if str_eq(name, "http-client") {
        Some(String::from_str("MPFHttpClient_DIR"))
    } else {
        None
    }
}

/// Whether an entry contributes to the generic prefix-path list: a
/// `Source`-mode component that is not the SDK, not the host, not a plugin,
/// has no dedicated named variable, and carries a `lib` path.
pub open spec fn in_generic_prefix(e: EntryView) -> bool {
    &&& e.config.mode == ComponentMode::Source
    &&& e.name != "sdk"@
    &&& e.name != "host"@
    &&& !"plugin-"@.is_prefix_of(e.name)
    &&& spec_named_var(e.name) is None
    &&& e.config.lib is Some
}

/// The directory an entry would add to the generic prefix-path list.
pub open spec fn prefix_entry_dir(e: EntryView) -> Option<Seq<char>> {
    if in_generic_prefix(e) {
        spec_parent_fwd(e.config.lib.unwrap())
    } else {
        None
    }
}

/// One step of the prefix-path fold: append the entry's directory unless it
/// is already present.
pub open spec fn prefix_step(acc: Seq<Seq<char>>, e: EntryView) -> Seq<Seq<char>> {
    match prefix_entry_dir(e) {
        Some(p) => if acc.contains(p) {
            acc
        } else {
            acc.push(p)
        },
        None => acc,
    }
}

/// The prefix-path fold over the remaining entries.
pub open spec fn prefix_tail(entries: Seq<EntryView>, acc: Seq<Seq<char>>) -> Seq<Seq<char>>
    decreases entries.len(),
{
    if entries.len() == 0 {
        acc
    } else {
        prefix_tail(entries.skip(1), prefix_step(acc, entries[0]))
    }
}

/// The head of the prefix-path list: the locally linked SDK's install root
/// if there is one, then the toolkit root, then the shared SDK's current
/// version directory.
pub open spec fn spec_prefix_head(cfg: DevConfigView, toolkit: Seq<char>, cur: Seq<char>) -> Seq<
    Seq<char>,
> {
    let base = seq![fwd_slashes(toolkit), fwd_slashes(cur)];
    if cfg.has("sdk"@) && cfg.get("sdk"@).mode == ComponentMode::Source && cfg.get(
        "sdk"@,
    ).lib is Some {
        match spec_parent_fwd(cfg.get("sdk"@).lib.unwrap()) {
            Some(p) => seq![p] + base,
            None => base,
        }
    } else {
        base
    }
}

/// The full prefix-path list: the head, then every other source component's
/// `lib` parent, de-duplicated order-preservingly.
pub open spec fn spec_prefix_paths(cfg: DevConfigView, toolkit: Seq<char>, cur: Seq<char>) -> Seq<
    Seq<char>,
> {
    prefix_tail(cfg.components, spec_prefix_head(cfg, toolkit, cur))
}

/// Derives the ordered list of install-root directories a native build
/// should search for dependencies, as `spec_prefix_paths` describes.
pub fn resolve_prefix_paths(cfg: &DevConfig, toolkit_root: &str, sdk_current: &str) -> (r: Vec<
    String,
>)
    requires
        cfg@.wf(),
    ensures
        r.deep_view() == spec_prefix_paths(cfg@, toolkit_root@, sdk_current@),
{
    let mut acc: Vec<String> = Vec::new();
    match cfg.get("sdk") {
        Some(c) => {
            if c.mode == ComponentMode::Source {
                match &c.lib {
                    Some(lib) => {
                        match parent_dir_fwd(lib.as_str()) {
                            Some(p) => {
                                acc.push(p);
                            },
                            None => {},
                        }
                    },
                    None => {},
                }
            }
        },
        None => {},
    }
    acc.push(to_forward_slashes(toolkit_root));
    acc.push(to_forward_slashes(sdk_current));
    proof {
        assert(acc.deep_view() =~= spec_prefix_head(cfg@, toolkit_root@, sdk_current@));
    }
    let ghost head = acc.deep_view();
    proof {
        assert(cfg@.components.skip(0) =~= cfg@.components);
    }
    let n = cfg.components.len();
    let mut i: usize = 0;
    while i < n
        invariant
            i <= n,
            n == cfg.components@.len(),
            cfg@.wf(),
            prefix_tail(cfg@.components.skip(i as int), acc.deep_view()) == prefix_tail(
                cfg@.components,
                head,
            ),
        decreases n - i,
    {
        let ghost pre = acc.deep_view();
        let ghost ev = cfg@.components[i as int];
        let e = &cfg.components[i];
        let mut eligible = e.config.mode == ComponentMode::Source;
        if eligible {
            eligible = !str_eq(e.name.as_str(), "sdk") && !str_eq(e.name.as_str(), "host")
                && !str_starts_with(e.name.as_str(), "plugin-");
        }
        if eligible {
            eligible = component_cmake_dir_var(e.name.as_str()).is_none();
        }
        if eligible {
            match &e.config.lib {
                Some(lib) => {
                    match parent_dir_fwd(lib.as_str()) {
                        Some(p) => {
                            if !vec_contains_str(&acc, p.as_str()) {
                                acc.push(p);
                                proof {
                                    assert(acc.deep_view() =~= pre.push(p@));
                                }
                            }
                        },
                        None => {},
                    }
                },
                None => {},
            }
        }
        proof {
            assert(acc.deep_view() == prefix_step(pre, ev));
            assert(cfg@.components.skip(i as int).skip(1) =~= cfg@.components.skip(i as int + 1));
            assert(cfg@.components.skip(i as int)[0] == ev);
        }
        i += 1;
    }
    proof {
        assert(cfg@.components.skip(n as int) =~= Seq::<EntryView>::empty());
        assert(cfg@.components.skip(0) =~= cfg@.components);
    }
    acc
}

/// How many elements of the sequence equal the value.
pub open spec fn count_of(s: Seq<Seq<char>>, x: Seq<char>) -> nat
    decreases s.len(),
{
    if s.len() == 0 {
        0
    } else {
        count_of(s.drop_last(), x) + (if s.last() == x {
            1nat
        } else {
            0nat
        })
    }
}

/// Appending one element raises the count by one exactly for that value.
proof fn lemma_count_push(s: Seq<Seq<char>>, x: Seq<char>, y: Seq<char>)
    ensures
        count_of(s.push(y), x) == count_of(s, x) + (if y == x {
            1nat
        } else {
            0nat
        }),
{
    assert(s.push(y).drop_last() =~= s);
    assert(s.push(y).last() == y);
}

/// A value occurs in a sequence exactly when its count is positive.
proof fn lemma_count_contains(s: Seq<Seq<char>>, x: Seq<char>)
    ensures
        s.contains(x) <==> count_of(s, x) > 0,
    decreases s.len(),
{
    if s.len() == 0 {
    } else {
        lemma_count_contains(s.drop_last(), x);
        if s.last() == x {
            assert(s[s.len() - 1] == x);
        } else {
            assert(s.contains(x) <==> s.drop_last().contains(x)) by {
                if s.contains(x) {
                    let i = choose|i: int| 0 <= i < s.len() && s[i] == x;
                    assert(i < s.len() - 1);
                    assert(s.drop_last()[i] == x);
                }
                if s.drop_last().contains(x) {
                    let i = choose|i: int|
                        0 <= i < s.drop_last().len() && s.drop_last()[i] == x;
                    assert(s[i] == x);
                }
            }
        }
    }
}

/// The fold never removes an element already present.
proof fn lemma_tail_keeps(entries: Seq<EntryView>, acc: Seq<Seq<char>>, x: Seq<char>)
    requires
        acc.contains(x),
    ensures
        prefix_tail(entries, acc).contains(x),
    decreases entries.len(),
{
    if entries.len() == 0 {
    } else {
        let acc2 = prefix_step(acc, entries[0]);
        assert(acc2.contains(x)) by {
            let i = choose|i: int| 0 <= i < acc.len() && acc[i] == x;
            match prefix_entry_dir(entries[0]) {
                Some(p) => {
                    if !acc.contains(p) {
                        assert(acc.push(p)[i] == x);
                    }
                },
                None => {},
            }
        }
        lemma_tail_keeps(entries.skip(1), acc2, x);
    }
}

/// The fold keeps every value's count at one or below when it starts so.
proof fn lemma_tail_count(entries: Seq<EntryView>, acc: Seq<Seq<char>>, x: Seq<char>)
    requires
        count_of(acc, x) <= 1,
    ensures
        count_of(prefix_tail(entries, acc), x) <= 1,
        count_of(acc, x) == 1 ==> count_of(prefix_tail(entries, acc), x) == 1,
    decreases entries.len(),
{
    if entries.len() == 0 {
    } else {
        let acc2 = prefix_step(acc, entries[0]);
        assert(count_of(acc2, x) <= 1 && (count_of(acc, x) == 1 ==> count_of(acc2, x) == 1)) by {
            match prefix_entry_dir(entries[0]) {
                Some(p) => {
                    if !acc.contains(p) {
                        lemma_count_push(acc, x, p);
                        lemma_count_contains(acc, x);
                        if p == x {
                            assert(count_of(acc, x) == 0);
                        }
                    }
                },
                None => {},
            }
        }
        lemma_tail_count(entries.skip(1), acc2, x);
    }
}

/// An entry's directory ends up in the fold's result.
proof fn lemma_tail_adds(entries: Seq<EntryView>, acc: Seq<Seq<char>>, k: int)
    requires
        0 <= k < entries.len(),
        prefix_entry_dir(entries[k]) is Some,
    ensures
        prefix_tail(entries, acc).contains(prefix_entry_dir(entries[k]).unwrap()),
    decreases entries.len(),
{
    let p = prefix_entry_dir(entries[k]).unwrap();
    let acc2 = prefix_step(acc, entries[0]);
    if k == 0 {
        assert(acc2.contains(p)) by {
            if !acc.contains(p) {
                assert(acc.push(p)[acc.len() as int] == p);
            } else {
                let i = choose|i: int| 0 <= i < acc.len() && acc[i] == p;
                assert(prefix_step(acc, entries[0])[i] == p);
            }
        }
        lemma_tail_keeps(entries.skip(1), acc2, p);
    } else {
        assert(entries.skip(1)[k - 1] == entries[k]);
        lemma_tail_adds(entries.skip(1), acc2, k - 1);
    }
}

/// De-duplication of the prefix-path list: a directory that is not among
/// the head entries appears at most once, and exactly once as soon as some
/// component contributes it.
pub proof fn lemma_prefix_paths_dedup(
    cfg: DevConfigView,
    toolkit: Seq<char>,
    cur: Seq<char>,
    d: Seq<char>,
)
    requires
        !spec_prefix_head(cfg, toolkit, cur).contains(d),
    ensures
        count_of(spec_prefix_paths(cfg, toolkit, cur), d) <= 1,
        (exists|i: int|
            0 <= i < cfg.components.len() && prefix_entry_dir(#[trigger] cfg.components[i])
                == Some(d)) ==> count_of(spec_prefix_paths(cfg, toolkit, cur), d) == 1,
{
    let head = spec_prefix_head(cfg, toolkit, cur);
    lemma_count_contains(head, d);
    lemma_tail_count(cfg.components, head, d);
    if exists|i: int|
        0 <= i < cfg.components.len() && prefix_entry_dir(#[trigger] cfg.components[i]) == Some(
            d,
        ) {
        let i = choose|i: int|
            0 <= i < cfg.components.len() && prefix_entry_dir(#[trigger] cfg.components[i])
                == Some(d);
        lemma_tail_adds(cfg.components, head, i);
        lemma_count_contains(spec_prefix_paths(cfg, toolkit, cur), d);
    }
}

/// One step of the import-path fold: a source component's UI-module
/// directory, forward-slashed, appended unless already present.
pub open spec fn qml_step(acc: Seq<Seq<char>>, e: EntryView) -> Seq<Seq<char>> {
    if e.config.mode == ComponentMode::Source && e.config.qml is Some {
        let q = fwd_slashes(e.config.qml.unwrap());
        if acc.contains(q) {
            acc
        } else {
            acc.push(q)
        }
    } else {
        acc
    }
}

/// The import-path fold over the remaining entries.
pub open spec fn qml_tail(entries: Seq<EntryView>, acc: Seq<Seq<char>>) -> Seq<Seq<char>>
    decreases entries.len(),
{
    if entries.len() == 0 {
        acc
    } else {
        qml_tail(entries.skip(1), qml_step(acc, entries[0]))
    }
}

/// The UI-module import-path list: every source component's UI-module
/// directory, de-duplicated, then the shared SDK's and the toolkit's.
pub open spec fn spec_qml_import_paths(
    cfg: DevConfigView,
    toolkit: Seq<char>,
    cur: Seq<char>,
) -> Seq<Seq<char>> {
    qml_tail(cfg.components, Seq::empty()) + seq![
        fwd_slashes(cur) + seq!['/'] + "qml"@,
        fwd_slashes(toolkit) + seq!['/'] + "qml"@,
    ]
}

/// Derives the ordered list of directories the UI-module loader should
/// search, as `spec_qml_import_paths` describes.
pub fn resolve_qml_import_paths(cfg: &DevConfig, toolkit_root: &str, sdk_current: &str) -> (r: Vec<
    String,
>)
    ensures
        r.deep_view() == spec_qml_import_paths(cfg@, toolkit_root@, sdk_current@),
{
    let mut acc: Vec<String> = Vec::new();
    proof {
        assert(acc.deep_view() =~= Seq::<Seq<char>>::empty());
        assert(cfg@.components.skip(0) =~= cfg@.components);
    }
    let n = cfg.components.len();
    let mut i: usize = 0;
    while i < n
        invariant
            i <= n,
            n == cfg.components@.len(),
            qml_tail(cfg@.components.skip(i as int), acc.deep_view()) == qml_tail(
                cfg@.components,
                Seq::empty(),
            ),
        decreases n - i,
    {
        let ghost pre = acc.deep_view();
        let ghost ev = cfg@.components[i as int];
        let e = &cfg.components[i];
        if e.config.mode == ComponentMode::Source {
            match &e.config.qml {
                Some(qml) => {
                    let q = to_forward_slashes(qml.as_str());
                    if !vec_contains_str(&acc, q.as_str()) {
                        acc.push(q);
                        proof {
                            assert(acc.deep_view() =~= pre.push(fwd_slashes(
                                ev.config.qml.unwrap(),
                            )));
                        }
                    }
                },
                None => {},
            }
        }
        proof {
            assert(acc.deep_view() == qml_step(pre, ev));
            assert(cfg@.components.skip(i as int).skip(1) =~= cfg@.components.skip(i as int + 1));
            assert(cfg@.components.skip(i as int)[0] == ev);
        }
        i += 1;
    }
    proof {
        assert(cfg@.components.skip(n as int) =~= Seq::<EntryView>::empty());
    }
    let cur_fwd = to_forward_slashes(sdk_current);
    let tk_fwd = to_forward_slashes(toolkit_root);
    let ghost srcpart = acc.deep_view();
    acc.push(crate::paths::join_path(cur_fwd.as_str(), "qml"));
    acc.push(crate::paths::join_path(tk_fwd.as_str(), "qml"));
    proof {
        assert(acc.deep_view() =~= srcpart + seq![
            fwd_slashes(sdk_current@) + seq!['/'] + "qml"@,
            fwd_slashes(toolkit_root@) + seq!['/'] + "qml"@,
        ]);
    }
    acc
}

/// Mathematical view of a named build-cache variable.
pub struct CacheVarView {
    pub key: Seq<char>,
    pub value: Seq<char>,
}

/// A named build-cache variable and its value.
#[derive(Clone, Debug)]
pub struct CacheVar {
    pub key: String,
    pub value: String,
}

impl View for CacheVar {
    type V = CacheVarView;

    open spec fn view(&self) -> CacheVarView {
        CacheVarView { key: self.key@, value: self.value@ }
    }
}

impl DeepView for CacheVar {
    type V = CacheVarView;

    open spec fn deep_view(&self) -> CacheVarView {
        self.view()
    }
}

/// The install root a named variable points at: the `lib` directory's
/// parent, falling back to the `headers` directory's parent. A path
/// without a separator has no parent and yields nothing.
pub open spec fn named_var_dir(c: crate::registry::ComponentView) -> Option<Seq<char>> {
    let from_lib = if c.lib is Some {
        spec_parent_fwd(c.lib.unwrap())
    } else {
        None
    };
    if from_lib is Some {
        from_lib
    } else if c.headers is Some {
        spec_parent_fwd(c.headers.unwrap())
    } else {
        None
    }
}

/// One step of the named-variable fold.
pub open spec fn vars_step(acc: Seq<CacheVarView>, e: EntryView) -> Seq<CacheVarView> {
    if e.config.mode == ComponentMode::Source && spec_named_var(e.name) is Some {
        match named_var_dir(e.config) {
            Some(d) => acc.push(CacheVarView { key: spec_named_var(e.name).unwrap(), value: d }),
            None => acc,
        }
    } else {
        acc
    }
}

/// The named-variable fold over the remaining entries.
pub open spec fn vars_tail(entries: Seq<EntryView>, acc: Seq<CacheVarView>) -> Seq<CacheVarView>
    decreases entries.len(),
{
    if entries.len() == 0 {
        acc
    } else {
        vars_tail(entries.skip(1), vars_step(acc, entries[0]))
    }
}

/// The named package-directory variables: one per source-linked component
/// of the fixed table, valued at its resolved install root.
pub open spec fn spec_cache_vars(cfg: DevConfigView) -> Seq<CacheVarView> {
    vars_tail(cfg.components, Seq::empty())
}

/// Derives the named package-directory variables, as `spec_cache_vars`
/// describes.
pub fn resolve_cache_vars(cfg: &DevConfig) -> (r: Vec<CacheVar>)
    ensures
        r.deep_view() == spec_cache_vars(cfg@),
{
    let mut acc: Vec<CacheVar> = Vec::new();
    proof {
        assert(acc.deep_view() =~= Seq::<CacheVarView>::empty());
        assert(cfg@.components.skip(0) =~= cfg@.components);
    }
    let n = cfg.components.len();
    let mut i: usize = 0;
    while i < n
        invariant
            i <= n,
            n == cfg.components@.len(),
            vars_tail(cfg@.components.skip(i as int), acc.deep_view()) == vars_tail(
                cfg@.components,
                Seq::empty(),
            ),
        decreases n - i,
    {
        let ghost pre = acc.deep_view();
        let ghost ev = cfg@.components[i as int];
        let e = &cfg.components[i];
        if e.config.mode == ComponentMode::Source {
            match component_cmake_dir_var(e.name.as_str()) {
                Some(key) => {
                    let mut dir: Option<String> = None;
                    match &e.config.lib {
                        Some(lib) => {
                            dir = parent_dir_fwd(lib.as_str());
                        },
                        None => {},
                    }
                    if dir.is_none() {
                        match &e.config.headers {
                            Some(h) => {
                                dir = parent_dir_fwd(h.as_str());
                            },
                            None => {},
                        }
                    }
                    proof {
                        assert(dir.deep_view() == named_var_dir(ev.config));
                    }
                    match dir {
                        Some(value) => {
                            acc.push(CacheVar { key, value });
                            proof {
                                assert(acc.deep_view() =~= pre.push(
                                    CacheVarView {
                                        key: spec_named_var(ev.name).unwrap(),
                                        value: named_var_dir(ev.config).unwrap(),
                                    },
                                ));
                            }
                        },
                        None => {},
                    }
                },
                None => {},
            }
        }
        proof {
            assert(acc.deep_view() == vars_step(pre, ev));
            assert(cfg@.components.skip(i as int).skip(1) =~= cfg@.components.skip(i as int + 1));
            assert(cfg@.components.skip(i as int)[0] == ev);
        }
        i += 1;
    }
    proof {
        assert(cfg@.components.skip(n as int) =~= Seq::<EntryView>::empty());
    }
    acc
}

/// The platform the tool runs on; it decides the path-list separator and
/// the host executable's file name.
#[derive(Clone, Copy, Debug, PartialEq, Eq, Structural)]
pub enum Platform {
    Windows,
    Unix,
}

/// The platform's path-list separator.
pub open spec fn spec_sep(p: Platform) -> char {
    if p == Platform::Windows {
        ';'
    } else {
        ':'
    }
}

/// The host executable's file name on the platform.
pub open spec fn spec_host_exe(p: Platform) -> Seq<char> {
    if p == Platform::Windows {
        "mpf-host.exe"@
    } else {
        "mpf-host"@
    }
}

/// The host executable's file name on the platform.
pub fn host_exe_name(p: Platform) -> (r: &'static str)
    ensures
        r@ == spec_host_exe(p),
{
    match p {
        Platform::Windows => "mpf-host.exe",
        Platform::Unix => "mpf-host",
    }
}

/// One step of the library-search-path fold: a source component's `lib`
/// directory, then its sibling `bin` directory when that directory
/// exists; each appended only when not already present.
pub open spec fn lib_step(acc: Seq<Seq<char>>, e: EntryView, existing: Seq<Seq<char>>) -> Seq<
    Seq<char>,
> {
    if e.config.mode == ComponentMode::Source && e.config.lib is Some {
        let l = e.config.lib.unwrap();
        let acc1 = if acc.contains(l) {
            acc
        } else {
            acc.push(l)
        };
        match spec_parent_fwd(l) {
            Some(par) => {
                let sib = par + seq!['/'] + "bin"@;
                if existing.contains(sib) && !acc1.contains(sib) {
                    acc1.push(sib)
                } else {
                    acc1
                }
            },
            None => acc1,
        }
    } else {
        acc
    }
}

/// The library-search-path fold over the remaining entries.
pub open spec fn lib_tail(
    entries: Seq<EntryView>,
    acc: Seq<Seq<char>>,
    existing: Seq<Seq<char>>,
) -> Seq<Seq<char>>
    decreases entries.len(),
{
    if entries.len() == 0 {
        acc
    } else {
        lib_tail(entries.skip(1), lib_step(acc, entries[0], existing), existing)
    }
}

/// The library-search-path list: every source component's `lib` directory
/// (each followed by its existing sibling `bin`), then the shared SDK's
/// `lib` and `bin` directories as fallback; the whole list de-duplicated
/// order-preservingly by exact string.
pub open spec fn spec_lib_dirs(
    cfg: DevConfigView,
    cur: Seq<char>,
    existing: Seq<Seq<char>>,
) -> Seq<Seq<char>> {
    let src = lib_tail(cfg.components, Seq::empty(), existing);
    let sdk_lib = cur + seq!['/'] + "lib"@;
    let sdk_bin = cur + seq!['/'] + "bin"@;
    let with_lib = if src.contains(sdk_lib) {
        src
    } else {
        src.push(sdk_lib)
    };
    if with_lib.contains(sdk_bin) {
        with_lib
    } else {
        with_lib.push(sdk_bin)
    }
}

/// One step of the plugin-discovery fold: a non-host, non-SDK source
/// component's `lib` directory.
pub open spec fn mpf_step(acc: Seq<Seq<char>>, e: EntryView) -> Seq<Seq<char>> {
    if e.config.mode == ComponentMode::Source && e.config.lib is Some && e.name != "host"@
        && e.name != "sdk"@ {
        acc.push(e.config.lib.unwrap())
    } else {
        acc
    }
}

/// The plugin-discovery fold over the remaining entries.
pub open spec fn mpf_tail(entries: Seq<EntryView>, acc: Seq<Seq<char>>) -> Seq<Seq<char>>
    decreases entries.len(),
{
    if entries.len() == 0 {
        acc
    } else {
        mpf_tail(entries.skip(1), mpf_step(acc, entries[0]))
    }
}

/// One step of the environment import-path fold: a source component's
/// UI-module directory, as stored.
pub open spec fn envqml_step(acc: Seq<Seq<char>>, e: EntryView) -> Seq<Seq<char>> {
    if e.config.mode == ComponentMode::Source && e.config.qml is Some {
        acc.push(e.config.qml.unwrap())
    } else {
        acc
    }
}

/// The environment import-path fold over the remaining entries.
pub open spec fn envqml_tail(entries: Seq<EntryView>, acc: Seq<Seq<char>>) -> Seq<Seq<char>>
    decreases entries.len(),
{
    if entries.len() == 0 {
        acc
    } else {
        envqml_tail(entries.skip(1), envqml_step(acc, entries[0]))
    }
}

/// One step of the UI-plugin-path fold: a source component's plugin build
/// root, as stored.
pub open spec fn plug_step(acc: Seq<Seq<char>>, e: EntryView) -> Seq<Seq<char>> {
    if e.config.mode == ComponentMode::Source && e.config.plugin is Some {
        acc.push(e.config.plugin.unwrap())
    } else {
        acc
    }
}

/// The UI-plugin-path fold over the remaining entries.
pub open spec fn plug_tail(entries: Seq<EntryView>, acc: Seq<Seq<char>>) -> Seq<Seq<char>>
    decreases entries.len(),
{
    if entries.len() == 0 {
        acc
    } else {
        plug_tail(entries.skip(1), plug_step(acc, entries[0]))
    }
}

/// The linked host component's executable directory, if the host is
/// source-linked with one.
pub open spec fn spec_host_bin_override(cfg: DevConfigView) -> Option<Seq<char>> {
    if cfg.has("host"@) && cfg.get("host"@).mode == ComponentMode::Source && cfg.get(
        "host"@,
    ).bin is Some {
        Some(cfg.get("host"@).bin.unwrap())
    } else {
        None
    }
}

/// The linked host component's UI-module override, if the host is
/// source-linked with one.
pub open spec fn spec_host_qml_override(cfg: DevConfigView) -> Option<Seq<char>> {
    if cfg.has("host"@) && cfg.get("host"@).mode == ComponentMode::Source && cfg.get(
        "host"@,
    ).qml is Some {
        Some(cfg.get("host"@).qml.unwrap())
    } else {
        None
    }
}

/// The path of the host executable to launch: the linked host's `bin`
/// directory if there is one, else the shared SDK's, joined with the
/// platform's executable name.
pub open spec fn spec_host_path(cfg: DevConfigView, cur: Seq<char>, p: Platform) -> Seq<char> {
    match spec_host_bin_override(cfg) {
        Some(b) => b + seq!['/'] + spec_host_exe(p),
        None => cur + seq!['/'] + "bin"@ + seq!['/'] + spec_host_exe(p),
    }
}

/// Mathematical view of the resolved process-environment paths.
pub struct EnvPathsView {
    pub sdk_root: Seq<char>,
    pub lib_dirs: Seq<Seq<char>>,
    pub qml_dirs: Seq<Seq<char>>,
    pub qt_plugin_dirs: Seq<Seq<char>>,
    pub mpf_plugin_dirs: Seq<Seq<char>>,
    pub host_path: Seq<char>,
    pub host_qml: Option<Seq<char>>,
}

/// The resolved process-environment paths for launching the host: ordered
/// directory lists, the host executable path, and the optional UI override.
#[derive(Clone, Debug)]
pub struct EnvPaths {
    pub sdk_root: String,
    pub lib_dirs: Vec<String>,
    pub qml_dirs: Vec<String>,
    pub qt_plugin_dirs: Vec<String>,
    pub mpf_plugin_dirs: Vec<String>,
    pub host_path: String,
    pub host_qml: Option<String>,
}

impl View for EnvPaths {
    type V = EnvPathsView;

    open spec fn view(&self) -> EnvPathsView {
        EnvPathsView {
            sdk_root: self.sdk_root@,
            lib_dirs: self.lib_dirs.deep_view(),
            qml_dirs: self.qml_dirs.deep_view(),
            qt_plugin_dirs: self.qt_plugin_dirs.deep_view(),
            mpf_plugin_dirs: self.mpf_plugin_dirs.deep_view(),
            host_path: self.host_path@,
            host_qml: self.host_qml.deep_view(),
        }
    }
}

/// What the resolved environment paths are, field by field.
pub open spec fn spec_env_paths(
    cfg: DevConfigView,
    cur: Seq<char>,
    existing: Seq<Seq<char>>,
    p: Platform,
) -> EnvPathsView {
    EnvPathsView {
        sdk_root: cur,
        lib_dirs: spec_lib_dirs(cfg, cur, existing),
        qml_dirs: envqml_tail(cfg.components, Seq::empty()) + seq![cur + seq!['/'] + "qml"@],
        qt_plugin_dirs: plug_tail(cfg.components, Seq::empty()) + seq![
            cur + seq!['/'] + "plugins"@,
        ],
        mpf_plugin_dirs: mpf_tail(cfg.components, Seq::empty()),
        host_path: spec_host_path(cfg, cur, p),
        host_qml: spec_host_qml_override(cfg),
    }
}

/// The sibling `bin` directories that the library-search path would use if
/// they exist: one candidate per source component with a `lib` path.
pub fn sibling_bin_candidates(cfg: &DevConfig) -> (r: Vec<String>)
    ensures
        forall|q: Seq<char>|
            r.deep_view().contains(q) ==> exists|i: int|
                0 <= i < cfg@.components.len() && {
                    let e = #[trigger] cfg@.components[i];
                    &&& e.config.lib is Some
                    &&& spec_parent_fwd(e.config.lib.unwrap()) is Some
                    &&& q == spec_parent_fwd(e.config.lib.unwrap()).unwrap() + seq!['/'] + "bin"@
                },
        forall|i: int|
            0 <= i < cfg@.components.len() ==> {
                let e = #[trigger] cfg@.components[i];
                (e.config.mode == ComponentMode::Source && e.config.lib is Some
                    && spec_parent_fwd(e.config.lib.unwrap()) is Some) ==> r.deep_view().contains(
                    spec_parent_fwd(e.config.lib.unwrap()).unwrap() + seq!['/'] + "bin"@,
                )
            },
{
    let mut r: Vec<String> = Vec::new();
    let n = cfg.components.len();
    let mut i: usize = 0;
    while i < n
        invariant
            i <= n,
            n == cfg.components@.len(),
            forall|q: Seq<char>|
                r.deep_view().contains(q) ==> exists|k: int|
                    0 <= k < cfg@.components.len() && {
                        let e = #[trigger] cfg@.components[k];
                        &&& e.config.lib is Some
                        &&& spec_parent_fwd(e.config.lib.unwrap()) is Some
                        &&& q == spec_parent_fwd(e.config.lib.unwrap()).unwrap() + seq!['/']
                            + "bin"@
                    },
            forall|k: int|
                0 <= k < i ==> {
                    let e = #[trigger] cfg@.components[k];
                    (e.config.mode == ComponentMode::Source && e.config.lib is Some
                        && spec_parent_fwd(e.config.lib.unwrap()) is Some)
                        ==> r.deep_view().contains(
                        spec_parent_fwd(e.config.lib.unwrap()).unwrap() + seq!['/'] + "bin"@,
                    )
                },
        decreases n - i,
    {
        let ghost prev = r.deep_view();
        let e = &cfg.components[i];
        if e.config.mode == ComponentMode::Source {
            match &e.config.lib {
                Some(lib) => {
                    match parent_dir_fwd(lib.as_str()) {
                        Some(par) => {
                            let sib = crate::paths::join_path(par.as_str(), "bin");
                            r.push(sib);
                            proof {
                                let ghost newq = spec_parent_fwd(
                                    cfg@.components[i as int].config.lib.unwrap(),
                                ).unwrap() + seq!['/'] + "bin"@;
                                assert(r.deep_view() =~= prev.push(newq));
                                assert(r.deep_view()[prev.len() as int] == newq);
                                assert(r.deep_view().contains(newq));
                                assert forall|q: Seq<char>|
                                    r.deep_view().contains(q) implies exists|k: int|
                                    0 <= k < cfg@.components.len() && {
                                        let e2 = #[trigger] cfg@.components[k];
                                        &&& e2.config.lib is Some
                                        &&& spec_parent_fwd(e2.config.lib.unwrap()) is Some
                                        &&& q == spec_parent_fwd(e2.config.lib.unwrap()).unwrap()
                                            + seq!['/'] + "bin"@
                                    } by {
                                    let j = choose|j: int|
                                        0 <= j < r.deep_view().len() && r.deep_view()[j] == q;
                                    if j < prev.len() {
                                        assert(prev[j] == q);
                                        assert(prev.contains(q));
                                    } else {
                                        assert(q == newq);
                                        assert(cfg@.components[i as int].config.lib is Some);
                                    }
                                }
                            }
                        },
                        None => {},
                    }
                },
                None => {},
            }
        }
        proof {
            assert(forall|j: int| 0 <= j < prev.len() ==> r.deep_view()[j] == prev[j]);
            assert forall|q: Seq<char>| prev.contains(q) implies r.deep_view().contains(q) by {
                let j = choose|j: int| 0 <= j < prev.len() && prev[j] == q;
                assert(r.deep_view()[j] == q);
            }
        }
        i += 1;
    }
    r
}

/// Resolves the process-environment path lists for launching the host, as
/// `spec_env_paths` describes. `existing_dirs` names the sibling `bin`
/// candidates that exist on disk.
pub fn resolve_env_paths(
    cfg: &DevConfig,
    sdk_current: &str,
    existing_dirs: &Vec<String>,
    platform: Platform,
) -> (r: EnvPaths)
    requires
        cfg@.wf(),
    ensures
        r@ == spec_env_paths(cfg@, sdk_current@, existing_dirs.deep_view(), platform),
{
    let ghost existing = existing_dirs.deep_view();
    let n = cfg.components.len();

    // Library search path.
    let mut lib_dirs: Vec<String> = Vec::new();
    proof {
        assert(lib_dirs.deep_view() =~= Seq::<Seq<char>>::empty());
        assert(cfg@.components.skip(0) =~= cfg@.components);
    }
    let mut i: usize = 0;
    while i < n
        invariant
            i <= n,
            n == cfg.components@.len(),
            existing == existing_dirs.deep_view(),
            lib_tail(cfg@.components.skip(i as int), lib_dirs.deep_view(), existing) == lib_tail(
                cfg@.components,
                Seq::empty(),
                existing,
            ),
        decreases n - i,
    {
        let ghost pre = lib_dirs.deep_view();
        let ghost ev = cfg@.components[i as int];
        let e = &cfg.components[i];
        if e.config.mode == ComponentMode::Source {
            match &e.config.lib {
                Some(lib) => {
                    if !vec_contains_str(&lib_dirs, lib.as_str()) {
                        lib_dirs.push(lib.clone());
                        proof {
                            assert(lib_dirs.deep_view() =~= pre.push(ev.config.lib.unwrap()));
                        }
                    }
                    let ghost acc1 = lib_dirs.deep_view();
                    match parent_dir_fwd(lib.as_str()) {
                        Some(par) => {
                            let sib = crate::paths::join_path(par.as_str(), "bin");
                            if vec_contains_str(existing_dirs, sib.as_str())
                                && !vec_contains_str(&lib_dirs, sib.as_str()) {
                                lib_dirs.push(sib);
                                proof {
                                    assert(lib_dirs.deep_view() =~= acc1.push(
                                        spec_parent_fwd(ev.config.lib.unwrap()).unwrap()
                                            + seq!['/'] + "bin"@,
                                    ));
                                }
                            }
                        },
                        None => {},
                    }
                },
                None => {},
            }
        }
        proof {
            assert(lib_dirs.deep_view() == lib_step(pre, ev, existing));
            assert(cfg@.components.skip(i as int).skip(1) =~= cfg@.components.skip(i as int + 1));
            assert(cfg@.components.skip(i as int)[0] == ev);
        }
        i += 1;
    }
    proof {
        assert(cfg@.components.skip(n as int) =~= Seq::<EntryView>::empty());
    }
    let ghost libsrc = lib_dirs.deep_view();
    let sdk_lib = crate::paths::join_path(sdk_current, "lib");
    if !vec_contains_str(&lib_dirs, sdk_lib.as_str()) {
        lib_dirs.push(sdk_lib);
        proof {
            assert(lib_dirs.deep_view() =~= libsrc.push(sdk_current@ + seq!['/'] + "lib"@));
        }
    }
    let ghost with_lib = lib_dirs.deep_view();
    let sdk_bin = crate::paths::join_path(sdk_current, "bin");
    if !vec_contains_str(&lib_dirs, sdk_bin.as_str()) {
        lib_dirs.push(sdk_bin);
        proof {
            assert(lib_dirs.deep_view() =~= with_lib.push(sdk_current@ + seq!['/'] + "bin"@));
        }
    }
    proof {
        assert(lib_dirs.deep_view() == spec_lib_dirs(cfg@, sdk_current@, existing));
    }

    // Environment import path.
    let mut qml_dirs: Vec<String> = Vec::new();
    proof {
        assert(qml_dirs.deep_view() =~= Seq::<Seq<char>>::empty());
    }
    let mut i2: usize = 0;
    while i2 < n
        invariant
            i2 <= n,
            n == cfg.components@.len(),
            envqml_tail(cfg@.components.skip(i2 as int), qml_dirs.deep_view()) == envqml_tail(
                cfg@.components,
                Seq::empty(),
            ),
        decreases n - i2,
    {
        let ghost pre = qml_dirs.deep_view();
        let ghost ev = cfg@.components[i2 as int];
        let e = &cfg.components[i2];
        if e.config.mode == ComponentMode::Source {
            match &e.config.qml {
                Some(q) => {
                    qml_dirs.push(q.clone());
                    proof {
                        assert(qml_dirs.deep_view() =~= pre.push(ev.config.qml.unwrap()));
                    }
                },
                None => {},
            }
        }
        proof {
            assert(qml_dirs.deep_view() == envqml_step(pre, ev));
            assert(cfg@.components.skip(i2 as int).skip(1) =~= cfg@.components.skip(
                i2 as int + 1,
            ));
            assert(cfg@.components.skip(i2 as int)[0] == ev);
        }
        i2 += 1;
    }
    let ghost qmlsrc = qml_dirs.deep_view();
    qml_dirs.push(crate::paths::join_path(sdk_current, "qml"));
    proof {
        assert(qml_dirs.deep_view() =~= qmlsrc + seq![sdk_current@ + seq!['/'] + "qml"@]);
    }

    // UI-plugin search path.
    let mut qt_plugin_dirs: Vec<String> = Vec::new();
    proof {
        assert(qt_plugin_dirs.deep_view() =~= Seq::<Seq<char>>::empty());
    }
    let mut i3: usize = 0;
    while i3 < n
        invariant
            i3 <= n,
            n == cfg.components@.len(),
            plug_tail(cfg@.components.skip(i3 as int), qt_plugin_dirs.deep_view()) == plug_tail(
                cfg@.components,
                Seq::empty(),
            ),
        decreases n - i3,
    {
        let ghost pre = qt_plugin_dirs.deep_view();
        let ghost ev = cfg@.components[i3 as int];
        let e = &cfg.components[i3];
        if e.config.mode == ComponentMode::Source {
            match &e.config.plugin {
                Some(q) => {
                    qt_plugin_dirs.push(q.clone());
                    proof {
                        assert(qt_plugin_dirs.deep_view() =~= pre.push(ev.config.plugin.unwrap()));
                    }
                },
                None => {},
            }
        }
        proof {
            assert(qt_plugin_dirs.deep_view() == plug_step(pre, ev));
            assert(cfg@.components.skip(i3 as int).skip(1) =~= cfg@.components.skip(
                i3 as int + 1,
            ));
            assert(cfg@.components.skip(i3 as int)[0] == ev);
        }
        i3 += 1;
    }
    let ghost plugsrc = qt_plugin_dirs.deep_view();
    qt_plugin_dirs.push(crate::paths::join_path(sdk_current, "plugins"));
    proof {
        assert(qt_plugin_dirs.deep_view() =~= plugsrc + seq![
            sdk_current@ + seq!['/'] + "plugins"@,
        ]);
    }

    // Plugin-discovery path.
    let mut mpf_plugin_dirs: Vec<String> = Vec::new();
    proof {
        assert(mpf_plugin_dirs.deep_view() =~= Seq::<Seq<char>>::empty());
    }
    let mut i4: usize = 0;
    while i4 < n
        invariant
            i4 <= n,
            n == cfg.components@.len(),
            mpf_tail(cfg@.components.skip(i4 as int), mpf_plugin_dirs.deep_view()) == mpf_tail(
                cfg@.components,
                Seq::empty(),
            ),
        decreases n - i4,
    {
        let ghost pre = mpf_plugin_dirs.deep_view();
        let ghost ev = cfg@.components[i4 as int];
        let e = &cfg.components[i4];
        if e.config.mode == ComponentMode::Source && !str_eq(e.name.as_str(), "host") && !str_eq(
            e.name.as_str(),
            "sdk",
        ) {
            match &e.config.lib {
                Some(l) => {
                    mpf_plugin_dirs.push(l.clone());
                    proof {
                        assert(mpf_plugin_dirs.deep_view() =~= pre.push(ev.config.lib.unwrap()));
                    }
                },
                None => {},
            }
        }
        proof {
            assert(mpf_plugin_dirs.deep_view() == mpf_step(pre, ev));
            assert(cfg@.components.skip(i4 as int).skip(1) =~= cfg@.components.skip(
                i4 as int + 1,
            ));
            assert(cfg@.components.skip(i4 as int)[0] == ev);
        }
        i4 += 1;
    }

    // Host executable path and UI override.
    let mut host_bin: Option<String> = None;
    let mut host_qml: Option<String> = None;
    match cfg.get("host") {
        Some(c) => {
            if c.mode == ComponentMode::Source {
                match &c.bin {
                    Some(b) => {
                        host_bin = Some(b.clone());
                    },
                    None => {},
                }
                match &c.qml {
                    Some(q) => {
                        host_qml = Some(q.clone());
                    },
                    None => {},
                }
            }
        },
        None => {},
    }
    proof {
        assert(host_bin.deep_view() == spec_host_bin_override(cfg@));
        assert(host_qml.deep_view() == spec_host_qml_override(cfg@));
    }
    let exe = host_exe_name(platform);
    let host_path: String = match &host_bin {
        Some(b) => crate::paths::join_path(b.as_str(), exe),
        None => {
            let sdk_bin = crate::paths::join_path(sdk_current, "bin");
            crate::paths::join_path(sdk_bin.as_str(), exe)
        },
    };
    proof {
        assert(host_path@ == spec_host_path(cfg@, sdk_current@, platform));
    }
    let r = EnvPaths {
        sdk_root: String::from_str(sdk_current),
        lib_dirs,
        qml_dirs,
        qt_plugin_dirs,
        mpf_plugin_dirs,
        host_path,
        host_qml,
    };
    r
}

/// Mathematical view of one environment variable.
pub struct EnvVarView {
    pub key: Seq<char>,
    pub value: Seq<char>,
}

/// One environment variable for the launched host process.
#[derive(Clone, Debug)]
pub struct EnvVar {
    pub key: String,
    pub value: String,
}

impl View for EnvVar {
    type V = EnvVarView;

    open spec fn view(&self) -> EnvVarView {
        EnvVarView { key: self.key@, value: self.value@ }
    }
}

impl DeepView for EnvVar {
    type V = EnvVarView;

    open spec fn deep_view(&self) -> EnvVarView {
        self.view()
    }
}

/// The library-search-path variable's name on the platform.
pub open spec fn spec_lib_var_name(p: Platform) -> Seq<char> {
    if p == Platform::Windows {
        "PATH"@
    } else {
        "LD_LIBRARY_PATH"@
    }
}

/// The environment-variable mapping for the launched host process: the
/// SDK root, the joined library search path (under the platform's
/// variable name), the import path, the UI-plugin path, the
/// plugin-discovery path only when non-empty, and the UI override only
/// when the host is linked with one.
pub open spec fn spec_host_env(env: EnvPathsView, p: Platform) -> Seq<EnvVarView> {
    let sep = spec_sep(p);
    let base = seq![
        EnvVarView { key: "MPF_SDK_ROOT"@, value: env.sdk_root },
        EnvVarView { key: spec_lib_var_name(p), value: crate::paths::spec_join_list(env.lib_dirs, sep) },
        EnvVarView { key: "QML_IMPORT_PATH"@, value: crate::paths::spec_join_list(env.qml_dirs, sep) },
        EnvVarView {
            key: "QT_PLUGIN_PATH"@,
            value: crate::paths::spec_join_list(env.qt_plugin_dirs, sep),
        },
    ];
    let with_mpf = if env.mpf_plugin_dirs.len() > 0 {
        base.push(
            EnvVarView {
                key: "MPF_PLUGIN_PATH"@,
                value: crate::paths::spec_join_list(env.mpf_plugin_dirs, sep),
            },
        )
    } else {
        base
    };
    match env.host_qml {
        Some(q) => with_mpf.push(EnvVarView { key: "MPF_QML_PATH"@, value: q }),
        None => with_mpf,
    }
}

/// Builds the environment-variable mapping for the launched host process,
/// as `spec_host_env` describes. On Windows the caller prepends the
/// existing search path to the `PATH` value before launching.
pub fn host_environment(env: &EnvPaths, platform: Platform) -> (r: Vec<EnvVar>)
    ensures
        r.deep_view() == spec_host_env(env@, platform),
{
    let sep: char = match platform {
        Platform::Windows => ';',
        Platform::Unix => ':',
    };
    let lib_name: &str = match platform {
        Platform::Windows => "PATH",
        Platform::Unix => "LD_LIBRARY_PATH",
    };
    let mut r: Vec<EnvVar> = Vec::new();
    r.push(
        EnvVar { key: String::from_str("MPF_SDK_ROOT"), value: String::from_str(
            env.sdk_root.as_str(),
        ) },
    );
    r.push(EnvVar { key: String::from_str(lib_name), value: crate::paths::join_list(&env.lib_dirs, sep) });
    r.push(
        EnvVar { key: String::from_str("QML_IMPORT_PATH"), value: crate::paths::join_list(
            &env.qml_dirs,
            sep,
        ) },
    );
    r.push(
        EnvVar { key: String::from_str("QT_PLUGIN_PATH"), value: crate::paths::join_list(
            &env.qt_plugin_dirs,
            sep,
        ) },
    );
    let ghost base = r.deep_view();
    if env.mpf_plugin_dirs.len() > 0 {
        r.push(
            EnvVar { key: String::from_str("MPF_PLUGIN_PATH"), value: crate::paths::join_list(
                &env.mpf_plugin_dirs,
                sep,
            ) },
        );
    }
    let ghost with_mpf = r.deep_view();
    match &env.host_qml {
        Some(q) => {
            r.push(EnvVar { key: String::from_str("MPF_QML_PATH"), value: q.clone() });
        },
        None => {},
    }
    proof {
        assert(r.deep_view() =~= spec_host_env(env@, platform)) by {
            assert(base =~= seq![
                EnvVarView { key: "MPF_SDK_ROOT"@, value: env@.sdk_root },
                EnvVarView {
                    key: spec_lib_var_name(platform),
                    value: crate::paths::spec_join_list(env@.lib_dirs, spec_sep(platform)),
                },
                EnvVarView {
                    key: "QML_IMPORT_PATH"@,
                    value: crate::paths::spec_join_list(env@.qml_dirs, spec_sep(platform)),
                },
                EnvVarView {
                    key: "QT_PLUGIN_PATH"@,
                    value: crate::paths::spec_join_list(env@.qt_plugin_dirs, spec_sep(platform)),
                },
            ]);
        }
    }
    r
}

/// Precedence of source links in the library search path: a source-linked
/// component's `lib` directory (and its existing sibling `bin`) stands in
/// the leading source part of the list, and whatever follows that part is
/// only the shared SDK's `lib`/`bin` fallback, so a source-linked
/// directory always precedes the fallback entries.
pub proof fn lemma_lib_precedence(
    cfg: DevConfigView,
    cur: Seq<char>,
    existing: Seq<Seq<char>>,
    name: Seq<char>,
)
    requires
        cfg.wf(),
        cfg.has(name),
        cfg.get(name).mode == ComponentMode::Source,
        cfg.get(name).lib is Some,
    ensures
        ({
            let l = spec_lib_dirs(cfg, cur, existing);
            let src = lib_tail(cfg.components, Seq::empty(), existing);
            let lib = cfg.get(name).lib.unwrap();
            &&& src.len() <= l.len()
            &&& (forall|i: int| 0 <= i < src.len() ==> l[i] == src[i])
            &&& exists|i: int| 0 <= i < src.len() && l[i] == lib
            &&& (forall|j: int|
                src.len() <= j < l.len() ==> l[j] == cur + seq!['/'] + "lib"@ || l[j] == cur
                    + seq!['/'] + "bin"@)
            &&& (spec_parent_fwd(lib) is Some && existing.contains(
                spec_parent_fwd(lib).unwrap() + seq!['/'] + "bin"@,
            ) ==> exists|i: int|
                0 <= i < src.len() && l[i] == spec_parent_fwd(lib).unwrap() + seq!['/'] + "bin"@)
        }),
{
    let src = lib_tail(cfg.components, Seq::empty(), existing);
    let l = spec_lib_dirs(cfg, cur, existing);
    let lib = cfg.get(name).lib.unwrap();
    let k = crate::registry::idx_of(cfg.components, name);
    assert(0 <= k < cfg.components.len() && cfg.components[k].name == name);
    assert(cfg.components[k].config == cfg.get(name));
    lemma_lib_tail_adds(cfg.components, Seq::empty(), existing, k);
    assert(src.contains(lib));
    let i = choose|i: int| 0 <= i < src.len() && src[i] == lib;
    assert(l[i] == lib);
    if spec_parent_fwd(lib) is Some && existing.contains(
        spec_parent_fwd(lib).unwrap() + seq!['/'] + "bin"@,
    ) {
        assert(src.contains(spec_parent_fwd(lib).unwrap() + seq!['/'] + "bin"@));
        let j = choose|j: int|
            0 <= j < src.len() && src[j] == spec_parent_fwd(lib).unwrap() + seq!['/'] + "bin"@;
        assert(l[j] == spec_parent_fwd(lib).unwrap() + seq!['/'] + "bin"@);
    }
}

/// The library-search fold never removes an element already present.
proof fn lemma_lib_tail_keeps(
    entries: Seq<EntryView>,
    acc: Seq<Seq<char>>,
    existing: Seq<Seq<char>>,
    x: Seq<char>,
)
    requires
        acc.contains(x),
    ensures
        lib_tail(entries, acc, existing).contains(x),
    decreases entries.len(),
{
    if entries.len() == 0 {
    } else {
        let acc2 = lib_step(acc, entries[0], existing);
        assert(acc2.contains(x)) by {
            let i = choose|i: int| 0 <= i < acc.len() && acc[i] == x;
            assert(acc2[i] == x);
        }
        lemma_lib_tail_keeps(entries.skip(1), acc2, existing, x);
    }
}

/// A source entry's `lib` directory, and its existing sibling `bin`, end up
/// in the library-search fold's result.
proof fn lemma_lib_tail_adds(
    entries: Seq<EntryView>,
    acc: Seq<Seq<char>>,
    existing: Seq<Seq<char>>,
    k: int,
)
    requires
        0 <= k < entries.len(),
        entries[k].config.mode == ComponentMode::Source,
        entries[k].config.lib is Some,
    ensures
        lib_tail(entries, acc, existing).contains(entries[k].config.lib.unwrap()),
        (spec_parent_fwd(entries[k].config.lib.unwrap()) is Some && existing.contains(
            spec_parent_fwd(entries[k].config.lib.unwrap()).unwrap() + seq!['/'] + "bin"@,
        )) ==> lib_tail(entries, acc, existing).contains(
            spec_parent_fwd(entries[k].config.lib.unwrap()).unwrap() + seq!['/'] + "bin"@,
        ),
    decreases entries.len(),
{
    let acc2 = lib_step(acc, entries[0], existing);
    if k == 0 {
        let lib = entries[0].config.lib.unwrap();
        let acc1 = if acc.contains(lib) {
            acc
        } else {
            acc.push(lib)
        };
        assert(acc1.contains(lib)) by {
            if !acc.contains(lib) {
                assert(acc.push(lib)[acc.len() as int] == lib);
            }
        }
        assert(acc2.contains(lib)) by {
            let i = choose|i: int| 0 <= i < acc1.len() && acc1[i] == lib;
            match spec_parent_fwd(lib) {
                Some(par) => {
                    let sib = par + seq!['/'] + "bin"@;
                    if existing.contains(sib) && !acc1.contains(sib) {
                        assert(acc1.push(sib)[i] == lib);
                    }
                },
                None => {},
            }
        }
        lemma_lib_tail_keeps(entries.skip(1), acc2, existing, lib);
        match spec_parent_fwd(lib) {
            Some(par) => {
                let sib = par + seq!['/'] + "bin"@;
                if existing.contains(sib) {
                    assert(acc2.contains(sib)) by {
                        if !acc1.contains(sib) {
                            assert(acc1.push(sib).last() == sib);
                        } else {
                            let i = choose|i: int| 0 <= i < acc1.len() && acc1[i] == sib;
                            assert(acc2[i] == sib);
                        }
                    }
                    lemma_lib_tail_keeps(entries.skip(1), acc2, existing, sib);
                }
            },
            None => {},
        }
    } else {
        assert(entries.skip(1)[k - 1] == entries[k]);
        lemma_lib_tail_adds(entries.skip(1), acc2, existing, k - 1);
    }
}

/// With no components registered, the prefix-path list is exactly the
/// toolkit root followed by the shared SDK's current version directory.
pub proof fn lemma_prefix_paths_empty_registry(
    cfg: DevConfigView,
    toolkit: Seq<char>,
    cur: Seq<char>,
)
    requires
        cfg.components.len() == 0,
    ensures
        spec_prefix_paths(cfg, toolkit, cur) == seq![fwd_slashes(toolkit), fwd_slashes(cur)],
{
    assert(!cfg.has("sdk"@));
}

} // verus!
