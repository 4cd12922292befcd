//! The component registry: the persisted model of which components are
//! consumed from the shared SDK install and which are linked to local builds.
//!
//! A registry maps component names to their mode and resolved paths. Names
//! are unique; inserting an existing name replaces its entry wholesale.

use vstd::prelude::*;

verus! {

/// Mode in which a component is consumed: from the shared, versioned SDK
/// install, or from an explicitly linked local build.
#[derive(Clone, Copy, Debug, PartialEq, Eq, Structural)]
pub enum ComponentMode {
    Binary,
    Source,
}

/// Mathematical view of a component's settings.
pub struct ComponentView {
    pub mode: ComponentMode,
    pub lib: Option<Seq<char>>,
    pub qml: Option<Seq<char>>,
    pub plugin: Option<Seq<char>>,
    pub headers: Option<Seq<char>>,
    pub bin: Option<Seq<char>>,
    pub root: Option<Seq<char>>,
}

/// A component's mode and optional path overrides. A `Binary` component
/// carries no path overrides; a `Source` component points into a local
/// build tree.
#[derive(Clone, Debug)]
pub struct ComponentConfig {
    pub mode: ComponentMode,
    /// Directory of compiled libraries for this component.
    pub lib: Option<String>,
    /// Directory of UI modules contributed by this component.
    pub qml: Option<String>,
    /// Build root of a loadable plugin.
    pub plugin: Option<String>,
    /// Public-header include root.
    pub headers: Option<String>,
    /// Directory holding the executable (host component only).
    pub bin: Option<String>,
    /// Enclosing source-project directory, used for propagation targeting.
    pub root: Option<String>,
}

impl View for ComponentConfig {
    type V = ComponentView;

    open spec fn view(&self) -> ComponentView {
        ComponentView {
            mode: self.mode,
            lib: self.lib.deep_view(),
            qml: self.qml.deep_view(),
            plugin: self.plugin.deep_view(),
            headers: self.headers.deep_view(),
            bin: self.bin.deep_view(),
            root: self.root.deep_view(),
        }
    }
}

impl DeepView for ComponentConfig {
    type V = ComponentView;

    open spec fn deep_view(&self) -> ComponentView {
        self.view()
    }
}

/// Mathematical view of a named registry entry.
pub struct EntryView {
    pub name: Seq<char>,
    pub config: ComponentView,
}

/// A named registry entry.
#[derive(Clone, Debug)]
pub struct ComponentEntry {
    pub name: String,
    pub config: ComponentConfig,
}

impl View for ComponentEntry {
    type V = EntryView;

    open spec fn view(&self) -> EntryView {
        EntryView { name: self.name@, config: self.config@ }
    }
}

impl DeepView for ComponentEntry {
    type V = EntryView;

    open spec fn deep_view(&self) -> EntryView {
        self.view()
    }
}

/// Whether some entry carries the name.
pub open spec fn has_name(entries: Seq<EntryView>, name: Seq<char>) -> bool {
    exists|i: int| 0 <= i < entries.len() && entries[i].name == name
}

/// The index of the entry carrying the name (meaningful only when present).
pub open spec fn idx_of(entries: Seq<EntryView>, name: Seq<char>) -> int {
    choose|i: int| 0 <= i < entries.len() && entries[i].name == name
}

/// The registry: the persisted mapping from component name to its mode and
/// resolved paths, together with the installed SDK version.
#[derive(Clone, Debug)]
pub struct DevConfig {
    pub sdk_version: Option<String>,
    pub components: Vec<ComponentEntry>,
}

/// Mathematical view of the registry.
pub struct DevConfigView {
    pub sdk_version: Option<Seq<char>>,
    pub components: Seq<EntryView>,
}

impl View for DevConfig {
    type V = DevConfigView;

    open spec fn view(&self) -> DevConfigView {
        DevConfigView {
            sdk_version: self.sdk_version.deep_view(),
            components: self.components.deep_view(),
        }
    }
}

impl DevConfigView {
    /// Component names are unique.
    pub open spec fn wf(self) -> bool {
        forall|i: int, j: int|
            0 <= i < j < self.components.len() ==> (#[trigger] self.components[i]).name != (
            #[trigger] self.components[j]).name
    }

    /// Whether the registry holds a component of this name.
    pub open spec fn has(self, name: Seq<char>) -> bool {
        has_name(self.components, name)
    }

    /// The settings of the component of this name.
    pub open spec fn get(self, name: Seq<char>) -> ComponentView {
        self.components[idx_of(self.components, name)].config
    }
}

impl DevConfig {
    /// The empty registry: no version, no components.
    pub fn empty() -> (r: Self)
        ensures
            r@.sdk_version is None,
            r@.components == Seq::<EntryView>::empty(),
            r@.wf(),
    {
        let r = DevConfig { sdk_version: None, components: Vec::new() };
        proof {
            assert(r@.components =~= Seq::<EntryView>::empty());
        }
        r
    }

    /// Looks a component up by name.
    pub fn get(&self, name: &str) -> (r: Option<&ComponentConfig>)
        requires
            self@.wf(),
        ensures
            match r {
                Some(c) => self@.has(name@) && c@ == self@.get(name@),
                None => !self@.has(name@),
            },
    {
        let n = self.components.len();
        let mut i: usize = 0;
        while i < n
            invariant
                i <= n,
                n == self.components@.len(),
                self@.wf(),
                forall|j: int| 0 <= j < i ==> (#[trigger] self@.components[j]).name != name@,
            decreases n - i,
        {
            if crate::paths::str_eq(self.components[i].name.as_str(), name) {
                proof {
                    let k = idx_of(self@.components, name@);
                    assert(self@.components[i as int].name == name@);
                    assert(has_name(self@.components, name@));
                    assert(0 <= k < self@.components.len() && self@.components[k].name == name@);
                    assert(k == i as int);
                }
                return Some(&self.components[i].config);
            }
            i += 1;
        }
        proof {
            assert(!has_name(self@.components, name@));
        }
        None
    }

    /// Inserts a component under a name, replacing any existing entry of
    /// that name wholesale and keeping its position; a new name is appended.
    pub fn insert(&mut self, name: String, config: ComponentConfig)
        requires
            old(self)@.wf(),
        ensures
            final(self)@.wf(),
            final(self)@.sdk_version == old(self)@.sdk_version,
            old(self)@.has(name@) ==> final(self)@.components == old(self)@.components.update(
                idx_of(old(self)@.components, name@),
                EntryView { name: name@, config: config@ },
            ),
            !old(self)@.has(name@) ==> final(self)@.components == old(self)@.components.push(
                EntryView { name: name@, config: config@ },
            ),
    {
        let n = self.components.len();
        let mut i: usize = 0;
        while i < n
            invariant
                i <= n,
                n == self.components@.len(),
                self@ == old(self)@,
                self@.wf(),
                forall|j: int| 0 <= j < i ==> (#[trigger] self@.components[j]).name != name@,
            decreases n - i,
        {
            if crate::paths::str_eq(self.components[i].name.as_str(), name.as_str()) {
                proof {
                    let k = idx_of(self@.components, name@);
                    assert(self@.components[i as int].name == name@);
                    assert(has_name(self@.components, name@));
                    assert(0 <= k < self@.components.len() && self@.components[k].name == name@);
                    assert(k == i as int);
                }
                let ghost pre = self@.components;
                self.components.remove(i);
                self.components.insert(i, ComponentEntry { name, config });
                proof {
                    assert(self@.components =~= pre.update(
                        i as int,
                        EntryView { name: name@, config: config@ },
                    ));
                    assert(self@.wf());
                }
                return ;
            }
            i += 1;
        }
        let ghost pre = self@.components;
        self.components.push(ComponentEntry { name, config });
        proof {
            assert(self@.components =~= pre.push(EntryView { name: name@, config: config@ }));
            assert(!has_name(pre, name@));
            assert forall|a: int, b: int|
                0 <= a < b < self@.components.len() implies (#[trigger] self@.components[a]).name
                != (#[trigger] self@.components[b]).name by {
                if b == self@.components.len() - 1 {
                    assert(self@.components[a] == pre[a]);
                }
            }
        }
    }

    /// Removes the component of this name; reports whether one was there.
    pub fn remove(&mut self, name: &str) -> (r: bool)
        requires
            old(self)@.wf(),
        ensures
            final(self)@.wf(),
            final(self)@.sdk_version == old(self)@.sdk_version,
            r == old(self)@.has(name@),
            r ==> final(self)@.components == old(self)@.components.remove(
                idx_of(old(self)@.components, name@),
            ),
            !r ==> final(self)@.components == old(self)@.components,
    {
        let n = self.components.len();
        let mut i: usize = 0;
        while i < n
            invariant
                i <= n,
                n == self.components@.len(),
                self@ == old(self)@,
                self@.wf(),
                forall|j: int| 0 <= j < i ==> (#[trigger] self@.components[j]).name != name@,
            decreases n - i,
        {
            if crate::paths::str_eq(self.components[i].name.as_str(), name) {
                proof {
                    let k = idx_of(self@.components, name@);
                    assert(self@.components[i as int].name == name@);
                    assert(has_name(self@.components, name@));
                    assert(0 <= k < self@.components.len() && self@.components[k].name == name@);
                    assert(k == i as int);
                }
                let ghost pre = self@.components;
                self.components.remove(i);
                proof {
                    assert(self@.components =~= pre.remove(i as int));
                }
                return true;
            }
            i += 1;
        }
        proof {
            assert(!has_name(self@.components, name@));
        }
        false
    }

    /// Removes every component; reports how many there were.
    pub fn clear(&mut self) -> (r: usize)
        ensures
            final(self)@.wf(),
            final(self)@.sdk_version == old(self)@.sdk_version,
            final(self)@.components == Seq::<EntryView>::empty(),
            r == old(self)@.components.len(),
    {
        let n = self.components.len();
        self.components.clear();
        proof {
            assert(self@.components =~= Seq::<EntryView>::empty());
        }
        n
    }
}

/// What `DevConfig::insert` leaves behind: the entry of this name replaced
/// in place, or appended when the name is new; everything else untouched.
pub open spec fn inserted(
    pre: DevConfigView,
    post: DevConfigView,
    name: Seq<char>,
    c: ComponentView,
) -> bool {
    &&& post.sdk_version == pre.sdk_version
    &&& if pre.has(name) {
        post.components == pre.components.update(
            idx_of(pre.components, name),
            EntryView { name: name, config: c },
        )
    } else {
        post.components == pre.components.push(EntryView { name: name, config: c })
    }
}

/// Copies a component's settings, field by field.
pub fn clone_config(c: &ComponentConfig) -> (r: ComponentConfig)
    ensures
        r@ == c@,
{
    ComponentConfig {
        mode: c.mode,
        lib: clone_opt(&c.lib),
        qml: clone_opt(&c.qml),
        plugin: clone_opt(&c.plugin),
        headers: clone_opt(&c.headers),
        bin: clone_opt(&c.bin),
        root: clone_opt(&c.root),
    }
}

/// Copies an optional string.
pub fn clone_opt(o: &Option<String>) -> (r: Option<String>)
    ensures
        r.deep_view() == o.deep_view(),
{
    match o {
        Some(s) => Some(s.clone()),
        None => None,
    }
}

/// How a component is presented: as the host, a plugin, or a library.
#[derive(Clone, Copy, Debug, PartialEq, Eq, Structural)]
pub enum ComponentGroup {
    Host,
    Plugin,
    Library,
}

/// The presentation group of a component name: the host by its fixed
/// name; a plugin when the name carries the `plugin-` prefix or mentions
/// `plugin` at all; else a library.
pub open spec fn spec_component_group(name: Seq<char>) -> ComponentGroup {
    if name == "host"@ {
        ComponentGroup::Host
    } else if "plugin-"@.is_prefix_of(name) || crate::paths::spec_contains_sub(name, "plugin"@) {
        ComponentGroup::Plugin
    } else {
        ComponentGroup::Library
    }
}

/// Classifies a component name for presentation, as
/// `spec_component_group` describes.
pub fn component_group(name: &str) -> (r: ComponentGroup)
    ensures
        r == spec_component_group(name@),
{
    if crate::paths::str_eq(name, "host") {
        ComponentGroup::Host
    } else if crate::paths::str_starts_with(name, "plugin-") || crate::paths::contains_sub(
        name,
        "plugin",
    ) {
        ComponentGroup::Plugin
    } else {
        ComponentGroup::Library
    }
}

/// The component names with a fixed, well-known meaning.
pub fn is_known_component(name: &str) -> (r: bool)
    ensures
        r == (name@ == "sdk"@ || name@ == "http-client"@ || name@ == "ui-components"@ || name@
            == "host"@ || name@ == "plugin-orders"@ || name@ == "plugin-rules"@),
{
    crate::paths::str_eq(name, "sdk") || crate::paths::str_eq(name, "http-client")
        || crate::paths::str_eq(name, "ui-components") || crate::paths::str_eq(name, "host")
        || crate::paths::str_eq(name, "plugin-orders") || crate::paths::str_eq(name, "plugin-rules")
}

} // verus!
