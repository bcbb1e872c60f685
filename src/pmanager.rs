//! The node collaborator: a registry of node makers by name, the plugin
//! binaries found on disk, and node identities.

use vstd::prelude::*;
use crate::dspapi::NodeId;
use crate::dspengine::NodeFactory;

verus! {

#[derive(Debug, Clone, Copy, PartialEq, Eq)]
pub enum PluginFormat {
    Vst3,
    Clap,
    Lv2,
    Internal,
}

/// A plugin binary found on disk.
#[derive(Debug, Clone)]
pub struct PluginMetadata {
    pub name: String,
    pub path: String,
    pub format: PluginFormat,
}

/// Makes a fresh node each time it is asked.
pub trait NodeCreator<N> {
    /// Is `n` a node this maker builds? Each maker type states its own;
    /// proofs over an arbitrary maker never see this default.
    closed spec fn makes(&self, n: N) -> bool {
        false
    }

    fn create(&self) -> (r: N)
        ensures
            self.makes(r),
    ;
}

/// The first identity handed out.
pub const FIRST_NODE_ID: NodeId = 1000;

/// The plugin format of a file extension, if it names one.
pub open spec fn format_of(ext: Seq<char>) -> Option<PluginFormat> {
    if ext == "vst3"@ {
        Some(PluginFormat::Vst3)
    } else if ext == "clap"@ {
        Some(PluginFormat::Clap)
    } else if ext == "lv2"@ {
        Some(PluginFormat::Lv2)
    } else {
        None
    }
}

/// The first position in `names` that holds `name`.
pub open spec fn first_name(names: Seq<Seq<char>>, name: Seq<char>, i: int) -> bool {
    &&& 0 <= i < names.len()
    &&& names[i] == name
    &&& forall|j: int| 0 <= j < i ==> names[j] != name
}

/// No name occurs twice.
pub open spec fn unique_names(names: Seq<Seq<char>>) -> bool {
    forall|i: int, j: int| 0 <= i < j < names.len() ==> names[i] != names[j]
}

/// The plugin format of the extension `ext` (`vst3`, `clap` or `lv2`).
pub fn format_for_extension(ext: &str) -> (r: Option<PluginFormat>)
    ensures
        r == format_of(ext@),
{
    let e = ext.to_owned();
    if e == "vst3".to_owned() {
        Some(PluginFormat::Vst3)
    } else if e == "clap".to_owned() {
        Some(PluginFormat::Clap)
    } else if e == "lv2".to_owned() {
        Some(PluginFormat::Lv2)
    } else {
        None
    }
}

pub struct PluginManager<C> {
    pub registry: Vec<(String, C)>,
    pub discovered_plugins: Vec<PluginMetadata>,
    pub next_node_id: NodeId,
}

impl<C> PluginManager<C> {
    pub open spec fn registry_names(&self) -> Seq<Seq<char>> {
        self.registry@.map_values(|e: (String, C)| e.0@)
    }

    pub open spec fn discovered_names(&self) -> Seq<Seq<char>> {
        self.discovered_plugins@.map_values(|m: PluginMetadata| m.name@)
    }

    /// Is `name` registered?
    pub open spec fn has_maker(&self, name: Seq<char>) -> bool {
        exists|i: int| 0 <= i < self.registry@.len() && self.registry_names()[i] == name
    }

    /// Each maker and each discovered plugin has a name of its own.
    pub open spec fn wf(&self) -> bool {
        unique_names(self.registry_names()) && unique_names(self.discovered_names())
    }

    /// The identity `generate_id` hands out next.
    pub open spec fn next_id(&self) -> NodeId {
        self.next_node_id
    }

    /// An empty manager; disk discovery is added with `add_discovered`.
    pub fn new() -> (r: Self)
        ensures
            r.wf(),
            r.registry@.len() == 0,
            r.discovered_plugins@.len() == 0,
            r.next_id() == FIRST_NODE_ID,
    {
        PluginManager { registry: Vec::new(), discovered_plugins: Vec::new(), next_node_id: FIRST_NODE_ID }
    }

    fn find_maker(&self, key: &String) -> (r: Option<usize>)
        ensures
            r matches Some(i) ==> first_name(self.registry_names(), key@, i as int),
            r is None ==> !self.has_maker(key@),
    {
        let mut i: usize = 0;
        while i < self.registry.len()
            invariant
                i <= self.registry@.len(),
                forall|j: int| 0 <= j < i ==> self.registry_names()[j] != key@,
            decreases self.registry@.len() - i,
        {
            if self.registry[i].0 == *key {
                return Some(i);
            }
            i = i + 1;
        }
        None
    }

    fn find_discovered(&self, key: &String) -> (r: Option<usize>)
        ensures
            r matches Some(i) ==> first_name(self.discovered_names(), key@, i as int),
            r is None ==> forall|j: int|
                0 <= j < self.discovered_plugins@.len() ==> self.discovered_names()[j] != key@,
    {
        let mut i: usize = 0;
        while i < self.discovered_plugins.len()
            invariant
                i <= self.discovered_plugins@.len(),
                forall|j: int| 0 <= j < i ==> self.discovered_names()[j] != key@,
            decreases self.discovered_plugins@.len() - i,
        {
            if self.discovered_plugins[i].name == *key {
                return Some(i);
            }
            i = i + 1;
        }
        None
    }

    /// Registers `creator` under `name`, replacing a maker of the same name
    /// in place; every other maker is kept.
    pub fn register(&mut self, name: &str, creator: C)
        requires
            old(self).wf(),
        ensures
            final(self).wf(),
            old(self).has_maker(name@) ==> exists|i: int|
                {
                    &&& first_name(old(self).registry_names(), name@, i)
                    &&& final(self).registry@.len() == old(self).registry@.len()
                    &&& final(self).registry_names() == old(self).registry_names()
                    &&& final(self).registry@[i].1 == creator
                    &&& forall|j: int|
                        0 <= j < old(self).registry@.len() && j != i ==> final(self).registry@[j]
                            == old(self).registry@[j]
                },
            !old(self).has_maker(name@) ==> {
                &&& final(self).registry@.drop_last() == old(self).registry@
                &&& final(self).registry@.len() == old(self).registry@.len() + 1
                &&& final(self).registry@.last().0@ == name@
                &&& final(self).registry@.last().1 == creator
            },
            final(self).has_maker(name@),
            forall|n: Seq<char>| n != name@ ==> (final(self).has_maker(n) <==> old(self).has_maker(n)),
            final(self).discovered_plugins == old(self).discovered_plugins,
            final(self).next_id() == old(self).next_id(),
    {
        let key = name.to_owned();
        match self.find_maker(&key) {
            Some(i) => {
                let _replaced = self.registry.remove(i);
                self.registry.insert(i, (key, creator));
                proof {
                    assert(self.registry_names() =~= old(self).registry_names());
                    assert(self.registry_names()[i as int] == name@);
                }
            },
            None => {
                self.registry.push((key, creator));
                proof {
                    assert(self.registry@.drop_last() =~= old(self).registry@);
                    assert(self.registry_names() =~= old(self).registry_names().push(name@));
                    assert(self.registry_names()[old(self).registry@.len() as int] == name@);
                    assert forall|n: Seq<char>| n != name@ implies (self.has_maker(n) <==> old(
                        self,
                    ).has_maker(n)) by {
                        if old(self).has_maker(n) {
                            let j = choose|j: int|
                                0 <= j < old(self).registry@.len() && old(self).registry_names()[j] == n;
                            assert(self.registry_names()[j] == n);
                        }
                        if self.has_maker(n) {
                            let j = choose|j: int|
                                0 <= j < self.registry@.len() && self.registry_names()[j] == n;
                            assert(old(self).registry_names()[j] == n);
                        }
                    }
                }
            },
        }
    }

    /// Records a plugin found on disk: it replaces the entry of the same
    /// name in place, or is appended; every other entry is kept.
    pub fn add_discovered(&mut self, meta: PluginMetadata)
        requires
            old(self).wf(),
        ensures
            final(self).wf(),
            (exists|i: int|
                first_name(old(self).discovered_names(), meta.name@, i)
                    && final(self).discovered_plugins@ == old(self).discovered_plugins@.update(i, meta))
                || ((forall|j: int|
                0 <= j < old(self).discovered_plugins@.len() ==> old(self).discovered_names()[j]
                    != meta.name@) && final(self).discovered_plugins@
                == old(self).discovered_plugins@.push(meta)),
            final(self).registry == old(self).registry,
            final(self).next_id() == old(self).next_id(),
    {
        let ghost m = meta;
        let ghost name = meta.name@;
        match self.find_discovered(&meta.name) {
            Some(i) => {
                self.discovered_plugins.set(i, meta);
                proof {
                    assert(self.discovered_names() =~= old(self).discovered_names().update(i as int, name));
                }
            },
            None => {
                self.discovered_plugins.push(meta);
                proof {
                    assert(self.discovered_names() =~= old(self).discovered_names().push(name));
                }
            },
        }
    }

    /// The node maker registered under `name` builds a fresh node. A plugin
    /// only found on disk yields none: no loader for external formats is
    /// available.
    pub fn create_node<N>(&mut self, name: &str) -> (r: Option<N>)
        where
            C: NodeCreator<N>,
        ensures
            r is Some <==> old(self).has_maker(name@),
            r matches Some(n) ==> exists|i: int|
                first_name(old(self).registry_names(), name@, i) && old(self).registry@[i].1.makes(n),
            final(self).registry == old(self).registry,
            final(self).discovered_plugins == old(self).discovered_plugins,
            final(self).next_id() == old(self).next_id(),
    {
        let key = name.to_owned();
        match self.find_maker(&key) {
            Some(i) => Some(self.registry[i].1.create()),
            None => match self.find_discovered(&key) {
                Some(i) => load_external_plugin(&self.discovered_plugins[i]),
                None => None,
            },
        }
    }

    /// Hands out a fresh node identity.
    pub fn generate_id(&mut self) -> (r: NodeId)
        requires
            old(self).next_id() < NodeId::MAX,
        ensures
            r == old(self).next_id(),
            final(self).next_id() == old(self).next_id() + 1,
            final(self).registry == old(self).registry,
            final(self).discovered_plugins == old(self).discovered_plugins,
    {
        let id = self.next_node_id;
        self.next_node_id = self.next_node_id + 1;
        id
    }
}

/// Loads a plugin binary of an external format. No loader is available for
/// any format, so no node comes of it.
fn load_external_plugin<N>(meta: &PluginMetadata) -> (r: Option<N>)
    ensures
        r is None,
{
    match meta.format {
        PluginFormat::Vst3 => None,
        PluginFormat::Clap => None,
        _ => None,
    }
}

impl<N, C: NodeCreator<N>> NodeFactory<N> for PluginManager<C> {
    open spec fn provides(&self, name: Seq<char>) -> bool {
        self.has_maker(name)
    }

    open spec fn makes(&self, name: Seq<char>, n: N) -> bool {
        exists|i: int| first_name(self.registry_names(), name, i) && self.registry@[i].1.makes(n)
    }

    fn create_node(&mut self, name: &str) -> (r: Option<N>) {
        PluginManager::create_node(self, name)
    }
}

} // verus!
