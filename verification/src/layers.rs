//! The canonical layer registry and the rules that turn a mesh's configured
//! layer list into the ordered list of layers the daemon starts.
//!
//! Core is all-or-none: a configured list either names no Core layer (and the
//! full Core is started anyway) or names every Core layer exactly once.
//! Extensions are additive and keep their configured order after Core.
use vstd::prelude::*;
use vstd::string::*;
use indexmap::IndexMap;
use crate::ordered_map::{has_key, name_map_contains_key, name_map_entries, name_map_insert, name_map_is_empty, name_map_new};
use crate::text::{concat3, owned, str_eq};

verus! {

/// What a registry holds: the Core layer names and the extension layer names.
pub struct RegistryView {
    pub core: Seq<Seq<char>>,
    pub extensions: Seq<Seq<char>>,
}

impl RegistryView {
    pub open spec fn is_core(self, name: Seq<char>) -> bool {
        self.core.contains(name)
    }

    pub open spec fn is_extension(self, name: Seq<char>) -> bool {
        self.extensions.contains(name)
    }

    pub open spec fn is_valid(self, name: Seq<char>) -> bool {
        self.is_core(name) || self.is_extension(name)
    }

    /// No name is listed twice, and no name is both Core and an extension.
    pub open spec fn well_formed(self) -> bool {
        &&& self.core.no_duplicates()
        &&& self.extensions.no_duplicates()
        &&& forall|i: int| 0 <= i < self.core.len() ==> !self.extensions.contains(#[trigger] self.core[i])
    }
}

/// The layer names that the daemon recognizes, split into mandatory Core
/// layers (in their canonical start order) and optional extension layers.
#[derive(Debug)]
pub struct LayerRegistry {
    core: Vec<String>,
    extensions: Vec<String>,
}

impl View for LayerRegistry {
    type V = RegistryView;

    closed spec fn view(&self) -> RegistryView {
        RegistryView { core: self.core.deep_view(), extensions: self.extensions.deep_view() }
    }
}

/// Whether `name` occurs among the first `upto` entries of `names`.
pub fn contains_name(names: &Vec<String>, upto: usize, name: &str) -> (r: bool)
    requires
        upto <= names.len(),
    ensures
        r == names.deep_view().take(upto as int).contains(name@),
{
    let mut i: usize = 0;
    while i < upto
        invariant
            upto <= names.len(),
            i <= upto,
            forall|j: int| 0 <= j < i ==> names.deep_view()[j] != name@,
        decreases upto - i,
    {
        if str_eq(names[i].as_str(), name) {
            assert(names.deep_view().take(upto as int)[i as int] == name@);
            return true;
        }
        i = i + 1;
    }
    proof {
        let t = names.deep_view().take(upto as int);
        assert forall|j: int| 0 <= j < t.len() implies t[j] != name@ by {
            assert(t[j] == names.deep_view()[j]);
        }
    }
    false
}

/// Copies every name, keeping the order.
pub fn copy_names(names: &Vec<String>) -> (r: Vec<String>)
    ensures
        r.deep_view() == names.deep_view(),
{
    let mut r: Vec<String> = Vec::new();
    let mut i: usize = 0;
    while i < names.len()
        invariant
            i <= names.len(),
            r.deep_view() == names.deep_view().take(i as int),
        decreases names.len() - i,
    {
        let ghost before = r.deep_view();
        let next = names[i].clone();
        r.push(next);
        assert(r.deep_view() =~= before.push(names.deep_view()[i as int]));
        assert(names.deep_view().take(i + 1) =~= names.deep_view().take(i as int).push(names.deep_view()[i as int]));
        i = i + 1;
    }
    assert(names.deep_view().take(names.len() as int) =~= names.deep_view());
    r
}

/// Whether no name occurs twice among `names`, checked name by name.
fn names_distinct(names: &Vec<String>) -> (r: bool)
    ensures
        r == names.deep_view().no_duplicates(),
{
    let mut i: usize = 0;
    while i < names.len()
        invariant
            i <= names.len(),
            names.deep_view().take(i as int).no_duplicates(),
        decreases names.len() - i,
    {
        if contains_name(names, i, names[i].as_str()) {
            proof {
                let s = names.deep_view();
                let k = choose|k: int| 0 <= k < i && s.take(i as int)[k] == s[i as int];
                assert(s[k] == s[i as int]);
            }
            return false;
        }
        proof {
            let s = names.deep_view();
            let t = s.take(i + 1);
            assert forall|a: int, b: int|
                0 <= a < t.len() && 0 <= b < t.len() && a != b
                implies #[trigger] t[a] != #[trigger] t[b] by {
                if a < i && b < i {
                    assert(s.take(i as int)[a] == s[a] && s.take(i as int)[b] == s[b]);
                } else if a == i {
                    assert(s.take(i as int)[b] == s[b]);
                } else {
                    assert(s.take(i as int)[a] == s[a]);
                }
            }
        }
        i = i + 1;
    }
    assert(names.deep_view().take(names.len() as int) =~= names.deep_view());
    true
}

impl LayerRegistry {
    #[verifier::type_invariant]
    spec fn registry_well_formed(self) -> bool {
        self@.well_formed()
    }

    /// A registry of the given Core and extension layer names, or `None` when a
    /// name is listed twice or is both a Core and an extension layer.
    pub fn new(core: Vec<String>, extensions: Vec<String>) -> (r: Option<LayerRegistry>)
        ensures
            r is Some <==> (RegistryView { core: core.deep_view(), extensions: extensions.deep_view() }).well_formed(),
            r matches Some(reg) ==> reg@ == (RegistryView { core: core.deep_view(), extensions: extensions.deep_view() }),
    {
        if !names_distinct(&core) || !names_distinct(&extensions) {
            return None;
        }
        let mut i: usize = 0;
        while i < core.len()
            invariant
                i <= core.len(),
                forall|j: int| 0 <= j < i ==> !extensions.deep_view().contains(#[trigger] core.deep_view()[j]),
            decreases core.len() - i,
        {
            if contains_name(&extensions, extensions.len(), core[i].as_str()) {
                assert(extensions.deep_view().take(extensions.len() as int) =~= extensions.deep_view());
                assert(extensions.deep_view().contains(core.deep_view()[i as int]));
                return None;
            }
            assert(extensions.deep_view().take(extensions.len() as int) =~= extensions.deep_view());
            i = i + 1;
        }
        Some(LayerRegistry { core, extensions })
    }

    /// The Core layer names, in canonical order.
    pub fn core_layers(&self) -> (r: Vec<String>)
        ensures
            r.deep_view() == self@.core,
    {
        copy_names(&self.core)
    }

    /// The extension layer names.
    pub fn extension_layers(&self) -> (r: Vec<String>)
        ensures
            r.deep_view() == self@.extensions,
    {
        copy_names(&self.extensions)
    }

    /// Whether `name` is a Core layer.
    pub fn is_core_layer(&self, name: &str) -> (r: bool)
        ensures
            r == self@.is_core(name@),
    {
        let r = contains_name(&self.core, self.core.len(), name);
        assert(self.core.deep_view().take(self.core.len() as int) =~= self.core.deep_view());
        r
    }

    /// Whether `name` is an extension layer.
    pub fn is_extension_layer(&self, name: &str) -> (r: bool)
        ensures
            r == self@.is_extension(name@),
    {
        let r = contains_name(&self.extensions, self.extensions.len(), name);
        assert(self.extensions.deep_view().take(self.extensions.len() as int) =~= self.extensions.deep_view());
        r
    }

    /// Whether `name` is a Core or an extension layer.
    pub fn is_valid_layer(&self, name: &str) -> (r: bool)
        ensures
            r == self@.is_valid(name@),
    {
        self.is_core_layer(name) || self.is_extension_layer(name)
    }
}

/// Why a configured layer list cannot be run.
#[derive(Debug)]
pub enum LayerFault {
    /// The name is neither a Core nor an extension layer.
    InvalidLayer(String),
    /// A Core layer is listed a second time.
    DuplicateCore(String),
    /// An extension layer is listed a second time.
    DuplicateExtension(String),
    /// Some but not all Core layers are listed.
    PartialCore,
}

pub enum LayerFaultView {
    InvalidLayer(Seq<char>),
    DuplicateCore(Seq<char>),
    DuplicateExtension(Seq<char>),
    PartialCore,
}

impl View for LayerFault {
    type V = LayerFaultView;

    open spec fn view(&self) -> LayerFaultView {
        match self {
            LayerFault::InvalidLayer(n) => LayerFaultView::InvalidLayer(n@),
            LayerFault::DuplicateCore(n) => LayerFaultView::DuplicateCore(n@),
            LayerFault::DuplicateExtension(n) => LayerFaultView::DuplicateExtension(n@),
            LayerFault::PartialCore => LayerFaultView::PartialCore,
        }
    }
}

/// The text the daemon reports for a layer-list fault.
pub open spec fn layer_fault_text(f: LayerFaultView) -> Seq<char> {
    match f {
        LayerFaultView::InvalidLayer(n) => "Invalid layer '"@ + n + "'"@,
        LayerFaultView::DuplicateCore(n) => "Duplicate Core layer '"@ + n + "'"@,
        LayerFaultView::DuplicateExtension(n) => "Duplicate extension layer '"@ + n + "'"@,
        LayerFaultView::PartialCore => "Partial Core layer list is not allowed"@,
    }
}

impl LayerFault {
    /// The text the daemon reports for this fault.
    pub fn message(&self) -> (r: String)
        ensures
            r@ == layer_fault_text(self@),
    {
        match self {
            LayerFault::InvalidLayer(n) => concat3("Invalid layer '", n.as_str(), "'"),
            LayerFault::DuplicateCore(n) => concat3("Duplicate Core layer '", n.as_str(), "'"),
            LayerFault::DuplicateExtension(n) => concat3("Duplicate extension layer '", n.as_str(), "'"),
            LayerFault::PartialCore => owned("Partial Core layer list is not allowed"),
        }
    }
}

/// Reads a configured layer list from first to last. The first name that is
/// unknown, or that repeats an earlier name, is the fault; otherwise the
/// result is the extension layers in their configured order.
pub open spec fn scan_layers(reg: RegistryView, layers: Seq<Seq<char>>) -> Result<Seq<Seq<char>>, LayerFaultView>
    decreases layers.len(),
{
    if layers.len() == 0 {
        Ok(Seq::empty())
    } else {
        let earlier = layers.drop_last();
        let name = layers.last();
        match scan_layers(reg, earlier) {
            Err(fault) => Err(fault),
            Ok(extensions) => {
                if !reg.is_valid(name) {
                    Err(LayerFaultView::InvalidLayer(name))
                } else if reg.is_core(name) {
                    if earlier.contains(name) {
                        Err(LayerFaultView::DuplicateCore(name))
                    } else {
                        Ok(extensions)
                    }
                } else if earlier.contains(name) {
                    Err(LayerFaultView::DuplicateExtension(name))
                } else {
                    Ok(extensions.push(name))
                }
            }
        }
    }
}

/// The list names at least one Core layer but misses another one.
pub open spec fn partial_core(reg: RegistryView, layers: Seq<Seq<char>>) -> bool {
    &&& exists|i: int| 0 <= i < layers.len() && reg.is_core(#[trigger] layers[i])
    &&& exists|j: int| 0 <= j < reg.core.len() && !layers.contains(#[trigger] reg.core[j])
}

/// The outcome of checking a non-absent layer list: the fault found while
/// scanning, else a partial Core, else the extension layers in order.
pub open spec fn check_layers(reg: RegistryView, layers: Seq<Seq<char>>) -> Result<Seq<Seq<char>>, LayerFaultView> {
    match scan_layers(reg, layers) {
        Err(fault) => Err(fault),
        Ok(extensions) => if partial_core(reg, layers) {
            Err(LayerFaultView::PartialCore)
        } else {
            Ok(extensions)
        },
    }
}

/// The layers a mesh runs: the full Core in canonical order, then the
/// configured extension layers in configured order.
pub open spec fn plan_layers(reg: RegistryView, layers: Option<Seq<Seq<char>>>) -> Result<Seq<Seq<char>>, LayerFaultView> {
    match layers {
        None => Ok(reg.core),
        Some(list) => match check_layers(reg, list) {
            Err(fault) => Err(fault),
            Ok(extensions) => Ok(reg.core + extensions),
        },
    }
}

/// Once scanning a prefix of a list has found a fault, scanning any longer
/// prefix reports the same fault.
proof fn lemma_scan_error_persists(reg: RegistryView, all: Seq<Seq<char>>, k: int, m: int)
    requires
        0 <= k <= m <= all.len(),
        scan_layers(reg, all.take(k)) is Err,
    ensures
        scan_layers(reg, all.take(m)) == scan_layers(reg, all.take(k)),
    decreases m - k,
{
    if m > k {
        lemma_scan_error_persists(reg, all, k, m - 1);
        assert(all.take(m).drop_last() =~= all.take(m - 1));
    }
    assert(all.take(all.len() as int) =~= all);
}

/// Notes a layer not seen before: afterwards exactly the layers seen
/// before and this one are seen.
fn note_seen(seen: &mut IndexMap<String, String>, name: &str)
    requires
        !has_key(name_map_entries(*old(seen)), name@),
    ensures
        forall|n: Seq<char>| #[trigger] has_key(name_map_entries(*final(seen)), n)
            <==> (has_key(name_map_entries(*old(seen)), n) || n == name@),
{
    let ghost before = name_map_entries(*seen);
    name_map_insert(seen, owned(name), String::new());
    let ghost after = name_map_entries(*seen);
    assert(after == before.push((name@, Seq::<char>::empty())));
    assert forall|n: Seq<char>| #[trigger] has_key(after, n) <==> (has_key(before, n) || n == name@) by {
        if has_key(before, n) {
            let k = choose|k: int| 0 <= k < before.len() && (#[trigger] before[k]).0 == n;
            assert(after[k] == before[k]);
        }
        if n == name@ {
            assert(after[before.len() as int].0 == n);
        }
        if has_key(after, n) {
            let k = choose|k: int| 0 <= k < after.len() && (#[trigger] after[k]).0 == n;
            if k < before.len() {
                assert(after[k] == before[k]);
            }
        }
    }
}

/// Checks a configured layer list and returns its extension layers in
/// configured order. The Core and extension layers seen so far are kept in
/// insertion-ordered maps.
pub fn check_layer_list(reg: &LayerRegistry, layers: &Vec<String>) -> (r: Result<Vec<String>, LayerFault>)
    ensures
        match r {
            Ok(extensions) => check_layers(reg@, layers.deep_view()) == Ok::<Seq<Seq<char>>, LayerFaultView>(extensions.deep_view()),
            Err(fault) => check_layers(reg@, layers.deep_view()) == Err::<Seq<Seq<char>>, LayerFaultView>(fault@),
        },
{
    let ghost all = layers.deep_view();
    let mut extensions: Vec<String> = Vec::new();
    let mut seen_core = name_map_new();
    let mut seen_extensions = name_map_new();
    let mut i: usize = 0;
    assert(extensions.deep_view() =~= Seq::<Seq<char>>::empty());
    assert(all.take(0).len() == 0);
    while i < layers.len()
        invariant
            all == layers.deep_view(),
            i <= layers.len(),
            scan_layers(reg@, all.take(i as int)) == Ok::<Seq<Seq<char>>, LayerFaultView>(extensions.deep_view()),
            forall|n: Seq<char>| #[trigger] has_key(name_map_entries(seen_core), n)
                <==> (reg@.is_core(n) && all.take(i as int).contains(n)),
            forall|n: Seq<char>| #[trigger] has_key(name_map_entries(seen_extensions), n)
                <==> (!reg@.is_core(n) && reg@.is_valid(n) && all.take(i as int).contains(n)),
        decreases layers.len() - i,
    {
        let name = layers[i].as_str();
        let ghost earlier = all.take(i as int);
        let ghost now = all.take(i + 1);
        assert(now.drop_last() =~= earlier);
        assert(now.last() == all[i as int]);
        if !reg.is_valid_layer(name) {
            proof { lemma_scan_error_persists(reg@, all, i as int + 1, all.len() as int); assert(all.take(all.len() as int) =~= all); }
            return Err(LayerFault::InvalidLayer(owned(name)));
        }
        assert forall|n: Seq<char>| now.contains(n) <==> (earlier.contains(n) || n == name@) by {
            if now.contains(n) {
                let k = choose|k: int| 0 <= k < now.len() && now[k] == n;
                if k < earlier.len() {
                    assert(earlier[k] == now[k]);
                }
            }
            if earlier.contains(n) {
                let k = choose|k: int| 0 <= k < earlier.len() && earlier[k] == n;
                assert(now[k] == earlier[k]);
            }
            if n == name@ {
                assert(now[i as int] == n);
            }
        }
        if reg.is_core_layer(name) {
            if name_map_contains_key(&seen_core, name) {
                proof { lemma_scan_error_persists(reg@, all, i as int + 1, all.len() as int); assert(all.take(all.len() as int) =~= all); }
                return Err(LayerFault::DuplicateCore(owned(name)));
            }
            note_seen(&mut seen_core, name);
        } else {
            if name_map_contains_key(&seen_extensions, name) {
                proof { lemma_scan_error_persists(reg@, all, i as int + 1, all.len() as int); assert(all.take(all.len() as int) =~= all); }
                return Err(LayerFault::DuplicateExtension(owned(name)));
            }
            note_seen(&mut seen_extensions, name);
            let ghost before = extensions.deep_view();
            extensions.push(owned(name));
            assert(extensions.deep_view() =~= before.push(all[i as int]));
        }
        i = i + 1;
    }
    assert(all.take(layers.len() as int) =~= all);
    // Core is all-or-none: once any Core layer is named, every one must be.
    if !name_map_is_empty(&seen_core) {
        proof {
            let e = name_map_entries(seen_core);
            assert(has_key(e, e[0].0));
            let n = e[0].0;
            let k = choose|k: int| 0 <= k < all.len() && all[k] == n;
            assert(reg@.is_core(all[k]));
        }
        let mut j: usize = 0;
        while j < reg.core.len()
            invariant
                all == layers.deep_view(),
                scan_layers(reg@, all) == Ok::<Seq<Seq<char>>, LayerFaultView>(extensions.deep_view()),
                exists|k: int| 0 <= k < all.len() && reg@.is_core(#[trigger] all[k]),
                forall|n: Seq<char>| #[trigger] has_key(name_map_entries(seen_core), n) <==> (reg@.is_core(n) && all.contains(n)),
                j <= reg.core.len(),
                forall|k: int| 0 <= k < j ==> all.contains(#[trigger] reg@.core[k]),
            decreases reg.core.len() - j,
        {
            assert(reg@.is_core(reg@.core[j as int]));
            if !name_map_contains_key(&seen_core, reg.core[j].as_str()) {
                assert(!all.contains(reg@.core[j as int]));
                return Err(LayerFault::PartialCore);
            }
            j = j + 1;
        }
    } else {
        proof {
            assert forall|k: int| 0 <= k < all.len() implies !reg@.is_core(#[trigger] all[k]) by {
                if reg@.is_core(all[k]) {
                    assert(all.contains(all[k]));
                    assert(has_key(name_map_entries(seen_core), all[k]));
                }
            }
        }
    }
    Ok(extensions)
}

/// The layers a mesh with the given configured layer list runs, in start
/// order: the full Core in canonical order, then the configured extension
/// layers in configured order. An absent list runs Core only.
pub fn plan_mesh_layers(reg: &LayerRegistry, configured: &Option<Vec<String>>) -> (r: Result<Vec<String>, LayerFault>)
    ensures
        match r {
            Ok(layers) => plan_layers(reg@, configured.deep_view()) == Ok::<Seq<Seq<char>>, LayerFaultView>(layers.deep_view()),
            Err(fault) => plan_layers(reg@, configured.deep_view()) == Err::<Seq<Seq<char>>, LayerFaultView>(fault@),
        },
{
    let mut layers = reg.core_layers();
    match configured {
        None => Ok(layers),
        Some(list) => {
            let extensions = check_layer_list(reg, list)?;
            let ghost core = layers.deep_view();
            let mut i: usize = 0;
            while i < extensions.len()
                invariant
                    i <= extensions.len(),
                    layers.deep_view() == core + extensions.deep_view().take(i as int),
                decreases extensions.len() - i,
            {
                let ghost before = layers.deep_view();
                let next = extensions[i].clone();
                layers.push(next);
                assert(layers.deep_view() =~= before.push(extensions.deep_view()[i as int]));
                assert(extensions.deep_view().take(i + 1) =~= extensions.deep_view().take(i as int).push(extensions.deep_view()[i as int]));
                i = i + 1;
                assert(layers.deep_view() =~= core + extensions.deep_view().take(i as int));
            }
            assert(extensions.deep_view().take(extensions.len() as int) =~= extensions.deep_view());
            Ok(layers)
        }
    }
}

} // verus!
