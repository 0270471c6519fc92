//! The supervisor's bookkeeping and decisions: which layers each mesh runs,
//! where their executables are, which processes run, what to do when one
//! exits, and which to stop. Spawning, waiting for and signalling processes
//! is done by the daemon around this state, which reports back each outcome.
use indexmap::IndexMap;
use vstd::prelude::*;
use vstd::string::*;
use crate::config::{Config, ConfigView, MeshConfig, MeshConfigView};
use crate::layers::{contains_name, layer_fault_text, plan_layers, plan_mesh_layers, LayerFault, LayerFaultView, LayerRegistry, RegistryView};
use crate::ordered_map::{
    has_key, key_position, keys_distinct, lemma_distinct_key_position, lemma_key_position_exists,
    lemma_key_position_unique, mesh_map_entries, mesh_map_get_index, mesh_map_get_index_of, mesh_map_len,
    name_map_contains_key, name_map_entries, name_map_get_index, name_map_get_index_of, name_map_insert,
    name_map_len, name_map_new, process_map_contains_key, process_map_entries, process_map_get_index,
    process_map_get_index_of, process_map_insert, process_map_len, process_map_new, process_map_shift_remove,
};
use crate::resolve::{
    candidate_paths, first_existing, missing_layers_text, resolve_layer_binary, resolve_layers,
    resolve_required_layers, MissingCoreLayerView, MissingCoreLayersError, Platform,
};
use crate::logging::Level;
use crate::text::{concat3, concat4, owned, str_eq, str_starts_with};

verus! {

/// What the daemon knows of a layer process it started.
#[derive(Debug)]
pub struct ProcessRecord {
    pub name: String,
    pub mesh: String,
    pub layer: String,
    pub pid: u32,
    pub started_at_nanos: u64,
    pub restart_count: u32,
}

pub struct ProcessRecordView {
    pub name: Seq<char>,
    pub mesh: Seq<char>,
    pub layer: Seq<char>,
    pub pid: u32,
    pub started_at_nanos: u64,
    pub restart_count: u32,
}

impl View for ProcessRecord {
    type V = ProcessRecordView;

    open spec fn view(&self) -> ProcessRecordView {
        ProcessRecordView {
            name: self.name@,
            mesh: self.mesh@,
            layer: self.layer@,
            pid: self.pid,
            started_at_nanos: self.started_at_nanos,
            restart_count: self.restart_count,
        }
    }
}


/// The name under which the daemon tracks a layer process of a mesh.
pub open spec fn process_name_spec(mesh: Seq<char>, layer: Seq<char>) -> Seq<char> {
    "aigosd-"@ + mesh + "@"@ + layer
}

/// The name under which the daemon tracks a layer process of a mesh.
pub fn process_name(mesh_name: &str, layer_name: &str) -> (r: String)
    ensures
        r@ == process_name_spec(mesh_name@, layer_name@),
{
    concat4("aigosd-", mesh_name, "@", layer_name)
}

/// The beginning shared by the names of all processes of a mesh.
pub open spec fn mesh_prefix(mesh: Seq<char>) -> Seq<char> {
    "aigosd-"@ + mesh + "@"@
}

pub open spec fn has_prefix(name: Seq<char>, prefix: Seq<char>) -> bool {
    prefix.len() <= name.len() && name.take(prefix.len() as int) == prefix
}

/// Whether a process that exited is started again: always under `always`,
/// after a failure under `on-failure`, and never otherwise.
pub open spec fn restart_wanted(policy: Seq<char>, exited_successfully: bool) -> bool {
    policy == "always"@ || (policy == "on-failure"@ && !exited_successfully)
}

/// Whether a process that exited is started again under the restart policy.
pub fn should_restart(policy: &str, exited_successfully: bool) -> (r: bool)
    ensures
        r == restart_wanted(policy@, exited_successfully),
{
    proof {
        reveal_strlit("always");
        reveal_strlit("on-failure");
    }
    if str_eq(policy, "always") {
        true
    } else if str_eq(policy, "on-failure") {
        !exited_successfully
    } else {
        false
    }
}

/// Why the supervisor cannot start a mesh.
#[derive(Debug)]
pub enum SupervisorError {
    /// A mesh's layer list cannot be run.
    Layers(LayerFault),
    /// Some layer executables are missing.
    Missing(MissingCoreLayersError),
}

pub enum SupervisorErrorView {
    Layers(LayerFaultView),
    Missing(Seq<MissingCoreLayerView>),
}

impl View for SupervisorError {
    type V = SupervisorErrorView;

    open spec fn view(&self) -> SupervisorErrorView {
        match self {
            SupervisorError::Layers(f) => SupervisorErrorView::Layers(f@),
            SupervisorError::Missing(e) => SupervisorErrorView::Missing(e@),
        }
    }
}

pub open spec fn supervisor_error_text(e: SupervisorErrorView) -> Seq<char> {
    match e {
        SupervisorErrorView::Layers(f) => layer_fault_text(f),
        SupervisorErrorView::Missing(m) => missing_layers_text(m),
    }
}

impl SupervisorError {
    /// The text the daemon reports for this error.
    pub fn message(&self) -> (r: String)
        ensures
            r@ == supervisor_error_text(self@),
    {
        match self {
            SupervisorError::Layers(f) => f.message(),
            SupervisorError::Missing(e) => e.message(),
        }
    }
}

/// What to do to start a layer process.
#[derive(Debug)]
pub enum StartAction {
    /// A process under this name is already running; nothing is started.
    AlreadyRunning { name: String },
    /// Start `binary` with the arguments `--mesh` and the mesh name, and
    /// track it under `name`.
    Spawn { name: String, binary: String },
}

/// The layers each mesh runs, mesh by mesh in configured order; the first
/// mesh whose layer list cannot be run decides the fault.
pub open spec fn plan_meshes(reg: RegistryView, meshes: Seq<(Seq<char>, MeshConfigView)>) -> Result<Seq<(Seq<char>, Seq<Seq<char>>)>, LayerFaultView>
    decreases meshes.len(),
{
    if meshes.len() == 0 {
        Ok(Seq::empty())
    } else {
        match plan_meshes(reg, meshes.drop_last()) {
            Err(f) => Err(f),
            Ok(plan) => match plan_layers(reg, meshes.last().1.layers) {
                Err(f) => Err(f),
                Ok(layers) => Ok(plan.push((meshes.last().0, layers))),
            },
        }
    }
}

/// Every layer of a plan, mesh after mesh.
pub open spec fn flat_layers(plan: Seq<(Seq<char>, Seq<Seq<char>>)>) -> Seq<Seq<char>>
    decreases plan.len(),
{
    if plan.len() == 0 {
        Seq::empty()
    } else {
        flat_layers(plan.drop_last()) + plan.last().1
    }
}

/// The entries of `entries` whose names begin with `prefix`, in order.
pub open spec fn taken(entries: Seq<(Seq<char>, ProcessRecordView)>, prefix: Seq<char>) -> Seq<ProcessRecordView>
    decreases entries.len(),
{
    if entries.len() == 0 {
        Seq::empty()
    } else if has_prefix(entries.last().0, prefix) {
        taken(entries.drop_last(), prefix).push(entries.last().1)
    } else {
        taken(entries.drop_last(), prefix)
    }
}

/// The entries of `entries` whose names do not begin with `prefix`, in order.
pub open spec fn kept(entries: Seq<(Seq<char>, ProcessRecordView)>, prefix: Seq<char>) -> Seq<(Seq<char>, ProcessRecordView)>
    decreases entries.len(),
{
    if entries.len() == 0 {
        Seq::empty()
    } else if has_prefix(entries.last().0, prefix) {
        kept(entries.drop_last(), prefix)
    } else {
        kept(entries.drop_last(), prefix).push(entries.last())
    }
}

/// `base` with each entry of `added` whose key it lacks appended, in order.
pub open spec fn merge_absent(base: Seq<(Seq<char>, Seq<char>)>, added: Seq<(Seq<char>, Seq<char>)>) -> Seq<(Seq<char>, Seq<char>)>
    decreases added.len(),
{
    if added.len() == 0 {
        base
    } else {
        let merged = merge_absent(base, added.drop_last());
        if has_key(merged, added.last().0) {
            merged
        } else {
            merged.push(added.last())
        }
    }
}

/// The value stored under `key` (meaningful when some entry has the key).
pub open spec fn value_at<V>(entries: Seq<(Seq<char>, V)>, key: Seq<char>) -> V {
    entries[choose|i: int| key_position(entries, key, i)].1
}

/// What the supervisor holds: the configuration and layer registry it runs,
/// the processes it started, and the executable found for each layer.
pub struct SupervisorView {
    pub config: ConfigView,
    pub registry: RegistryView,
    pub platform: Platform,
    pub processes: Seq<(Seq<char>, ProcessRecordView)>,
    pub layer_binaries: Seq<(Seq<char>, Seq<char>)>,
}

/// The executable for a layer: the one found before, else the first
/// candidate path that is a regular file.
pub open spec fn binary_for(s: SupervisorView, layer: Seq<char>, files: Seq<Seq<char>>) -> Option<Seq<char>> {
    if has_key(s.layer_binaries, layer) {
        Some(value_at(s.layer_binaries, layer))
    } else {
        first_existing(candidate_paths(layer, s.platform), files)
    }
}

/// `layers` followed by each of `extensions` that it does not hold yet, in
/// order.
pub open spec fn with_extensions(layers: Seq<Seq<char>>, extensions: Seq<Seq<char>>) -> Seq<Seq<char>>
    decreases extensions.len(),
{
    if extensions.len() == 0 {
        layers
    } else {
        let prev = with_extensions(layers, extensions.drop_last());
        if prev.contains(extensions.last()) {
            prev
        } else {
            prev.push(extensions.last())
        }
    }
}

/// The layers whose executables must be present before any process is
/// started: every planned layer, then every extension layer of the registry
/// that no mesh lists (each one is compiled in).
pub open spec fn required_layers(reg: RegistryView, plan: Seq<(Seq<char>, Seq<Seq<char>>)>) -> Seq<Seq<char>> {
    with_extensions(flat_layers(plan), reg.extensions)
}

/// Before any process is started: plan every mesh, then find the
/// executable of every planned layer, failing with those not found; once all
/// are found, find the executables of the extensions no mesh lists, failing
/// with those not found. The plan and the executables found.
pub open spec fn run_preparation(s: SupervisorView, files: Seq<Seq<char>>)
    -> Result<(Seq<(Seq<char>, Seq<Seq<char>>)>, Seq<(Seq<char>, Seq<char>)>), SupervisorErrorView> {
    match plan_meshes(s.registry, s.config.meshes) {
        Err(f) => Err(SupervisorErrorView::Layers(f)),
        Ok(plan) => {
            let planned = resolve_layers(flat_layers(plan), s.platform, files);
            let res = resolve_layers(required_layers(s.registry, plan), s.platform, files);
            if planned.missing.len() > 0 {
                Err(SupervisorErrorView::Missing(planned.missing))
            } else if res.missing.len() > 0 {
                Err(SupervisorErrorView::Missing(res.missing))
            } else {
                Ok((plan, res.resolved))
            }
        }
    }
}

/// Starting one mesh: its layers in start order, and the executables known
/// afterwards (those found before are kept). A mesh not configured starts
/// nothing.
pub open spec fn mesh_start(s: SupervisorView, mesh: Seq<char>, files: Seq<Seq<char>>)
    -> Result<(Seq<Seq<char>>, Seq<(Seq<char>, Seq<char>)>), SupervisorErrorView> {
    if !has_key(s.config.meshes, mesh) {
        Ok((Seq::empty(), s.layer_binaries))
    } else {
        match plan_layers(s.registry, value_at(s.config.meshes, mesh).layers) {
            Err(f) => Err(SupervisorErrorView::Layers(f)),
            Ok(layers) => {
                let res = resolve_layers(layers, s.platform, files);
                if res.missing.len() > 0 {
                    Err(SupervisorErrorView::Missing(res.missing))
                } else {
                    Ok((layers, merge_absent(s.layer_binaries, res.resolved)))
                }
            }
        }
    }
}

/// The supervisor's state.
pub struct Supervisor {
    config: Config,
    registry: LayerRegistry,
    platform: Platform,
    processes: IndexMap<String, ProcessRecord>,
    layer_binaries: IndexMap<String, String>,
}

impl View for Supervisor {
    type V = SupervisorView;

    closed spec fn view(&self) -> SupervisorView {
        SupervisorView {
            config: self.config@,
            registry: self.registry@,
            platform: self.platform,
            processes: process_map_entries(self.processes),
            layer_binaries: name_map_entries(self.layer_binaries),
        }
    }
}

/// Each process is tracked once, under its own name, and each layer has at
/// most one executable.
pub open spec fn processes_well_formed(s: SupervisorView) -> bool {
    &&& keys_distinct(s.processes)
    &&& forall|i: int| 0 <= i < s.processes.len() ==> (#[trigger] s.processes[i]).1.name == s.processes[i].0
    &&& keys_distinct(s.layer_binaries)
}

proof fn lemma_plan_error_persists(reg: RegistryView, all: Seq<(Seq<char>, MeshConfigView)>, k: int, m: int)
    requires
        0 <= k <= m <= all.len(),
        plan_meshes(reg, all.take(k)) is Err,
    ensures
        plan_meshes(reg, all.take(m)) == plan_meshes(reg, all.take(k)),
    decreases m - k,
{
    if m > k {
        lemma_plan_error_persists(reg, all, k, m - 1);
        assert(all.take(m).drop_last() =~= all.take(m - 1));
    }
}

proof fn lemma_resolved_keys_distinct(layers: Seq<Seq<char>>, platform: Platform, files: Seq<Seq<char>>)
    ensures
        keys_distinct(resolve_layers(layers, platform, files).resolved),
    decreases layers.len(),
{
    if layers.len() > 0 {
        lemma_resolved_keys_distinct(layers.drop_last(), platform, files);
    }
}

impl Supervisor {
    #[verifier::type_invariant]
    spec fn supervisor_invariant(self) -> bool {
        processes_well_formed(self@)
    }

    /// A supervisor for the configuration, with no process started and no
    /// executable found yet.
    pub fn new(config: Config, registry: LayerRegistry, platform: Platform) -> (r: Supervisor)
        ensures
            r@.config == config@,
            r@.registry == registry@,
            r@.platform == platform,
            r@.processes == Seq::<(Seq<char>, ProcessRecordView)>::empty(),
            r@.layer_binaries == Seq::<(Seq<char>, Seq<char>)>::empty(),
    {
        Supervisor { config, registry, platform, processes: process_map_new(), layer_binaries: name_map_new() }
    }

    /// The configuration being run.
    pub fn config(&self) -> (r: &Config)
        ensures
            r@ == self@.config,
    {
        &self.config
    }

    /// The layer registry in use.
    pub fn registry(&self) -> (r: &LayerRegistry)
        ensures
            r@ == self@.registry,
    {
        &self.registry
    }

    /// The platform's file-naming conventions.
    pub fn platform(&self) -> (r: Platform)
        ensures
            r == self@.platform,
    {
        self.platform
    }

    /// The layers a mesh runs, in start order.
    pub fn layers_for_mesh(registry: &LayerRegistry, mesh_config: &MeshConfig) -> (r: Result<Vec<String>, LayerFault>)
        ensures
            match r {
                Ok(layers) => plan_layers(registry@, mesh_config@.layers) == Ok::<Seq<Seq<char>>, LayerFaultView>(layers.deep_view()),
                Err(f) => plan_layers(registry@, mesh_config@.layers) == Err::<Seq<Seq<char>>, LayerFaultView>(f@),
            },
    {
        plan_mesh_layers(registry, &mesh_config.layers)
    }

    /// The layers of every mesh, in configured mesh order.
    pub fn planned_mesh_layers(&self) -> (r: Result<Vec<(String, Vec<String>)>, LayerFault>)
        ensures
            match r {
                Ok(plan) => plan_meshes(self@.registry, self@.config.meshes)
                    == Ok::<Seq<(Seq<char>, Seq<Seq<char>>)>, LayerFaultView>(plan.deep_view()),
                Err(f) => plan_meshes(self@.registry, self@.config.meshes)
                    == Err::<Seq<(Seq<char>, Seq<Seq<char>>)>, LayerFaultView>(f@),
            },
    {
        let ghost all = self@.config.meshes;
        let n = mesh_map_len(&self.config.meshes);
        let mut plan: Vec<(String, Vec<String>)> = Vec::new();
        let mut i: usize = 0;
        assert(all.take(0).len() == 0);
        assert(plan.deep_view() =~= Seq::<(Seq<char>, Seq<Seq<char>>)>::empty());
        while i < n
            invariant
                all == self@.config.meshes,
                n == all.len(),
                i <= n,
                plan_meshes(self@.registry, all.take(i as int)) == Ok::<Seq<(Seq<char>, Seq<Seq<char>>)>, LayerFaultView>(plan.deep_view()),
            decreases n - i,
        {
            assert(all.take(i + 1).drop_last() =~= all.take(i as int));
            assert(all.take(i + 1).last() == all[i as int]);
            let (name, mesh) = mesh_map_get_index(&self.config.meshes, i).unwrap();
            match Self::layers_for_mesh(&self.registry, mesh) {
                Err(f) => {
                    proof {
                        lemma_plan_error_persists(self@.registry, all, i + 1, all.len() as int);
                        assert(all.take(all.len() as int) =~= all);
                    }
                    return Err(f);
                }
                Ok(layers) => {
                    let ghost before = plan.deep_view();
                    let entry = (name.clone(), layers);
                    plan.push(entry);
                    assert(plan.deep_view() =~= before.push(entry.deep_view()));
                }
            }
            i = i + 1;
        }
        assert(all.take(n as int) =~= all);
        Ok(plan)
    }

    /// Plans every mesh and finds the executable of every planned layer and
    /// of every extension layer of the registry, before any process is
    /// started. On success the executables found are recorded and the plan
    /// is returned; on failure nothing changes.
    pub fn prepare_run(&mut self, files: &Vec<String>) -> (r: Result<Vec<(String, Vec<String>)>, SupervisorError>)
        ensures
            final(self)@.config == old(self)@.config,
            final(self)@.registry == old(self)@.registry,
            final(self)@.platform == old(self)@.platform,
            final(self)@.processes == old(self)@.processes,
            match r {
                Ok(plan) => run_preparation(old(self)@, files.deep_view())
                    == Ok::<(Seq<(Seq<char>, Seq<Seq<char>>)>, Seq<(Seq<char>, Seq<char>)>), SupervisorErrorView>((plan.deep_view(), final(self)@.layer_binaries)),
                Err(e) => run_preparation(old(self)@, files.deep_view())
                    == Err::<(Seq<(Seq<char>, Seq<Seq<char>>)>, Seq<(Seq<char>, Seq<char>)>), SupervisorErrorView>(e@)
                    && final(self)@ == old(self)@,
            },
    {
        proof { use_type_invariant(&*self); }
        let plan = match self.planned_mesh_layers() {
            Ok(plan) => plan,
            Err(f) => return Err(SupervisorError::Layers(f)),
        };
        let ghost pv = plan.deep_view();
        let mut all_layers: Vec<String> = Vec::new();
        let mut i: usize = 0;
        assert(pv.take(0).len() == 0);
        assert(all_layers.deep_view() =~= flat_layers(pv.take(0)));
        while i < plan.len()
            invariant
                pv == plan.deep_view(),
                i <= plan.len(),
                all_layers.deep_view() == flat_layers(pv.take(i as int)),
            decreases plan.len() - i,
        {
            assert(pv.take(i + 1).drop_last() =~= pv.take(i as int));
            let layers = &plan[i].1;
            assert(pv[i as int].1 == layers.deep_view());
            let ghost start = all_layers.deep_view();
            let mut j: usize = 0;
            while j < layers.len()
                invariant
                    j <= layers.len(),
                    all_layers.deep_view() == start + layers.deep_view().take(j as int),
                decreases layers.len() - j,
            {
                let ghost before = all_layers.deep_view();
                all_layers.push(layers[j].clone());
                assert(all_layers.deep_view() =~= before.push(layers.deep_view()[j as int]));
                assert(layers.deep_view().take(j + 1) =~= layers.deep_view().take(j as int).push(layers.deep_view()[j as int]));
                j = j + 1;
            }
            assert(layers.deep_view().take(layers.len() as int) =~= layers.deep_view());
            i = i + 1;
        }
        assert(pv.take(plan.len() as int) =~= pv);
        if let Err(e) = resolve_required_layers(&all_layers, self.platform, files) {
            return Err(SupervisorError::Missing(e));
        }
        let extensions = self.registry.extension_layers();
        let ghost planned = all_layers.deep_view();
        let ghost exts = extensions.deep_view();
        let mut k: usize = 0;
        assert(exts.take(0) =~= Seq::<Seq<char>>::empty());
        while k < extensions.len()
            invariant
                k <= extensions.len(),
                exts == extensions.deep_view(),
                all_layers.deep_view() == with_extensions(planned, exts.take(k as int)),
            decreases extensions.len() - k,
        {
            assert(exts.take(k + 1).drop_last() =~= exts.take(k as int));
            assert(exts.take(k + 1).last() == exts[k as int]);
            let n = all_layers.len();
            let present = contains_name(&all_layers, n, extensions[k].as_str());
            assert(all_layers.deep_view().take(n as int) =~= all_layers.deep_view());
            if !present {
                let ghost before = all_layers.deep_view();
                all_layers.push(extensions[k].clone());
                assert(all_layers.deep_view() =~= before.push(exts[k as int]));
            }
            k = k + 1;
        }
        assert(exts.take(extensions.len() as int) =~= exts);
        match resolve_required_layers(&all_layers, self.platform, files) {
            Err(e) => Err(SupervisorError::Missing(e)),
            Ok(found) => {
                proof {
                    lemma_resolved_keys_distinct(all_layers.deep_view(), self.platform, files.deep_view());
                }
                self.layer_binaries = found;
                Ok(plan)
            }
        }
    }

    /// Whether a process runs under the name.
    pub fn process_exists(&self, name: &str) -> (r: bool)
        ensures
            r == has_key(self@.processes, name@),
    {
        process_map_contains_key(&self.processes, name)
    }

    /// The names of the running processes, in the order they were started.
    pub fn process_names(&self) -> (r: Vec<String>)
        ensures
            r.deep_view() == self@.processes.map_values(|e: (Seq<char>, ProcessRecordView)| e.0),
    {
        let ghost all = self@.processes;
        let n = process_map_len(&self.processes);
        let mut r: Vec<String> = Vec::new();
        let mut i: usize = 0;
        while i < n
            invariant
                all == self@.processes,
                n == all.len(),
                i <= n,
                r.deep_view() == all.take(i as int).map_values(|e: (Seq<char>, ProcessRecordView)| e.0),
            decreases n - i,
        {
            let (name, _) = process_map_get_index(&self.processes, i).unwrap();
            let ghost before = r.deep_view();
            r.push(name.clone());
            assert(r.deep_view() =~= before.push(all[i as int].0));
            assert(all.take(i + 1).map_values(|e: (Seq<char>, ProcessRecordView)| e.0)
                =~= all.take(i as int).map_values(|e: (Seq<char>, ProcessRecordView)| e.0).push(all[i as int].0));
            i = i + 1;
        }
        assert(all.take(n as int) =~= all);
        r
    }

    /// Whether the named process has run for more than one second.
    pub fn health_check(&self, name: &str, now_nanos: u64) -> (r: bool)
        ensures
            r == (has_key(self@.processes, name@)
                && now_nanos - value_at(self@.processes, name@).started_at_nanos > 1_000_000_000),
    {
        match process_map_get_index_of(&self.processes, name) {
            None => false,
            Some(i) => {
                let (_, record) = process_map_get_index(&self.processes, i).unwrap();
                proof {
                    let e = self@.processes;
                    let k = choose|k: int| key_position(e, name@, k);
                    lemma_key_position_unique(e, name@, i as int, k);
                }
                now_nanos > record.started_at_nanos && now_nanos - record.started_at_nanos > 1_000_000_000
            }
        }
    }

    /// What to do to start a layer of a mesh: nothing when a process with
    /// its name already runs; otherwise start the layer's executable (the one
    /// found before, else the first candidate path among `files`). Fails when
    /// no executable is found.
    pub fn start_layer(&self, mesh_name: &str, layer_name: &str, files: &Vec<String>) -> (r: Result<StartAction, MissingCoreLayersError>)
        ensures
            has_key(self@.processes, process_name_spec(mesh_name@, layer_name@))
                ==> (r matches Ok(StartAction::AlreadyRunning { name }) && name@ == process_name_spec(mesh_name@, layer_name@)),
            !has_key(self@.processes, process_name_spec(mesh_name@, layer_name@))
                && binary_for(self@, layer_name@, files.deep_view()) is Some
                ==> (r matches Ok(StartAction::Spawn { name, binary }) && name@ == process_name_spec(mesh_name@, layer_name@)
                    && binary@ == binary_for(self@, layer_name@, files.deep_view())->0),
            !has_key(self@.processes, process_name_spec(mesh_name@, layer_name@))
                && binary_for(self@, layer_name@, files.deep_view()) is None
                ==> (r matches Err(e) && e@ == seq![MissingCoreLayerView { layer: layer_name@, attempted_paths: candidate_paths(layer_name@, self@.platform) }]),
    {
        let name = process_name(mesh_name, layer_name);
        if process_map_contains_key(&self.processes, name.as_str()) {
            return Ok(StartAction::AlreadyRunning { name });
        }
        let binary = match name_map_get_index_of(&self.layer_binaries, layer_name) {
            Some(i) => {
                let (_, path) = name_map_get_index(&self.layer_binaries, i).unwrap();
                proof {
                    let e = self@.layer_binaries;
                    let k = choose|k: int| key_position(e, layer_name@, k);
                    lemma_key_position_unique(e, layer_name@, i as int, k);
                }
                path.clone()
            }
            None => resolve_layer_binary(layer_name, self.platform, files)?,
        };
        Ok(StartAction::Spawn { name, binary })
    }

    /// Records a layer process that was started. Nothing changes when a
    /// process with its name is already recorded.
    pub fn record_started(&mut self, mesh_name: &str, layer_name: &str, pid: u32, started_at_nanos: u64) -> (r: bool)
        ensures
            r == !has_key(old(self)@.processes, process_name_spec(mesh_name@, layer_name@)),
            r ==> final(self)@.processes == old(self)@.processes.push((
                process_name_spec(mesh_name@, layer_name@),
                ProcessRecordView {
                    name: process_name_spec(mesh_name@, layer_name@),
                    mesh: mesh_name@,
                    layer: layer_name@,
                    pid,
                    started_at_nanos,
                    restart_count: 0,
                },
            )),
            !r ==> final(self)@.processes == old(self)@.processes,
            final(self)@.config == old(self)@.config,
            final(self)@.registry == old(self)@.registry,
            final(self)@.platform == old(self)@.platform,
            final(self)@.layer_binaries == old(self)@.layer_binaries,
    {
        proof { use_type_invariant(&*self); }
        let name = process_name(mesh_name, layer_name);
        if process_map_contains_key(&self.processes, name.as_str()) {
            return false;
        }
        let record = ProcessRecord {
            name: name.clone(),
            mesh: owned(mesh_name),
            layer: owned(layer_name),
            pid,
            started_at_nanos,
            restart_count: 0,
        };
        let ghost before = process_map_entries(self.processes);
        let mut procs = process_map_new();
        std::mem::swap(&mut procs, &mut self.processes);
        process_map_insert(&mut procs, name, record);
        proof {
            let after = process_map_entries(procs);
            assert forall|a: int, b: int| 0 <= a < after.len() && 0 <= b < after.len() && a != b
                implies (#[trigger] after[a]).0 != (#[trigger] after[b]).0 by {
                if a == before.len() as int {
                    assert(before[b].0 != process_name_spec(mesh_name@, layer_name@));
                } else if b == before.len() as int {
                    assert(before[a].0 != process_name_spec(mesh_name@, layer_name@));
                } else {
                    assert(after[a] == before[a] && after[b] == before[b]);
                }
            }
        }
        self.processes = procs;
        true
    }

    /// Whether a process that exited is started again, and if so, the mesh
    /// and layer to start.
    pub fn exit_decision(&self, name: &str, exited_successfully: bool) -> (r: Option<(String, String)>)
        ensures
            r is Some <==> (has_key(self@.processes, name@) && restart_wanted(self@.config.options.restart, exited_successfully)),
            r matches Some((mesh, layer)) ==> mesh@ == value_at(self@.processes, name@).mesh
                && layer@ == value_at(self@.processes, name@).layer,
    {
        match process_map_get_index_of(&self.processes, name) {
            None => None,
            Some(i) => {
                let (_, record) = process_map_get_index(&self.processes, i).unwrap();
                proof {
                    let e = self@.processes;
                    let k = choose|k: int| key_position(e, name@, k);
                    lemma_key_position_unique(e, name@, i as int, k);
                }
                if should_restart(self.config.options.restart.as_str(), exited_successfully) {
                    Some((record.mesh.clone(), record.layer.clone()))
                } else {
                    None
                }
            }
        }
    }

    /// Forgets the named process and returns its record.
    pub fn remove_process(&mut self, name: &str) -> (r: Option<ProcessRecord>)
        ensures
            r is Some <==> has_key(old(self)@.processes, name@),
            r is None ==> final(self)@.processes == old(self)@.processes,
            r matches Some(rec) ==> rec@ == value_at(old(self)@.processes, name@)
                && final(self)@.processes == old(self)@.processes.remove(choose|i: int| key_position(old(self)@.processes, name@, i)),
            final(self)@.config == old(self)@.config,
            final(self)@.registry == old(self)@.registry,
            final(self)@.platform == old(self)@.platform,
            final(self)@.layer_binaries == old(self)@.layer_binaries,
    {
        proof { use_type_invariant(&*self); }
        let ghost before = process_map_entries(self.processes);
        proof {
            if has_key(before, name@) {
                lemma_key_position_exists(before, name@);
            }
        }
        let mut procs = process_map_new();
        std::mem::swap(&mut procs, &mut self.processes);
        let r = process_map_shift_remove(&mut procs, name);
        proof {
            let after = process_map_entries(procs);
            if has_key(before, name@) {
                let k = choose|k: int| key_position(before, name@, k);
                assert(after == before.remove(k));
                assert forall|a: int, b: int| 0 <= a < after.len() && 0 <= b < after.len() && a != b
                    implies (#[trigger] after[a]).0 != (#[trigger] after[b]).0 by {
                    let a2 = if a < k { a } else { a + 1 };
                    let b2 = if b < k { b } else { b + 1 };
                    assert(after[a] == before[a2] && after[b] == before[b2]);
                }
                assert forall|a: int| 0 <= a < after.len() implies (#[trigger] after[a]).1.name == after[a].0 by {
                    let a2 = if a < k { a } else { a + 1 };
                    assert(after[a] == before[a2]);
                }
            }
        }
        self.processes = procs;
        r
    }

    /// Forgets every process of the mesh and returns their records, in the
    /// order they were started; the other processes keep their order.
    pub fn stop_mesh(&mut self, mesh_name: &str) -> (r: Vec<ProcessRecord>)
        ensures
            r@.map_values(|p: ProcessRecord| p@) == taken(old(self)@.processes, mesh_prefix(mesh_name@)),
            final(self)@.processes == kept(old(self)@.processes, mesh_prefix(mesh_name@)),
            final(self)@.config == old(self)@.config,
            final(self)@.registry == old(self)@.registry,
            final(self)@.platform == old(self)@.platform,
            final(self)@.layer_binaries == old(self)@.layer_binaries,
    {
        let prefix = concat3("aigosd-", mesh_name, "@");
        self.remove_matching(prefix.as_str())
    }

    /// Forgets every process and returns their records, in the order they
    /// were started.
    pub fn stop_all(&mut self) -> (r: Vec<ProcessRecord>)
        ensures
            r@.map_values(|p: ProcessRecord| p@) == old(self)@.processes.map_values(|e: (Seq<char>, ProcessRecordView)| e.1),
            final(self)@.processes == Seq::<(Seq<char>, ProcessRecordView)>::empty(),
            final(self)@.config == old(self)@.config,
            final(self)@.registry == old(self)@.registry,
            final(self)@.platform == old(self)@.platform,
            final(self)@.layer_binaries == old(self)@.layer_binaries,
    {
        proof {
            reveal_strlit("");
            assert(""@ =~= Seq::<char>::empty());
            lemma_empty_prefix(old(self)@.processes);
        }
        self.remove_matching("")
    }

    /// Forgets every process whose name begins with `prefix`.
    fn remove_matching(&mut self, prefix: &str) -> (r: Vec<ProcessRecord>)
        ensures
            r@.map_values(|p: ProcessRecord| p@) == taken(old(self)@.processes, prefix@),
            final(self)@.processes == kept(old(self)@.processes, prefix@),
            final(self)@.config == old(self)@.config,
            final(self)@.registry == old(self)@.registry,
            final(self)@.platform == old(self)@.platform,
            final(self)@.layer_binaries == old(self)@.layer_binaries,
    {
        proof { use_type_invariant(&*self); }
        let ghost all = process_map_entries(self.processes);
        let mut procs = process_map_new();
        std::mem::swap(&mut procs, &mut self.processes);
        let mut removed: Vec<ProcessRecord> = Vec::new();
        let mut j: usize = 0;
        let ghost mut i: int = 0;
        assert(all.take(0).len() == 0);
        assert(all.skip(0) =~= all);
        assert(process_map_entries(procs) =~= kept(all.take(0), prefix@) + all.skip(0));
        assert(removed@.map_values(|p: ProcessRecord| p@) =~= taken(all.take(0), prefix@));
        while j < process_map_len(&procs)
            invariant
                0 <= i <= all.len(),
                j == kept(all.take(i), prefix@).len(),
                process_map_entries(procs) == kept(all.take(i), prefix@) + all.skip(i),
                removed@.map_values(|p: ProcessRecord| p@) == taken(all.take(i), prefix@),
                keys_distinct(process_map_entries(procs)),
                forall|a: int| 0 <= a < process_map_entries(procs).len()
                    ==> (#[trigger] process_map_entries(procs)[a]).1.name == process_map_entries(procs)[a].0,
                self.config == old(self).config,
                self.registry == old(self).registry,
                self.platform == old(self).platform,
                self.layer_binaries == old(self).layer_binaries,
                all == old(self)@.processes,
            decreases all.len() - i,
        {
            let ghost cur = process_map_entries(procs);
            assert(cur[j as int] == all[i]);
            assert(all.take(i + 1).drop_last() =~= all.take(i));
            assert(all.take(i + 1).last() == all[i]);
            let (name, _) = process_map_get_index(&procs, j).unwrap();
            let key = name.clone();
            if str_starts_with(key.as_str(), prefix) {
                proof { lemma_distinct_key_position(cur, key@, j as int); }
                let record = process_map_shift_remove(&mut procs, key.as_str());
                proof {
                    let k = choose|k: int| key_position(cur, key@, k);
                    lemma_key_position_unique(cur, key@, j as int, k);
                }
                let ghost before = removed@.map_values(|p: ProcessRecord| p@);
                let rec = record.unwrap();
                removed.push(rec);
                proof {
                    assert(removed@.map_values(|p: ProcessRecord| p@) =~= before.push(all[i].1));
                    assert(all.skip(i) =~= seq![all[i]] + all.skip(i + 1));
                    let after = process_map_entries(procs);
                    assert(after =~= kept(all.take(i + 1), prefix@) + all.skip(i + 1));
                    assert forall|a: int, b: int| 0 <= a < after.len() && 0 <= b < after.len() && a != b
                        implies (#[trigger] after[a]).0 != (#[trigger] after[b]).0 by {
                        let a2 = if a < j { a } else { a + 1 };
                        let b2 = if b < j { b } else { b + 1 };
                        assert(after[a] == cur[a2] && after[b] == cur[b2]);
                    }
                    assert forall|a: int| 0 <= a < after.len() implies (#[trigger] after[a]).1.name == after[a].0 by {
                        let a2 = if a < j { a } else { a + 1 };
                        assert(after[a] == cur[a2]);
                    }
                }
            } else {
                proof {
                    assert(all.skip(i) =~= seq![all[i]] + all.skip(i + 1));
                    assert(kept(all.take(i + 1), prefix@) =~= kept(all.take(i), prefix@).push(all[i]));
                    assert(cur =~= kept(all.take(i + 1), prefix@) + all.skip(i + 1));
                }
                j = j + 1;
            }
            proof { i = i + 1; }
        }
        proof {
            let cur = process_map_entries(procs);
            assert(i == all.len()) by {
                if i < all.len() {
                    assert(cur.len() == j + (all.len() - i));
                }
            }
            assert(all.take(i) =~= all);
            assert(all.skip(i) =~= Seq::<(Seq<char>, ProcessRecordView)>::empty());
            assert(cur =~= kept(all, prefix@));
        }
        self.processes = procs;
        removed
    }

    /// Finds the executable of every Core layer, given the paths in the
    /// runtime directory that are regular files.
    pub fn resolve_core_layers(registry: &LayerRegistry, platform: Platform, files: &Vec<String>) -> (r: Result<IndexMap<String, String>, MissingCoreLayersError>)
        ensures
            match r {
                Ok(found) => resolve_layers(registry@.core, platform, files.deep_view()).missing.len() == 0
                    && name_map_entries(found) == resolve_layers(registry@.core, platform, files.deep_view()).resolved,
                Err(e) => resolve_layers(registry@.core, platform, files.deep_view()).missing.len() > 0
                    && e@ == resolve_layers(registry@.core, platform, files.deep_view()).missing,
            },
    {
        let core = registry.core_layers();
        resolve_required_layers(&core, platform, files)
    }

    /// Restarts a mesh: forgets its processes (returned for stopping, in the
    /// order they were started), then starts it again as `start_mesh` does.
    pub fn restart_mesh(&mut self, mesh_name: &str, files: &Vec<String>) -> (r: (Vec<ProcessRecord>, Result<Vec<String>, SupervisorError>))
        ensures
            r.0@.map_values(|p: ProcessRecord| p@) == taken(old(self)@.processes, mesh_prefix(mesh_name@)),
            final(self)@.processes == kept(old(self)@.processes, mesh_prefix(mesh_name@)),
            final(self)@.config == old(self)@.config,
            final(self)@.registry == old(self)@.registry,
            final(self)@.platform == old(self)@.platform,
            ({
                let stopped = SupervisorView { processes: kept(old(self)@.processes, mesh_prefix(mesh_name@)), ..old(self)@ };
                match r.1 {
                    Ok(layers) => mesh_start(stopped, mesh_name@, files.deep_view())
                        == Ok::<(Seq<Seq<char>>, Seq<(Seq<char>, Seq<char>)>), SupervisorErrorView>((layers.deep_view(), final(self)@.layer_binaries)),
                    Err(e) => mesh_start(stopped, mesh_name@, files.deep_view())
                        == Err::<(Seq<Seq<char>>, Seq<(Seq<char>, Seq<char>)>), SupervisorErrorView>(e@)
                        && final(self)@.layer_binaries == old(self)@.layer_binaries,
                }
            }),
    {
        let stopped = self.stop_mesh(mesh_name);
        let started = self.start_mesh(mesh_name, files);
        (stopped, started)
    }

    /// Starts a configured mesh: plans its layers and finds their
    /// executables, keeping any found before. Returns the layers to start, in
    /// start order; a mesh that is not configured starts nothing. On failure
    /// nothing changes.
    pub fn start_mesh(&mut self, mesh_name: &str, files: &Vec<String>) -> (r: Result<Vec<String>, SupervisorError>)
        ensures
            final(self)@.config == old(self)@.config,
            final(self)@.registry == old(self)@.registry,
            final(self)@.platform == old(self)@.platform,
            final(self)@.processes == old(self)@.processes,
            match r {
                Ok(layers) => mesh_start(old(self)@, mesh_name@, files.deep_view())
                    == Ok::<(Seq<Seq<char>>, Seq<(Seq<char>, Seq<char>)>), SupervisorErrorView>((layers.deep_view(), final(self)@.layer_binaries)),
                Err(e) => mesh_start(old(self)@, mesh_name@, files.deep_view())
                    == Err::<(Seq<Seq<char>>, Seq<(Seq<char>, Seq<char>)>), SupervisorErrorView>(e@)
                    && final(self)@ == old(self)@,
            },
    {
        proof { use_type_invariant(&*self); }
        let index = match mesh_map_get_index_of(&self.config.meshes, mesh_name) {
            None => {
                let none: Vec<String> = Vec::new();
                assert(none.deep_view() =~= Seq::<Seq<char>>::empty());
                return Ok(none);
            }
            Some(i) => i,
        };
        let (_, mesh) = mesh_map_get_index(&self.config.meshes, index).unwrap();
        proof {
            let e = self@.config.meshes;
            let k = choose|k: int| key_position(e, mesh_name@, k);
            lemma_key_position_unique(e, mesh_name@, index as int, k);
        }
        let layers = match Self::layers_for_mesh(&self.registry, mesh) {
            Ok(layers) => layers,
            Err(f) => return Err(SupervisorError::Layers(f)),
        };
        let found = match resolve_required_layers(&layers, self.platform, files) {
            Ok(found) => found,
            Err(e) => return Err(SupervisorError::Missing(e)),
        };
        let ghost added = name_map_entries(found);
        let ghost base = name_map_entries(self.layer_binaries);
        let n = name_map_len(&found);
        let mut binaries = name_map_new();
        std::mem::swap(&mut binaries, &mut self.layer_binaries);
        let mut i: usize = 0;
        assert(added.take(0) =~= Seq::<(Seq<char>, Seq<char>)>::empty());
        while i < n
            invariant
                added == name_map_entries(found),
                n == added.len(),
                i <= n,
                name_map_entries(binaries) == merge_absent(base, added.take(i as int)),
                keys_distinct(name_map_entries(binaries)),
                self.config == old(self).config,
                self.registry == old(self).registry,
                self.platform == old(self).platform,
                self.processes == old(self).processes,
                base == old(self)@.layer_binaries,
            decreases n - i,
        {
            assert(added.take(i + 1).drop_last() =~= added.take(i as int));
            assert(added.take(i + 1).last() == added[i as int]);
            let (layer, path) = name_map_get_index(&found, i).unwrap();
            if !name_map_contains_key(&binaries, layer.as_str()) {
                let ghost before = name_map_entries(binaries);
                name_map_insert(&mut binaries, layer.clone(), path.clone());
                proof {
                    let after = name_map_entries(binaries);
                    assert forall|a: int, b: int| 0 <= a < after.len() && 0 <= b < after.len() && a != b
                        implies (#[trigger] after[a]).0 != (#[trigger] after[b]).0 by {
                        if a == before.len() as int {
                            assert(before[b].0 != layer@);
                        } else if b == before.len() as int {
                            assert(before[a].0 != layer@);
                        } else {
                            assert(after[a] == before[a] && after[b] == before[b]);
                        }
                    }
                }
            }
            i = i + 1;
        }
        assert(added.take(n as int) =~= added);
        self.layer_binaries = binaries;
        Ok(layers)
    }
}

/// Every name begins with the empty prefix.
proof fn lemma_empty_prefix(entries: Seq<(Seq<char>, ProcessRecordView)>)
    requires
        ""@ == Seq::<char>::empty(),
    ensures
        taken(entries, ""@) == entries.map_values(|e: (Seq<char>, ProcessRecordView)| e.1),
        kept(entries, ""@) == Seq::<(Seq<char>, ProcessRecordView)>::empty(),
    decreases entries.len(),
{
    if entries.len() > 0 {
        lemma_empty_prefix(entries.drop_last());
        assert(has_prefix(entries.last().0, ""@)) by {
            assert(entries.last().0.take(0) =~= Seq::<char>::empty());
        }
        assert(entries.map_values(|e: (Seq<char>, ProcessRecordView)| e.1)
            =~= entries.drop_last().map_values(|e: (Seq<char>, ProcessRecordView)| e.1).push(entries.last().1));
    } else {
        assert(entries.map_values(|e: (Seq<char>, ProcessRecordView)| e.1) =~= Seq::<ProcessRecordView>::empty());
    }
}


/// A line a layer process wrote, as the daemon logs it: attributed to the
/// process and stream, at error level for standard error and info level
/// otherwise.
pub open spec fn output_record_spec(process: Seq<char>, stream: Seq<char>, line: Seq<char>) -> (Level, Seq<char>) {
    (
        if stream == "stderr"@ { Level::Error } else { Level::Info },
        "["@ + process + ":"@ + stream + "] "@ + line,
    )
}

/// The record the daemon logs for a line a layer process wrote.
pub fn output_record(process_name: &str, stream_name: &str, line: &str) -> (r: (Level, String))
    ensures
        r.0 == output_record_spec(process_name@, stream_name@, line@).0,
        r.1@ == output_record_spec(process_name@, stream_name@, line@).1,
{
    proof {
        reveal_strlit("stderr");
    }
    let mut text = concat4("[", process_name, ":", stream_name);
    text.append("] ");
    text.append(line);
    let level = if str_eq(stream_name, "stderr") { Level::Error } else { Level::Info };
    (level, text)
}

/// Whether a failure to signal a process group is worth reporting: a group
/// that no longer exists (`ESRCH`) is not.
pub fn signal_failure_is_reported(os_error: Option<i32>) -> (r: bool)
    ensures
        r == (os_error != Some(3i32)),
{
    match os_error {
        Some(code) => code != 3,
        None => true,
    }
}

} // verus!
