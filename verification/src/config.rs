//! The daemon's configuration: named meshes, each with an optional layer
//! list, and daemon options. This module holds the rules a configuration must
//! meet, and the decisions taken while its top-level mapping is read.
use indexmap::IndexMap;
use vstd::prelude::*;
use vstd::string::*;
use crate::layers::{check_layer_list, LayerFault, LayerFaultView, LayerRegistry, RegistryView, check_layers};
use crate::log_path::{
    check_log_path_lexically, decide_log_path, decide_log_path_spec, lexical_log_path, log_path_error_text, EntryProbe, LogPathError,
    LogPathErrorView, ParentProbe, TargetProbe,
};
use crate::resolve::Platform;
use crate::ordered_map::{
    has_key, mesh_map_contains_key, mesh_map_entries, mesh_map_get_index, mesh_map_insert, mesh_map_is_empty,
    mesh_map_len, mesh_map_new,
};
use crate::text::{chars_of, concat2, concat3, concat5, owned, str_eq};

verus! {

/// One mesh's settings: the layers it lists, if any.
#[derive(Debug)]
pub struct MeshConfig {
    pub layers: Option<Vec<String>>,
}

pub struct MeshConfigView {
    pub layers: Option<Seq<Seq<char>>>,
}

impl View for MeshConfig {
    type V = MeshConfigView;

    open spec fn view(&self) -> MeshConfigView {
        MeshConfigView { layers: self.layers.deep_view() }
    }
}

/// Daemon options.
#[derive(Debug)]
pub struct Options {
    /// `structured` or `plaintext`.
    pub logging: String,
    /// `on-failure`, `never` or `always`.
    pub restart: String,
    /// A log file inside the runtime directory, if any.
    pub log_file: Option<String>,
}

pub struct OptionsView {
    pub logging: Seq<char>,
    pub restart: Seq<char>,
    pub log_file: Option<Seq<char>>,
}

impl View for Options {
    type V = OptionsView;

    open spec fn view(&self) -> OptionsView {
        OptionsView { logging: self.logging@, restart: self.restart@, log_file: self.log_file.deep_view() }
    }
}

/// A whole configuration: the meshes in configured order, and the options.
#[derive(Debug)]
pub struct Config {
    pub meshes: IndexMap<String, MeshConfig>,
    pub options: Options,
}

pub struct ConfigView {
    pub meshes: Seq<(Seq<char>, MeshConfigView)>,
    pub options: OptionsView,
}

impl View for Config {
    type V = ConfigView;

    open spec fn view(&self) -> ConfigView {
        ConfigView { meshes: mesh_map_entries(self.meshes), options: self.options@ }
    }
}

/// Why a configuration is refused.
#[derive(Debug)]
pub enum ConfigError {
    NoMeshes,
    InvalidMeshName(String),
    EmptyLayerList { mesh: String },
    InvalidLayer { layer: String, mesh: String },
    DuplicateCoreLayer { layer: String, mesh: String },
    DuplicateExtensionLayer { layer: String, mesh: String },
    PartialCore { mesh: String },
    InvalidLoggingMode(String),
    InvalidRestartPolicy(String),
    LogPath(LogPathError),
    DuplicateTopLevelKey(String),
    UnknownField(String),
    UnsupportedVersion(String),
    MissingField(String),
    DuplicateMeshName(String),
}

pub enum ConfigErrorView {
    NoMeshes,
    InvalidMeshName(Seq<char>),
    EmptyLayerList { mesh: Seq<char> },
    InvalidLayer { layer: Seq<char>, mesh: Seq<char> },
    DuplicateCoreLayer { layer: Seq<char>, mesh: Seq<char> },
    DuplicateExtensionLayer { layer: Seq<char>, mesh: Seq<char> },
    PartialCore { mesh: Seq<char> },
    InvalidLoggingMode(Seq<char>),
    InvalidRestartPolicy(Seq<char>),
    LogPath(LogPathErrorView),
    DuplicateTopLevelKey(Seq<char>),
    UnknownField(Seq<char>),
    UnsupportedVersion(Seq<char>),
    MissingField(Seq<char>),
    DuplicateMeshName(Seq<char>),
}

impl View for ConfigError {
    type V = ConfigErrorView;

    open spec fn view(&self) -> ConfigErrorView {
        match self {
            ConfigError::NoMeshes => ConfigErrorView::NoMeshes,
            ConfigError::InvalidMeshName(n) => ConfigErrorView::InvalidMeshName(n@),
            ConfigError::EmptyLayerList { mesh } => ConfigErrorView::EmptyLayerList { mesh: mesh@ },
            ConfigError::InvalidLayer { layer, mesh } => ConfigErrorView::InvalidLayer { layer: layer@, mesh: mesh@ },
            ConfigError::DuplicateCoreLayer { layer, mesh } => ConfigErrorView::DuplicateCoreLayer { layer: layer@, mesh: mesh@ },
            ConfigError::DuplicateExtensionLayer { layer, mesh } => ConfigErrorView::DuplicateExtensionLayer { layer: layer@, mesh: mesh@ },
            ConfigError::PartialCore { mesh } => ConfigErrorView::PartialCore { mesh: mesh@ },
            ConfigError::InvalidLoggingMode(m) => ConfigErrorView::InvalidLoggingMode(m@),
            ConfigError::InvalidRestartPolicy(p) => ConfigErrorView::InvalidRestartPolicy(p@),
            ConfigError::LogPath(e) => ConfigErrorView::LogPath(e@),
            ConfigError::DuplicateTopLevelKey(k) => ConfigErrorView::DuplicateTopLevelKey(k@),
            ConfigError::UnknownField(k) => ConfigErrorView::UnknownField(k@),
            ConfigError::UnsupportedVersion(v) => ConfigErrorView::UnsupportedVersion(v@),
            ConfigError::MissingField(f) => ConfigErrorView::MissingField(f@),
            ConfigError::DuplicateMeshName(n) => ConfigErrorView::DuplicateMeshName(n@),
        }
    }
}

/// The text the daemon reports for a refused configuration.
pub open spec fn config_error_text(e: ConfigErrorView) -> Seq<char> {
    match e {
        ConfigErrorView::NoMeshes => "Config must define at least one mesh"@,
        ConfigErrorView::InvalidMeshName(n) => "Invalid mesh name '"@ + n
            + "': use 1-64 ASCII characters, start with a letter or digit, and use only letters, digits, '_', '.', or '-'"@,
        ConfigErrorView::EmptyLayerList { mesh } => "Mesh '"@ + mesh + "' must omit layers or list Core and/or extension layers"@,
        ConfigErrorView::InvalidLayer { layer, mesh } => "Invalid layer '"@ + layer + "' in mesh '"@ + mesh + "'"@,
        ConfigErrorView::DuplicateCoreLayer { layer, mesh } => "Duplicate Core layer '"@ + layer + "' in mesh '"@ + mesh + "'"@,
        ConfigErrorView::DuplicateExtensionLayer { layer, mesh } => "Duplicate extension layer '"@ + layer + "' in mesh '"@ + mesh + "'"@,
        ConfigErrorView::PartialCore { mesh } => "Core mesh '"@ + mesh + "' must include all ten canonical Core layers or omit Core layers"@,
        ConfigErrorView::InvalidLoggingMode(m) => "Invalid logging mode: "@ + m,
        ConfigErrorView::InvalidRestartPolicy(p) => "Invalid restart policy: "@ + p,
        ConfigErrorView::LogPath(e) => log_path_error_text(e),
        ConfigErrorView::DuplicateTopLevelKey(k) => "Duplicate top-level key '"@ + k + "' in config.yaml"@,
        ConfigErrorView::UnknownField(k) => "unknown field `"@ + k + "`, expected one of `version`, `meshes`, `options`"@,
        ConfigErrorView::UnsupportedVersion(v) => "Unsupported config version '"@ + v + "'; expected '1.0.0'"@,
        ConfigErrorView::MissingField(f) => "missing field `"@ + f + "`"@,
        ConfigErrorView::DuplicateMeshName(n) => "Duplicate mesh name '"@ + n + "' in config.yaml"@,
    }
}

impl ConfigError {
    /// The text the daemon reports for this error.
    pub fn message(&self) -> (r: String)
        ensures
            r@ == config_error_text(self@),
    {
        match self {
            ConfigError::NoMeshes => owned("Config must define at least one mesh"),
            ConfigError::InvalidMeshName(n) => concat3(
                "Invalid mesh name '",
                n.as_str(),
                "': use 1-64 ASCII characters, start with a letter or digit, and use only letters, digits, '_', '.', or '-'",
            ),
            ConfigError::EmptyLayerList { mesh } => concat3("Mesh '", mesh.as_str(), "' must omit layers or list Core and/or extension layers"),
            ConfigError::InvalidLayer { layer, mesh } => concat5("Invalid layer '", layer.as_str(), "' in mesh '", mesh.as_str(), "'"),
            ConfigError::DuplicateCoreLayer { layer, mesh } => concat5("Duplicate Core layer '", layer.as_str(), "' in mesh '", mesh.as_str(), "'"),
            ConfigError::DuplicateExtensionLayer { layer, mesh } => concat5("Duplicate extension layer '", layer.as_str(), "' in mesh '", mesh.as_str(), "'"),
            ConfigError::PartialCore { mesh } => concat3("Core mesh '", mesh.as_str(), "' must include all ten canonical Core layers or omit Core layers"),
            ConfigError::InvalidLoggingMode(m) => concat2("Invalid logging mode: ", m.as_str()),
            ConfigError::InvalidRestartPolicy(p) => concat2("Invalid restart policy: ", p.as_str()),
            ConfigError::LogPath(e) => e.message(),
            ConfigError::DuplicateTopLevelKey(k) => concat3("Duplicate top-level key '", k.as_str(), "' in config.yaml"),
            ConfigError::UnknownField(k) => concat3("unknown field `", k.as_str(), "`, expected one of `version`, `meshes`, `options`"),
            ConfigError::UnsupportedVersion(v) => concat3("Unsupported config version '", v.as_str(), "'; expected '1.0.0'"),
            ConfigError::MissingField(f) => concat3("missing field `", f.as_str(), "`"),
            ConfigError::DuplicateMeshName(n) => concat3("Duplicate mesh name '", n.as_str(), "' in config.yaml"),
        }
    }
}

// ---------------------------------------------------------------------------
// Mesh names.

pub open spec fn is_ascii_alphanumeric(c: char) -> bool {
    ('a' <= c && c <= 'z') || ('A' <= c && c <= 'Z') || ('0' <= c && c <= '9')
}

pub open spec fn is_mesh_name_char(c: char) -> bool {
    is_ascii_alphanumeric(c) || c == '_' || c == '.' || c == '-'
}

/// A mesh name is 1 to 64 ASCII characters, begins with a letter or digit,
/// and holds only letters, digits, `_`, `.` and `-`.
pub open spec fn valid_mesh_name(name: Seq<char>) -> bool {
    &&& 1 <= name.len() <= 64
    &&& is_ascii_alphanumeric(name[0])
    &&& forall|i: int| 0 <= i < name.len() ==> is_mesh_name_char(#[trigger] name[i])
}

fn char_is_ascii_alphanumeric(c: char) -> (r: bool)
    ensures
        r == is_ascii_alphanumeric(c),
{
    (c >= 'a' && c <= 'z') || (c >= 'A' && c <= 'Z') || (c >= '0' && c <= '9')
}

/// Checks a mesh name.
pub fn validate_mesh_name(mesh_name: &str) -> (r: Result<(), ConfigError>)
    ensures
        r is Ok <==> valid_mesh_name(mesh_name@),
        r matches Err(e) ==> e@ == ConfigErrorView::InvalidMeshName(mesh_name@),
{
    let chars = chars_of(mesh_name);
    let mut ok = chars.len() >= 1 && chars.len() <= 64 && char_is_ascii_alphanumeric(chars[0]);
    let mut i: usize = 0;
    while i < chars.len()
        invariant
            chars@ == mesh_name@,
            i <= chars.len(),
            ok == (1 <= chars@.len() <= 64 && is_ascii_alphanumeric(chars@[0])
                && forall|j: int| 0 <= j < i ==> is_mesh_name_char(#[trigger] chars@[j])),
        decreases chars.len() - i,
    {
        let c = chars[i];
        if !(char_is_ascii_alphanumeric(c) || c == '_' || c == '.' || c == '-') {
            ok = false;
        }
        i = i + 1;
    }
    if ok {
        Ok(())
    } else {
        Err(ConfigError::InvalidMeshName(owned(mesh_name)))
    }
}

// ---------------------------------------------------------------------------
// Layer lists.

/// The configuration error for a fault in a mesh's layer list.
pub open spec fn mesh_layer_error(mesh: Seq<char>, fault: LayerFaultView) -> ConfigErrorView {
    match fault {
        LayerFaultView::InvalidLayer(l) => ConfigErrorView::InvalidLayer { layer: l, mesh },
        LayerFaultView::DuplicateCore(l) => ConfigErrorView::DuplicateCoreLayer { layer: l, mesh },
        LayerFaultView::DuplicateExtension(l) => ConfigErrorView::DuplicateExtensionLayer { layer: l, mesh },
        LayerFaultView::PartialCore => ConfigErrorView::PartialCore { mesh },
    }
}

/// Whether a listed layer list is acceptable for the mesh: it must not be
/// empty, must name only known layers, none twice, and Core all or none.
pub open spec fn layer_list_verdict(reg: RegistryView, mesh: Seq<char>, layers: Seq<Seq<char>>) -> Result<(), ConfigErrorView> {
    if layers.len() == 0 {
        Err(ConfigErrorView::EmptyLayerList { mesh })
    } else {
        match check_layers(reg, layers) {
            Ok(_) => Ok(()),
            Err(fault) => Err(mesh_layer_error(mesh, fault)),
        }
    }
}

/// Checks the layer list configured for a mesh.
pub fn validate_layer_list(reg: &LayerRegistry, mesh_name: &str, layers: &Vec<String>) -> (r: Result<(), ConfigError>)
    ensures
        match r {
            Ok(()) => layer_list_verdict(reg@, mesh_name@, layers.deep_view()) == Ok::<(), ConfigErrorView>(()),
            Err(e) => layer_list_verdict(reg@, mesh_name@, layers.deep_view()) == Err::<(), ConfigErrorView>(e@),
        },
{
    if layers.len() == 0 {
        return Err(ConfigError::EmptyLayerList { mesh: owned(mesh_name) });
    }
    match check_layer_list(reg, layers) {
        Ok(_) => Ok(()),
        Err(fault) => {
            let mesh = owned(mesh_name);
            Err(match fault {
                LayerFault::InvalidLayer(layer) => ConfigError::InvalidLayer { layer, mesh },
                LayerFault::DuplicateCore(layer) => ConfigError::DuplicateCoreLayer { layer, mesh },
                LayerFault::DuplicateExtension(layer) => ConfigError::DuplicateExtensionLayer { layer, mesh },
                LayerFault::PartialCore => ConfigError::PartialCore { mesh },
            })
        }
    }
}

// ---------------------------------------------------------------------------
// Whole configurations.

/// The verdict on one mesh: its name, then its layer list if it has one.
pub open spec fn mesh_verdict(reg: RegistryView, name: Seq<char>, mesh: MeshConfigView) -> Result<(), ConfigErrorView> {
    if !valid_mesh_name(name) {
        Err(ConfigErrorView::InvalidMeshName(name))
    } else {
        match mesh.layers {
            None => Ok(()),
            Some(layers) => layer_list_verdict(reg, name, layers),
        }
    }
}

/// The verdict on the meshes, taken in configured order; the first refused
/// mesh decides.
pub open spec fn meshes_verdict(reg: RegistryView, meshes: Seq<(Seq<char>, MeshConfigView)>) -> Result<(), ConfigErrorView>
    decreases meshes.len(),
{
    if meshes.len() == 0 {
        Ok(())
    } else {
        match meshes_verdict(reg, meshes.drop_last()) {
            Err(e) => Err(e),
            Ok(()) => mesh_verdict(reg, meshes.last().0, meshes.last().1),
        }
    }
}

pub open spec fn is_logging_mode(m: Seq<char>) -> bool {
    m == "structured"@ || m == "plaintext"@
}

pub open spec fn is_restart_policy(p: Seq<char>) -> bool {
    p == "on-failure"@ || p == "never"@ || p == "always"@
}

/// The verdict on a configuration, without touching the file system: at
/// least one mesh, every mesh acceptable, a known logging mode and restart
/// policy, and a log path (if any) that names a file inside the runtime
/// directory without stepping out of it.
pub open spec fn config_verdict(reg: RegistryView, c: ConfigView, platform: Platform) -> Result<(), ConfigErrorView> {
    if c.meshes.len() == 0 {
        Err(ConfigErrorView::NoMeshes)
    } else {
        match meshes_verdict(reg, c.meshes) {
            Err(e) => Err(e),
            Ok(()) => if !is_logging_mode(c.options.logging) {
                Err(ConfigErrorView::InvalidLoggingMode(c.options.logging))
            } else if !is_restart_policy(c.options.restart) {
                Err(ConfigErrorView::InvalidRestartPolicy(c.options.restart))
            } else {
                match c.options.log_file {
                    None => Ok(()),
                    Some(p) => match lexical_log_path(p, platform) {
                        Ok(_) => Ok(()),
                        Err(e) => Err(ConfigErrorView::LogPath(e)),
                    },
                }
            },
        }
    }
}

proof fn lemma_meshes_error_persists(reg: RegistryView, all: Seq<(Seq<char>, MeshConfigView)>, k: int, m: int)
    requires
        0 <= k <= m <= all.len(),
        meshes_verdict(reg, all.take(k)) is Err,
    ensures
        meshes_verdict(reg, all.take(m)) == meshes_verdict(reg, all.take(k)),
    decreases m - k,
{
    if m > k {
        lemma_meshes_error_persists(reg, all, k, m - 1);
        assert(all.take(m).drop_last() =~= all.take(m - 1));
    }
}

/// Checks a configuration against every rule that needs no file system
/// access; `validate_on_disk` adds the inspection of the log path.
pub fn validate(reg: &LayerRegistry, config: &Config, platform: Platform) -> (r: Result<(), ConfigError>)
    ensures
        match r {
            Ok(()) => config_verdict(reg@, config@, platform) == Ok::<(), ConfigErrorView>(()),
            Err(e) => config_verdict(reg@, config@, platform) == Err::<(), ConfigErrorView>(e@),
        },
{
    if mesh_map_is_empty(&config.meshes) {
        return Err(ConfigError::NoMeshes);
    }
    let ghost all = mesh_map_entries(config.meshes);
    let n = mesh_map_len(&config.meshes);
    let mut i: usize = 0;
    assert(all.take(0).len() == 0);
    while i < n
        invariant
            all == mesh_map_entries(config.meshes),
            n == all.len(),
            i <= n,
            meshes_verdict(reg@, all.take(i as int)) == Ok::<(), ConfigErrorView>(()),
        decreases n - i,
    {
        assert(all.take(i + 1).drop_last() =~= all.take(i as int));
        assert(all.take(i + 1).last() == all[i as int]);
        let entry = mesh_map_get_index(&config.meshes, i);
        let (name, mesh) = entry.unwrap();
        let checked = match validate_mesh_name(name.as_str()) {
            Err(e) => Err(e),
            Ok(()) => match &mesh.layers {
                None => Ok(()),
                Some(layers) => validate_layer_list(reg, name.as_str(), layers),
            },
        };
        if let Err(e) = checked {
            proof {
                lemma_meshes_error_persists(reg@, all, i + 1, all.len() as int);
                assert(all.take(all.len() as int) =~= all);
            }
            return Err(e);
        }
        i = i + 1;
    }
    assert(all.take(n as int) =~= all);
    proof {
        reveal_strlit("structured");
        reveal_strlit("plaintext");
        reveal_strlit("on-failure");
        reveal_strlit("never");
        reveal_strlit("always");
    }
    let logging = config.options.logging.as_str();
    if !(str_eq(logging, "structured") || str_eq(logging, "plaintext")) {
        return Err(ConfigError::InvalidLoggingMode(owned(logging)));
    }
    let restart = config.options.restart.as_str();
    if !(str_eq(restart, "on-failure") || str_eq(restart, "never") || str_eq(restart, "always")) {
        return Err(ConfigError::InvalidRestartPolicy(owned(restart)));
    }
    match &config.options.log_file {
        None => Ok(()),
        Some(path) => match check_log_path_lexically(path.as_str(), platform) {
            Ok(_) => Ok(()),
            Err(e) => Err(ConfigError::LogPath(e)),
        },
    }
}

/// The verdict on a configuration once its log path has been inspected on
/// disk: the checks of `config_verdict` first; then, when a log file is
/// configured, the verdict that `decide_log_path_spec` gives on what the file
/// system showed for it.
pub open spec fn config_verdict_on_disk(
    reg: RegistryView,
    c: ConfigView,
    components: Seq<(Seq<char>, EntryProbe)>,
    parent: ParentProbe,
    target: TargetProbe,
    platform: Platform,
) -> Result<(), ConfigErrorView> {
    match config_verdict(reg, c, platform) {
        Err(e) => Err(e),
        Ok(()) => match c.options.log_file {
            None => Ok(()),
            Some(_) => match decide_log_path_spec(components, parent, target) {
                Ok(()) => Ok(()),
                Err(e) => Err(ConfigErrorView::LogPath(e)),
            },
        },
    }
}

/// Checks a configuration against every rule, its log path included, given
/// what inspecting the log path showed: `components` pairs the path of each
/// component, from the runtime directory down to the file, with what
/// inspecting it showed, and `parent` and `target` are what resolving the
/// file's directory and inspecting the file showed. Without a log file the
/// probes are not consulted.
pub fn validate_on_disk(
    reg: &LayerRegistry,
    config: &Config,
    components: &Vec<(String, EntryProbe)>,
    parent: &ParentProbe,
    target: &TargetProbe,
    platform: Platform,
) -> (r: Result<(), ConfigError>)
    ensures
        match r {
            Ok(()) => config_verdict_on_disk(reg@, config@, components@.map_values(|c: (String, EntryProbe)| (c.0@, c.1)), *parent, *target, platform)
                == Ok::<(), ConfigErrorView>(()),
            Err(e) => config_verdict_on_disk(reg@, config@, components@.map_values(|c: (String, EntryProbe)| (c.0@, c.1)), *parent, *target, platform)
                == Err::<(), ConfigErrorView>(e@),
        },
{
    validate(reg, config, platform)?;
    match &config.options.log_file {
        None => Ok(()),
        Some(_) => match decide_log_path(components, parent, target) {
            Ok(()) => Ok(()),
            Err(e) => Err(ConfigError::LogPath(e)),
        },
    }
}

// ---------------------------------------------------------------------------
// Reading the top-level mapping of a configuration file.

/// The keys a configuration's top-level mapping may hold.
#[derive(Debug)]
pub enum TopLevelKey {
    Version,
    Meshes,
    Options,
}

/// What has been read so far from a configuration's top-level mapping.
pub struct ConfigBuilder {
    seen_keys: Vec<String>,
    version: Option<String>,
    meshes: Option<IndexMap<String, MeshConfig>>,
    options: Option<Options>,
}

pub struct ConfigBuilderView {
    pub seen_keys: Seq<Seq<char>>,
    pub version: Option<Seq<char>>,
    pub meshes: Option<Seq<(Seq<char>, MeshConfigView)>>,
    pub options: Option<OptionsView>,
}

impl View for ConfigBuilder {
    type V = ConfigBuilderView;

    closed spec fn view(&self) -> ConfigBuilderView {
        ConfigBuilderView {
            seen_keys: self.seen_keys.deep_view(),
            version: self.version.deep_view(),
            meshes: match self.meshes {
                Some(m) => Some(mesh_map_entries(m)),
                None => None,
            },
            options: match self.options {
                Some(o) => Some(o@),
                None => None,
            },
        }
    }
}

/// The decision on the next key of the top-level mapping: a key seen before
/// is a duplicate; `version`, `meshes` and `options` are known; any other
/// key is refused.
pub open spec fn key_decision(seen: Seq<Seq<char>>, key: Seq<char>) -> Result<TopLevelKey, ConfigErrorView> {
    if seen.contains(key) {
        Err(ConfigErrorView::DuplicateTopLevelKey(key))
    } else if key == "version"@ {
        Ok(TopLevelKey::Version)
    } else if key == "meshes"@ {
        Ok(TopLevelKey::Meshes)
    } else if key == "options"@ {
        Ok(TopLevelKey::Options)
    } else {
        Err(ConfigErrorView::UnknownField(key))
    }
}

/// The configuration that a finished top-level mapping yields: a version,
/// if present, must be the supported one; meshes and options must be present.
pub open spec fn finish_decision(b: ConfigBuilderView) -> Result<(Seq<(Seq<char>, MeshConfigView)>, OptionsView), ConfigErrorView> {
    if b.version is Some && b.version->0 != "1.0.0"@ {
        Err(ConfigErrorView::UnsupportedVersion(b.version->0))
    } else if b.meshes is None {
        Err(ConfigErrorView::MissingField("meshes"@))
    } else if b.options is None {
        Err(ConfigErrorView::MissingField("options"@))
    } else {
        Ok((b.meshes->0, b.options->0))
    }
}

impl ConfigBuilder {
    /// Nothing read yet.
    pub fn new() -> (r: ConfigBuilder)
        ensures
            r@.seen_keys == Seq::<Seq<char>>::empty(),
            r@.version is None,
            r@.meshes is None,
            r@.options is None,
    {
        let r = ConfigBuilder { seen_keys: Vec::new(), version: None, meshes: None, options: None };
        assert(r@.seen_keys =~= Seq::<Seq<char>>::empty());
        r
    }

    /// Takes the next key of the top-level mapping and says which value to
    /// read for it.
    pub fn accept_key(&mut self, key: &str) -> (r: Result<TopLevelKey, ConfigError>)
        ensures
            match r {
                Ok(k) => key_decision(old(self)@.seen_keys, key@) == Ok::<TopLevelKey, ConfigErrorView>(k),
                Err(e) => key_decision(old(self)@.seen_keys, key@) == Err::<TopLevelKey, ConfigErrorView>(e@),
            },
            final(self)@.seen_keys == (if old(self)@.seen_keys.contains(key@) {
                old(self)@.seen_keys
            } else {
                old(self)@.seen_keys.push(key@)
            }),
            final(self)@.version == old(self)@.version,
            final(self)@.meshes == old(self)@.meshes,
            final(self)@.options == old(self)@.options,
    {
        let n = self.seen_keys.len();
        if crate::layers::contains_name(&self.seen_keys, n, key) {
            assert(self.seen_keys.deep_view().take(n as int) =~= self.seen_keys.deep_view());
            return Err(ConfigError::DuplicateTopLevelKey(owned(key)));
        }
        assert(self.seen_keys.deep_view().take(n as int) =~= self.seen_keys.deep_view());
        let ghost before = self.seen_keys.deep_view();
        self.seen_keys.push(owned(key));
        assert(self.seen_keys.deep_view() =~= before.push(key@));
        proof {
            reveal_strlit("version");
            reveal_strlit("meshes");
            reveal_strlit("options");
        }
        if str_eq(key, "version") {
            Ok(TopLevelKey::Version)
        } else if str_eq(key, "meshes") {
            Ok(TopLevelKey::Meshes)
        } else if str_eq(key, "options") {
            Ok(TopLevelKey::Options)
        } else {
            Err(ConfigError::UnknownField(owned(key)))
        }
    }

    /// Records the value read for `version`.
    pub fn set_version(&mut self, version: String)
        ensures
            final(self)@.version == Some(version@),
            final(self)@.seen_keys == old(self)@.seen_keys,
            final(self)@.meshes == old(self)@.meshes,
            final(self)@.options == old(self)@.options,
    {
        self.version = Some(version);
    }

    /// Records the value read for `meshes`.
    pub fn set_meshes(&mut self, meshes: IndexMap<String, MeshConfig>)
        ensures
            final(self)@.meshes == Some(mesh_map_entries(meshes)),
            final(self)@.seen_keys == old(self)@.seen_keys,
            final(self)@.version == old(self)@.version,
            final(self)@.options == old(self)@.options,
    {
        self.meshes = Some(meshes);
    }

    /// Records the value read for `options`.
    pub fn set_options(&mut self, options: Options)
        ensures
            final(self)@.options == Some(options@),
            final(self)@.seen_keys == old(self)@.seen_keys,
            final(self)@.version == old(self)@.version,
            final(self)@.meshes == old(self)@.meshes,
    {
        self.options = Some(options);
    }

    /// The configuration read, once the mapping has ended.
    pub fn finish(self) -> (r: Result<Config, ConfigError>)
        ensures
            match r {
                Ok(c) => finish_decision(self@) == Ok::<(Seq<(Seq<char>, MeshConfigView)>, OptionsView), ConfigErrorView>((c@.meshes, c@.options)),
                Err(e) => finish_decision(self@) == Err::<(Seq<(Seq<char>, MeshConfigView)>, OptionsView), ConfigErrorView>(e@),
            },
    {
        proof {
            reveal_strlit("1.0.0");
        }
        if let Some(version) = &self.version {
            if !str_eq(version.as_str(), "1.0.0") {
                return Err(ConfigError::UnsupportedVersion(version.clone()));
            }
        }
        match (self.meshes, self.options) {
            (None, _) => Err(ConfigError::MissingField(owned("meshes"))),
            (Some(_), None) => Err(ConfigError::MissingField(owned("options"))),
            (Some(meshes), Some(options)) => Ok(Config { meshes, options }),
        }
    }
}

/// The meshes read so far from a configuration's `meshes` mapping.
pub struct MeshesBuilder {
    meshes: IndexMap<String, MeshConfig>,
}

impl View for MeshesBuilder {
    type V = Seq<(Seq<char>, MeshConfigView)>;

    closed spec fn view(&self) -> Seq<(Seq<char>, MeshConfigView)> {
        mesh_map_entries(self.meshes)
    }
}

impl MeshesBuilder {
    /// No mesh read yet.
    pub fn new() -> (r: MeshesBuilder)
        ensures
            r@ == Seq::<(Seq<char>, MeshConfigView)>::empty(),
    {
        MeshesBuilder { meshes: mesh_map_new() }
    }

    /// Refuses a mesh name that was read before.
    pub fn check_name(&self, name: &str) -> (r: Result<(), ConfigError>)
        ensures
            r is Ok <==> !has_key(self@, name@),
            r matches Err(e) ==> e@ == ConfigErrorView::DuplicateMeshName(name@),
    {
        if mesh_map_contains_key(&self.meshes, name) {
            Err(ConfigError::DuplicateMeshName(owned(name)))
        } else {
            Ok(())
        }
    }

    /// Adds a mesh under a name not read before; a name read before is refused
    /// and leaves the meshes unchanged.
    pub fn add(&mut self, name: String, mesh: MeshConfig) -> (r: Result<(), ConfigError>)
        ensures
            r is Ok <==> !has_key(old(self)@, name@),
            r is Ok ==> final(self)@ == old(self)@.push((name@, mesh@)),
            r matches Err(e) ==> e@ == ConfigErrorView::DuplicateMeshName(name@) && final(self)@ == old(self)@,
    {
        if mesh_map_contains_key(&self.meshes, name.as_str()) {
            return Err(ConfigError::DuplicateMeshName(name));
        }
        mesh_map_insert(&mut self.meshes, name, mesh);
        Ok(())
    }

    /// The meshes read, in the order read.
    pub fn finish(self) -> (r: IndexMap<String, MeshConfig>)
        ensures
            mesh_map_entries(r) == self@,
    {
        self.meshes
    }
}

} // verus!
