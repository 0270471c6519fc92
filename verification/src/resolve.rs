//! Finding the executable of each layer in the runtime directory: beside the
//! daemon first, then in a folder named after the layer.
use indexmap::IndexMap;
use vstd::prelude::*;
use vstd::string::*;
use crate::ordered_map::{has_key, name_map_contains_key, name_map_entries, name_map_insert, name_map_new};
use crate::text::{concat2, concat3, concat4, owned, str_eq};

verus! {

/// The file-naming conventions of the platform the daemon runs on.
#[derive(Clone, Copy, Debug)]
pub enum Platform {
    /// Executables have no extension and paths use `/`.
    Unix,
    /// Executables end in `.exe` and paths use `\`.
    Windows,
}

/// Where a layer's executable may be, in the order they are tried: beside
/// the daemon, then in a folder named after the layer.
pub open spec fn candidate_paths(layer: Seq<char>, platform: Platform) -> Seq<Seq<char>> {
    match platform {
        Platform::Unix => seq!["./"@ + layer, "./"@ + layer + "/"@ + layer],
        Platform::Windows => seq![".\\"@ + layer + ".exe"@, ".\\"@ + layer + "\\"@ + layer + ".exe"@],
    }
}

/// The paths where a layer's executable may be, in the order they are tried.
pub fn candidate_layer_paths(layer_name: &str, platform: Platform) -> (r: Vec<String>)
    ensures
        r.deep_view() == candidate_paths(layer_name@, platform),
{
    let mut r: Vec<String> = Vec::new();
    match platform {
        Platform::Unix => {
            r.push(concat2("./", layer_name));
            r.push(concat4("./", layer_name, "/", layer_name));
        }
        Platform::Windows => {
            r.push(concat3(".\\", layer_name, ".exe"));
            let mut nested = concat4(".\\", layer_name, "\\", layer_name);
            nested.append(".exe");
            r.push(nested);
        }
    }
    assert(r.deep_view() =~= candidate_paths(layer_name@, platform));
    r
}

/// The first of `candidates` that is among `files`, if any.
pub open spec fn first_existing(candidates: Seq<Seq<char>>, files: Seq<Seq<char>>) -> Option<Seq<char>>
    decreases candidates.len(),
{
    if candidates.len() == 0 {
        None
    } else if files.contains(candidates[0]) {
        Some(candidates[0])
    } else {
        first_existing(candidates.drop_first(), files)
    }
}

/// Whether `path` is among `files`.
fn is_listed(files: &Vec<String>, path: &str) -> (r: bool)
    ensures
        r == files.deep_view().contains(path@),
{
    let r = crate::layers::contains_name(files, files.len(), path);
    assert(files.deep_view().take(files.len() as int) =~= files.deep_view());
    r
}

/// The first of `candidates` that is among `files`, if any.
pub fn first_existing_path(candidates: &Vec<String>, files: &Vec<String>) -> (r: Option<String>)
    ensures
        r.deep_view() == first_existing(candidates.deep_view(), files.deep_view()),
{
    let ghost all = candidates.deep_view();
    let mut i: usize = 0;
    assert(all.skip(0) =~= all);
    while i < candidates.len()
        invariant
            all == candidates.deep_view(),
            i <= candidates.len(),
            first_existing(all, files.deep_view()) == first_existing(all.skip(i as int), files.deep_view()),
        decreases candidates.len() - i,
    {
        assert(all.skip(i as int)[0] == all[i as int]);
        if is_listed(files, candidates[i].as_str()) {
            return Some(candidates[i].clone());
        }
        assert(all.skip(i as int).drop_first() =~= all.skip(i + 1));
        i = i + 1;
    }
    assert(all.skip(i as int).len() == 0);
    None
}

/// A layer whose executable was not found, with the paths that were tried.
#[derive(Debug)]
pub struct MissingCoreLayer {
    pub layer: String,
    pub attempted_paths: Vec<String>,
}

pub struct MissingCoreLayerView {
    pub layer: Seq<char>,
    pub attempted_paths: Seq<Seq<char>>,
}

impl View for MissingCoreLayer {
    type V = MissingCoreLayerView;

    open spec fn view(&self) -> MissingCoreLayerView {
        MissingCoreLayerView { layer: self.layer@, attempted_paths: self.attempted_paths.deep_view() }
    }
}

/// The layers whose executables were not found.
#[derive(Debug)]
pub struct MissingCoreLayersError {
    missing: Vec<MissingCoreLayer>,
}

impl View for MissingCoreLayersError {
    type V = Seq<MissingCoreLayerView>;

    closed spec fn view(&self) -> Seq<MissingCoreLayerView> {
        self.missing@.map_values(|m: MissingCoreLayer| m@)
    }
}

/// Paths joined with `, `.
pub open spec fn joined_paths(paths: Seq<Seq<char>>) -> Seq<char>
    decreases paths.len(),
{
    if paths.len() == 0 {
        Seq::empty()
    } else if paths.len() == 1 {
        paths[0]
    } else {
        joined_paths(paths.drop_last()) + ", "@ + paths.last()
    }
}

/// One line per missing layer, each naming the layer and the paths tried.
pub open spec fn missing_lines(missing: Seq<MissingCoreLayerView>) -> Seq<char>
    decreases missing.len(),
{
    if missing.len() == 0 {
        Seq::empty()
    } else {
        missing_lines(missing.drop_last()) + "- "@ + missing.last().layer + " (attempted: "@
            + joined_paths(missing.last().attempted_paths) + ")\n"@
    }
}

/// The text the daemon reports for missing layer executables.
pub open spec fn missing_layers_text(missing: Seq<MissingCoreLayerView>) -> Seq<char> {
    "Missing required layer binaries:\n"@ + missing_lines(missing)
}

fn join_paths(paths: &Vec<String>) -> (r: String)
    ensures
        r@ == joined_paths(paths.deep_view()),
{
    let ghost all = paths.deep_view();
    let mut r = String::new();
    let mut i: usize = 0;
    assert(r@ =~= joined_paths(all.take(0)));
    while i < paths.len()
        invariant
            all == paths.deep_view(),
            i <= paths.len(),
            r@ == joined_paths(all.take(i as int)),
        decreases paths.len() - i,
    {
        assert(all.take(i + 1).drop_last() =~= all.take(i as int));
        if i > 0 {
            r.append(", ");
        }
        r.append(paths[i].as_str());
        proof {
            if i == 0 {
                reveal_strlit("");
                assert(r@ =~= joined_paths(all.take(1)));
            } else {
                assert(r@ =~= joined_paths(all.take(i + 1)));
            }
        }
        i = i + 1;
    }
    assert(all.take(paths.len() as int) =~= all);
    r
}

impl MissingCoreLayersError {
    /// The missing layers, in the order they were looked for.
    pub fn missing(&self) -> (r: &[MissingCoreLayer])
        ensures
            r@.map_values(|m: MissingCoreLayer| m@) == self@,
    {
        self.missing.as_slice()
    }

    /// The text the daemon reports for this error.
    pub fn message(&self) -> (r: String)
        ensures
            r@ == missing_layers_text(self@),
    {
        let ghost all = self@;
        let mut r = owned("Missing required layer binaries:\n");
        let mut i: usize = 0;
        assert(all.take(0) =~= Seq::<MissingCoreLayerView>::empty());
        assert(r@ =~= missing_layers_text(all.take(0)));
        while i < self.missing.len()
            invariant
                all == self@,
                all.len() == self.missing.len(),
                i <= self.missing.len(),
                r@ == missing_layers_text(all.take(i as int)),
            decreases self.missing.len() - i,
        {
            let m = &self.missing[i];
            assert(all[i as int] == m@);
            assert(all.take(i + 1).drop_last() =~= all.take(i as int));
            r.append("- ");
            r.append(m.layer.as_str());
            r.append(" (attempted: ");
            let joined = join_paths(&m.attempted_paths);
            r.append(joined.as_str());
            r.append(")\n");
            assert(r@ =~= missing_layers_text(all.take(i + 1)));
            i = i + 1;
        }
        assert(all.take(all.len() as int) =~= all);
        r
    }
}

/// The outcome of looking for the executables of several layers.
pub struct Resolution {
    /// Each layer found, with the path of its executable, in first-request order.
    pub resolved: Seq<(Seq<char>, Seq<char>)>,
    /// Each layer not found, with the paths tried, in request order.
    pub missing: Seq<MissingCoreLayerView>,
}

/// Looks for the executable of each requested layer in turn; a layer already
/// found is not looked for again.
pub open spec fn resolve_layers(layers: Seq<Seq<char>>, platform: Platform, files: Seq<Seq<char>>) -> Resolution
    decreases layers.len(),
{
    if layers.len() == 0 {
        Resolution { resolved: Seq::empty(), missing: Seq::empty() }
    } else {
        let prev = resolve_layers(layers.drop_last(), platform, files);
        let layer = layers.last();
        if has_key(prev.resolved, layer) {
            prev
        } else {
            match first_existing(candidate_paths(layer, platform), files) {
                Some(path) => Resolution { resolved: prev.resolved.push((layer, path)), missing: prev.missing },
                None => Resolution {
                    resolved: prev.resolved,
                    missing: prev.missing.push(MissingCoreLayerView { layer, attempted_paths: candidate_paths(layer, platform) }),
                },
            }
        }
    }
}

/// Finds the executable of every requested layer, given the paths in the
/// runtime directory that are regular files. Fails, naming every layer not
/// found, unless all are found.
pub fn resolve_required_layers(layers: &Vec<String>, platform: Platform, files: &Vec<String>) -> (r: Result<IndexMap<String, String>, MissingCoreLayersError>)
    ensures
        match r {
            Ok(found) => resolve_layers(layers.deep_view(), platform, files.deep_view()).missing.len() == 0
                && name_map_entries(found) == resolve_layers(layers.deep_view(), platform, files.deep_view()).resolved,
            Err(e) => resolve_layers(layers.deep_view(), platform, files.deep_view()).missing.len() > 0
                && e@ == resolve_layers(layers.deep_view(), platform, files.deep_view()).missing,
        },
{
    let ghost all = layers.deep_view();
    let ghost fs = files.deep_view();
    let mut resolved = name_map_new();
    let mut missing: Vec<MissingCoreLayer> = Vec::new();
    let mut i: usize = 0;
    assert(all.take(0).len() == 0);
    assert(missing@.map_values(|m: MissingCoreLayer| m@) =~= Seq::<MissingCoreLayerView>::empty());
    while i < layers.len()
        invariant
            all == layers.deep_view(),
            fs == files.deep_view(),
            i <= layers.len(),
            name_map_entries(resolved) == resolve_layers(all.take(i as int), platform, fs).resolved,
            missing@.map_values(|m: MissingCoreLayer| m@) == resolve_layers(all.take(i as int), platform, fs).missing,
        decreases layers.len() - i,
    {
        assert(all.take(i + 1).drop_last() =~= all.take(i as int));
        assert(all.take(i + 1).last() == all[i as int]);
        let layer = layers[i].as_str();
        if !name_map_contains_key(&resolved, layer) {
            let attempted = candidate_layer_paths(layer, platform);
            match first_existing_path(&attempted, files) {
                Some(path) => {
                    name_map_insert(&mut resolved, owned(layer), path);
                }
                None => {
                    let ghost before = missing@.map_values(|m: MissingCoreLayer| m@);
                    let entry = MissingCoreLayer { layer: owned(layer), attempted_paths: attempted };
                    missing.push(entry);
                    assert(missing@.map_values(|m: MissingCoreLayer| m@) =~= before.push(entry@));
                }
            }
        }
        i = i + 1;
    }
    assert(all.take(layers.len() as int) =~= all);
    if missing.len() == 0 {
        Ok(resolved)
    } else {
        Err(MissingCoreLayersError { missing })
    }
}

/// Finds the executable of one layer, given the paths in the runtime
/// directory that are regular files.
pub fn resolve_layer_binary(layer_name: &str, platform: Platform, files: &Vec<String>) -> (r: Result<String, MissingCoreLayersError>)
    ensures
        match first_existing(candidate_paths(layer_name@, platform), files.deep_view()) {
            Some(path) => r matches Ok(p) && p@ == path,
            None => r matches Err(e) && e@ == seq![MissingCoreLayerView { layer: layer_name@, attempted_paths: candidate_paths(layer_name@, platform) }],
        },
{
    let attempted = candidate_layer_paths(layer_name, platform);
    match first_existing_path(&attempted, files) {
        Some(path) => Ok(path),
        None => {
            let entry = MissingCoreLayer { layer: owned(layer_name), attempted_paths: attempted };
            let mut missing: Vec<MissingCoreLayer> = Vec::new();
            missing.push(entry);
            let e = MissingCoreLayersError { missing };
            assert(e@ =~= seq![MissingCoreLayerView { layer: layer_name@, attempted_paths: candidate_paths(layer_name@, platform) }]);
            Err(e)
        }
    }
}

} // verus!
