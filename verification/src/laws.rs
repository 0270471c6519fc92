//! Properties of the library as a whole, stated over the models its
//! functions' contracts use, and proved.
use vstd::prelude::*;
use crate::config::{
    config_verdict, finish_decision, layer_list_verdict, mesh_layer_error, mesh_verdict, meshes_verdict, valid_mesh_name, ConfigBuilderView,
    ConfigErrorView, ConfigView, MeshConfigView,
};
use crate::layers::{check_layers, partial_core, plan_layers, scan_layers, LayerFaultView, RegistryView};
use crate::log_path::{is_normal_segment, is_separator, lexical_log_path, normal_segments, path_segments};
use crate::logging::{level_rank, set_up_state, state_after_writes, Level, LogStateView, Logger};
use crate::ordered_map::has_key;
use crate::resolve::{candidate_paths, first_existing, resolve_layers, MissingCoreLayerView, Platform};
use crate::supervisor::{
    binary_for, flat_layers, has_prefix, kept, mesh_start, merge_absent, plan_meshes, required_layers, restart_wanted, run_preparation, taken,
    value_at, with_extensions,
    ProcessRecordView, SupervisorErrorView, SupervisorView,
};

verus! {

/// What a successful scan of a layer list shows: every listed name is known
/// and listed once, and the extensions found are distinct extension names
/// taken from the list.
proof fn lemma_scan_ok(reg: RegistryView, layers: Seq<Seq<char>>)
    requires
        reg.well_formed(),
        scan_layers(reg, layers) is Ok,
    ensures
        layers.no_duplicates(),
        forall|i: int| 0 <= i < layers.len() ==> reg.is_valid(#[trigger] layers[i]),
        ({
            let ext = scan_layers(reg, layers)->Ok_0;
            &&& ext.no_duplicates()
            &&& forall|i: int| 0 <= i < ext.len() ==> reg.is_extension(#[trigger] ext[i]) && !reg.is_core(ext[i]) && layers.contains(ext[i])
            &&& forall|i: int| 0 <= i < layers.len() && reg.is_extension(#[trigger] layers[i]) ==> ext.contains(layers[i])
        }),
    decreases layers.len(),
{
    if layers.len() > 0 {
        let earlier = layers.drop_last();
        let name = layers.last();
        lemma_scan_ok(reg, earlier);
        let ext0 = scan_layers(reg, earlier)->Ok_0;
        let ext = scan_layers(reg, layers)->Ok_0;
        assert(!earlier.contains(name));
        assert forall|i: int| 0 <= i < layers.len() implies reg.is_valid(#[trigger] layers[i]) by {
            if i < layers.len() - 1 {
                assert(layers[i] == earlier[i]);
            }
        }
        assert forall|i: int, j: int| 0 <= i < layers.len() && 0 <= j < layers.len() && i != j
            implies layers[i] != layers[j] by {
            if i < layers.len() - 1 && j < layers.len() - 1 {
                assert(layers[i] == earlier[i] && layers[j] == earlier[j]);
            } else if i == layers.len() - 1 {
                assert(layers[j] == earlier[j]);
            } else {
                assert(layers[i] == earlier[i]);
            }
        }
        assert forall|i: int| 0 <= i < ext0.len() implies layers.contains(#[trigger] ext0[i]) by {
            let k = choose|k: int| 0 <= k < earlier.len() && earlier[k] == ext0[i];
            assert(layers[k] == earlier[k]);
        }
        if reg.is_core(name) {
            assert(ext == ext0);
            assert forall|i: int| 0 <= i < layers.len() && reg.is_extension(#[trigger] layers[i]) implies ext.contains(layers[i]) by {
                if i == layers.len() - 1 {
                    let c = choose|c: int| 0 <= c < reg.core.len() && reg.core[c] == name;
                    assert(!reg.extensions.contains(reg.core[c]));
                } else {
                    assert(layers[i] == earlier[i]);
                }
            }
        } else {
            assert(ext == ext0.push(name));
            assert(!ext0.contains(name));
            assert forall|i: int| 0 <= i < ext.len() implies reg.is_extension(#[trigger] ext[i]) && !reg.is_core(ext[i]) && layers.contains(ext[i]) by {
                if i == ext.len() - 1 {
                    assert(layers[layers.len() - 1] == name);
                } else {
                    assert(ext[i] == ext0[i]);
                }
            }
            assert forall|i: int, j: int| 0 <= i < ext.len() && 0 <= j < ext.len() && i != j implies ext[i] != ext[j] by {
                if i < ext.len() - 1 && j < ext.len() - 1 {
                    assert(ext[i] == ext0[i] && ext[j] == ext0[j]);
                } else if i == ext.len() - 1 {
                    assert(ext[j] == ext0[j]);
                } else {
                    assert(ext[i] == ext0[i]);
                }
            }
            assert forall|i: int| 0 <= i < layers.len() && reg.is_extension(#[trigger] layers[i]) implies ext.contains(layers[i]) by {
                if i == layers.len() - 1 {
                    assert(ext[ext.len() - 1] == name);
                } else {
                    assert(layers[i] == earlier[i]);
                    let k = choose|k: int| 0 <= k < ext0.len() && ext0[k] == earlier[i];
                    assert(ext[k] == ext0[k]);
                }
            }
        }
    }
}

/// Core runs once, complete and first: whenever a mesh's layers can be
/// planned, the plan is the full Core in canonical order followed only by
/// extension layers, and no layer appears twice.
pub proof fn law_plan_runs_full_core_once_then_extensions(reg: RegistryView, layers: Option<Seq<Seq<char>>>)
    requires
        reg.well_formed(),
        plan_layers(reg, layers) is Ok,
    ensures
        ({
            let plan = plan_layers(reg, layers)->Ok_0;
            &&& plan.take(reg.core.len() as int) == reg.core
            &&& forall|i: int| reg.core.len() <= i < plan.len() ==> reg.is_extension(#[trigger] plan[i])
            &&& plan.no_duplicates()
        }),
{
    let plan = plan_layers(reg, layers)->Ok_0;
    let ext = match layers {
        None => Seq::<Seq<char>>::empty(),
        Some(l) => {
            lemma_scan_ok(reg, l);
            scan_layers(reg, l)->Ok_0
        },
    };
    assert(plan == reg.core + ext);
    assert(plan.take(reg.core.len() as int) =~= reg.core);
    assert forall|i: int| reg.core.len() <= i < plan.len() implies reg.is_extension(#[trigger] plan[i]) by {
        assert(plan[i] == ext[i - reg.core.len()]);
    }
    assert forall|i: int, j: int| 0 <= i < plan.len() && 0 <= j < plan.len() && i != j implies plan[i] != plan[j] by {
        let n = reg.core.len() as int;
        if i < n && j < n {
        } else if i >= n && j >= n {
            assert(plan[i] == ext[i - n] && plan[j] == ext[j - n]);
        } else if i < n {
            assert(plan[j] == ext[j - n]);
            assert(!reg.extensions.contains(reg.core[i]));
        } else {
            assert(plan[i] == ext[i - n]);
            assert(!reg.extensions.contains(reg.core[j]));
        }
    }
}

/// Every extension layer a mesh lists is run.
pub proof fn law_listed_extensions_are_run(reg: RegistryView, layers: Seq<Seq<char>>, i: int)
    requires
        reg.well_formed(),
        plan_layers(reg, Some(layers)) is Ok,
        0 <= i < layers.len(),
        reg.is_extension(layers[i]),
    ensures
        plan_layers(reg, Some(layers))->Ok_0.contains(layers[i]),
{
    lemma_scan_ok(reg, layers);
    let ext = scan_layers(reg, layers)->Ok_0;
    let k = choose|k: int| 0 <= k < ext.len() && ext[k] == layers[i];
    let plan = plan_layers(reg, Some(layers))->Ok_0;
    assert(plan[reg.core.len() + k] == ext[k]);
}

/// Core is all or none: a mesh whose listed layers can be planned either
/// lists no Core layer or lists every one.
pub proof fn law_core_all_or_none(reg: RegistryView, layers: Seq<Seq<char>>)
    requires
        plan_layers(reg, Some(layers)) is Ok,
    ensures
        (forall|i: int| 0 <= i < layers.len() ==> !reg.is_core(#[trigger] layers[i]))
            || (forall|j: int| 0 <= j < reg.core.len() ==> layers.contains(#[trigger] reg.core[j])),
{
    assert(!partial_core(reg, layers));
}

/// Configuration checking and runtime planning agree on layer lists: a
/// non-empty list passes the configuration check exactly when its mesh can
/// be planned, and both report the same fault.
pub proof fn law_validation_agrees_with_planning(reg: RegistryView, mesh: Seq<char>, layers: Seq<Seq<char>>)
    requires
        layers.len() > 0,
    ensures
        layer_list_verdict(reg, mesh, layers) is Ok <==> plan_layers(reg, Some(layers)) is Ok,
        plan_layers(reg, Some(layers)) matches Err(f)
            ==> layer_list_verdict(reg, mesh, layers) == Err::<(), ConfigErrorView>(mesh_layer_error(mesh, f)),
{
}

/// A configuration that passes the checks can be planned: every mesh's
/// layers can be planned.
pub proof fn law_valid_config_plans_every_mesh(reg: RegistryView, c: ConfigView, platform: Platform, i: int)
    requires
        config_verdict(reg, c, platform) is Ok,
        0 <= i < c.meshes.len(),
    ensures
        plan_layers(reg, c.meshes[i].1.layers) is Ok,
{
    lemma_meshes_ok_each(reg, c.meshes, i);
}

proof fn lemma_meshes_ok_each(reg: RegistryView, meshes: Seq<(Seq<char>, MeshConfigView)>, i: int)
    requires
        meshes_verdict(reg, meshes) is Ok,
        0 <= i < meshes.len(),
    ensures
        mesh_verdict(reg, meshes[i].0, meshes[i].1) is Ok,
        plan_layers(reg, meshes[i].1.layers) is Ok,
    decreases meshes.len(),
{
    if i < meshes.len() - 1 {
        lemma_meshes_ok_each(reg, meshes.drop_last(), i);
        assert(meshes.drop_last()[i] == meshes[i]);
    }
    match meshes[i].1.layers {
        None => {},
        Some(l) => {
            assert(layer_list_verdict(reg, meshes[i].0, l) is Ok);
        },
    }
}


// ---------------------------------------------------------------------------
// Finding layer executables.

proof fn lemma_first_existing_is_listed(candidates: Seq<Seq<char>>, files: Seq<Seq<char>>)
    ensures
        first_existing(candidates, files) matches Some(p) ==> candidates.contains(p) && files.contains(p),
        first_existing(candidates, files) is None ==> forall|i: int| 0 <= i < candidates.len() ==> !files.contains(#[trigger] candidates[i]),
    decreases candidates.len(),
{
    if candidates.len() > 0 {
        lemma_first_existing_is_listed(candidates.drop_first(), files);
        if first_existing(candidates, files) is Some && !files.contains(candidates[0]) {
            let p = first_existing(candidates, files)->0;
            let k = choose|k: int| 0 <= k < candidates.drop_first().len() && candidates.drop_first()[k] == p;
            assert(candidates[k + 1] == p);
        }
        if first_existing(candidates, files) is None {
            assert forall|i: int| 0 <= i < candidates.len() implies !files.contains(#[trigger] candidates[i]) by {
                if i > 0 {
                    assert(candidates[i] == candidates.drop_first()[i - 1]);
                }
            }
        }
    }
}

/// The flat layout is preferred: when a layer's executable lies beside the
/// daemon, that one is used, whether or not the nested one also exists.
pub proof fn law_flat_layout_preferred(layer: Seq<char>, platform: Platform, files: Seq<Seq<char>>)
    requires
        files.contains(candidate_paths(layer, platform)[0]),
    ensures
        first_existing(candidate_paths(layer, platform), files) == Some(candidate_paths(layer, platform)[0]),
{
}

/// When every requested layer is found, each has an executable, and every
/// executable recorded is one of its layer's candidate paths and a regular
/// file.
pub proof fn law_resolution_covers_every_layer(layers: Seq<Seq<char>>, platform: Platform, files: Seq<Seq<char>>)
    requires
        resolve_layers(layers, platform, files).missing.len() == 0,
    ensures
        forall|i: int| 0 <= i < layers.len() ==> has_key(resolve_layers(layers, platform, files).resolved, #[trigger] layers[i]),
        forall|j: int| 0 <= j < resolve_layers(layers, platform, files).resolved.len() ==> ({
            let e = #[trigger] resolve_layers(layers, platform, files).resolved[j];
            candidate_paths(e.0, platform).contains(e.1) && files.contains(e.1)
        }),
    decreases layers.len(),
{
    if layers.len() > 0 {
        let prev = resolve_layers(layers.drop_last(), platform, files);
        let cur = resolve_layers(layers, platform, files);
        let layer = layers.last();
        assert(prev.missing.len() <= cur.missing.len());
        law_resolution_covers_every_layer(layers.drop_last(), platform, files);
        lemma_first_existing_is_listed(candidate_paths(layer, platform), files);
        if !has_key(prev.resolved, layer) {
            assert(cur.resolved == prev.resolved.push((layer, first_existing(candidate_paths(layer, platform), files)->0)));
            assert(cur.resolved[cur.resolved.len() - 1].0 == layer);
        }
        assert forall|i: int| 0 <= i < layers.len() implies has_key(cur.resolved, #[trigger] layers[i]) by {
            if i < layers.len() - 1 {
                assert(layers[i] == layers.drop_last()[i]);
                let k = choose|k: int| 0 <= k < prev.resolved.len() && (#[trigger] prev.resolved[k]).0 == layers[i];
                assert(cur.resolved[k] == prev.resolved[k]);
            }
        }
        assert forall|j: int| 0 <= j < cur.resolved.len() implies ({
            let e = #[trigger] cur.resolved[j];
            candidate_paths(e.0, platform).contains(e.1) && files.contains(e.1)
        }) by {
            if j < prev.resolved.len() {
                assert(cur.resolved[j] == prev.resolved[j]);
            }
        }
    }
}

/// A layer whose executable is found at none of its candidate paths is
/// reported as missing, with the paths that were tried.
pub proof fn law_missing_layer_is_reported(layers: Seq<Seq<char>>, platform: Platform, files: Seq<Seq<char>>, i: int)
    requires
        0 <= i < layers.len(),
        forall|k: int| 0 <= k < candidate_paths(layers[i], platform).len() ==> !files.contains(#[trigger] candidate_paths(layers[i], platform)[k]),
    ensures
        resolve_layers(layers, platform, files).missing.contains(
            MissingCoreLayerView { layer: layers[i], attempted_paths: candidate_paths(layers[i], platform) }),
    decreases layers.len(),
{
    let prev = resolve_layers(layers.drop_last(), platform, files);
    let cur = resolve_layers(layers, platform, files);
    lemma_no_candidate_means_none(candidate_paths(layers[i], platform), files);
    if i < layers.len() - 1 {
        assert(layers[i] == layers.drop_last()[i]);
        law_missing_layer_is_reported(layers.drop_last(), platform, files, i);
        let m = MissingCoreLayerView { layer: layers[i], attempted_paths: candidate_paths(layers[i], platform) };
        let k = choose|k: int| 0 <= k < prev.missing.len() && prev.missing[k] == m;
        assert(cur.missing[k] == prev.missing[k]);
    } else {
        lemma_never_resolved(layers.drop_last(), platform, files, layers[i]);
        assert(cur.missing[cur.missing.len() - 1] == MissingCoreLayerView { layer: layers[i], attempted_paths: candidate_paths(layers[i], platform) });
    }
}

proof fn lemma_no_candidate_means_none(candidates: Seq<Seq<char>>, files: Seq<Seq<char>>)
    requires
        forall|k: int| 0 <= k < candidates.len() ==> !files.contains(#[trigger] candidates[k]),
    ensures
        first_existing(candidates, files) is None,
    decreases candidates.len(),
{
    if candidates.len() > 0 {
        assert forall|k: int| 0 <= k < candidates.drop_first().len() implies !files.contains(#[trigger] candidates.drop_first()[k]) by {
            assert(candidates.drop_first()[k] == candidates[k + 1]);
        }
        lemma_no_candidate_means_none(candidates.drop_first(), files);
    }
}

/// A layer none of whose candidate paths exists is never among the layers
/// found.
proof fn lemma_never_resolved(layers: Seq<Seq<char>>, platform: Platform, files: Seq<Seq<char>>, layer: Seq<char>)
    requires
        first_existing(candidate_paths(layer, platform), files) is None,
    ensures
        !has_key(resolve_layers(layers, platform, files).resolved, layer),
    decreases layers.len(),
{
    if layers.len() > 0 {
        lemma_never_resolved(layers.drop_last(), platform, files, layer);
        let prev = resolve_layers(layers.drop_last(), platform, files);
        let cur = resolve_layers(layers, platform, files);
        if has_key(cur.resolved, layer) {
            let k = choose|k: int| 0 <= k < cur.resolved.len() && (#[trigger] cur.resolved[k]).0 == layer;
            if k < prev.resolved.len() {
                assert(cur.resolved[k] == prev.resolved[k]);
            }
        }
    }
}

// ---------------------------------------------------------------------------
// The supervisor.

/// Meshes are planned in configured order: the plan holds one entry per
/// configured mesh, in the same order, each with that mesh's layers.
pub proof fn law_plan_follows_config_order(reg: RegistryView, meshes: Seq<(Seq<char>, MeshConfigView)>)
    requires
        plan_meshes(reg, meshes) is Ok,
    ensures
        plan_meshes(reg, meshes)->Ok_0.len() == meshes.len(),
        forall|i: int| 0 <= i < meshes.len() ==> (#[trigger] plan_meshes(reg, meshes)->Ok_0[i]).0 == meshes[i].0
            && plan_layers(reg, meshes[i].1.layers) == Ok::<Seq<Seq<char>>, LayerFaultView>(plan_meshes(reg, meshes)->Ok_0[i].1),
    decreases meshes.len(),
{
    if meshes.len() > 0 {
        law_plan_follows_config_order(reg, meshes.drop_last());
        let p0 = plan_meshes(reg, meshes.drop_last())->Ok_0;
        let p = plan_meshes(reg, meshes)->Ok_0;
        assert forall|i: int| 0 <= i < meshes.len() implies (#[trigger] p[i]).0 == meshes[i].0
            && plan_layers(reg, meshes[i].1.layers) == Ok::<Seq<Seq<char>>, LayerFaultView>(p[i].1) by {
            if i < meshes.len() - 1 {
                assert(p[i] == p0[i]);
                assert(meshes[i] == meshes.drop_last()[i]);
            }
        }
    }
}

/// Appending extensions keeps the layers already there, in place.
proof fn lemma_with_extensions_prefix(layers: Seq<Seq<char>>, extensions: Seq<Seq<char>>)
    ensures
        with_extensions(layers, extensions).len() >= layers.len(),
        forall|i: int| 0 <= i < layers.len() ==> #[trigger] with_extensions(layers, extensions)[i] == layers[i],
    decreases extensions.len(),
{
    if extensions.len() > 0 {
        lemma_with_extensions_prefix(layers, extensions.drop_last());
    }
}

/// Every extension ends up among the layers.
proof fn lemma_with_extensions_contains(layers: Seq<Seq<char>>, extensions: Seq<Seq<char>>, j: int)
    requires
        0 <= j < extensions.len(),
    ensures
        with_extensions(layers, extensions).contains(extensions[j]),
    decreases extensions.len(),
{
    let prev = with_extensions(layers, extensions.drop_last());
    if j < extensions.len() - 1 {
        lemma_with_extensions_contains(layers, extensions.drop_last(), j);
        assert(extensions.drop_last()[j] == extensions[j]);
        let k = choose|k: int| 0 <= k < prev.len() && prev[k] == extensions[j];
        if !prev.contains(extensions.last()) {
            assert(prev.push(extensions.last())[k] == prev[k]);
        }
    } else if !prev.contains(extensions.last()) {
        assert(prev.push(extensions.last())[prev.len() as int] == extensions[j]);
    }
}

/// Each requested layer that has no executable at any candidate path, with
/// the paths tried, in request order: a layer requested twice is listed
/// twice.
pub open spec fn missing_entries(layers: Seq<Seq<char>>, platform: Platform, files: Seq<Seq<char>>) -> Seq<MissingCoreLayerView>
    decreases layers.len(),
{
    if layers.len() == 0 {
        Seq::empty()
    } else {
        let prev = missing_entries(layers.drop_last(), platform, files);
        if first_existing(candidate_paths(layers.last(), platform), files) is None {
            prev.push(MissingCoreLayerView { layer: layers.last(), attempted_paths: candidate_paths(layers.last(), platform) })
        } else {
            prev
        }
    }
}

/// Every layer found has an executable at one of its candidate paths.
proof fn lemma_resolved_are_found(layers: Seq<Seq<char>>, platform: Platform, files: Seq<Seq<char>>)
    ensures
        forall|k: int| 0 <= k < resolve_layers(layers, platform, files).resolved.len()
            ==> first_existing(candidate_paths((#[trigger] resolve_layers(layers, platform, files).resolved[k]).0, platform), files) is Some,
    decreases layers.len(),
{
    if layers.len() > 0 {
        lemma_resolved_are_found(layers.drop_last(), platform, files);
        let prev = resolve_layers(layers.drop_last(), platform, files);
        let cur = resolve_layers(layers, platform, files);
        assert forall|k: int| 0 <= k < cur.resolved.len()
            implies first_existing(candidate_paths((#[trigger] cur.resolved[k]).0, platform), files) is Some by {
            if k < prev.resolved.len() {
                assert(cur.resolved[k] == prev.resolved[k]);
            }
        }
    }
}

/// The missing list of a resolution is exactly every requested layer without
/// an executable, in request order, each with the paths tried.
pub proof fn law_missing_list_is_every_unfound_request(layers: Seq<Seq<char>>, platform: Platform, files: Seq<Seq<char>>)
    ensures
        resolve_layers(layers, platform, files).missing == missing_entries(layers, platform, files),
    decreases layers.len(),
{
    if layers.len() > 0 {
        law_missing_list_is_every_unfound_request(layers.drop_last(), platform, files);
        lemma_resolved_are_found(layers.drop_last(), platform, files);
        let prev = resolve_layers(layers.drop_last(), platform, files);
        let layer = layers.last();
        if has_key(prev.resolved, layer) {
            let k = choose|k: int| 0 <= k < prev.resolved.len() && (#[trigger] prev.resolved[k]).0 == layer;
            assert(first_existing(candidate_paths(prev.resolved[k].0, platform), files) is Some);
        }
    }
}

/// Missing executables stop the daemon before it starts anything: when some
/// planned layer has no executable at any candidate path, preparing the run
/// fails, listing exactly the planned layers without an executable (that
/// layer among them), in start order; the extensions no mesh lists are not
/// looked at.
pub proof fn law_missing_executable_fails_before_start(s: SupervisorView, files: Seq<Seq<char>>, i: int)
    requires
        plan_meshes(s.registry, s.config.meshes) is Ok,
        0 <= i < flat_layers(plan_meshes(s.registry, s.config.meshes)->Ok_0).len(),
        ({
            let layer = flat_layers(plan_meshes(s.registry, s.config.meshes)->Ok_0)[i];
            forall|k: int| 0 <= k < candidate_paths(layer, s.platform).len() ==> !files.contains(#[trigger] candidate_paths(layer, s.platform)[k])
        }),
    ensures
        run_preparation(s, files) matches Err(SupervisorErrorView::Missing(missing))
            && missing == missing_entries(flat_layers(plan_meshes(s.registry, s.config.meshes)->Ok_0), s.platform, files)
            && missing.contains(MissingCoreLayerView {
                layer: flat_layers(plan_meshes(s.registry, s.config.meshes)->Ok_0)[i],
                attempted_paths: candidate_paths(flat_layers(plan_meshes(s.registry, s.config.meshes)->Ok_0)[i], s.platform),
            }),
{
    let plan = plan_meshes(s.registry, s.config.meshes)->Ok_0;
    let flat = flat_layers(plan);
    law_missing_layer_is_reported(flat, s.platform, files, i);
    law_missing_list_is_every_unfound_request(flat, s.platform, files);
}

/// Every extension compiled into the registry must be present: when an
/// extension layer has no executable at any candidate path, preparing the
/// run fails, whether or not a mesh lists it; once every planned layer is
/// found, the failure reports that extension.
pub proof fn law_missing_extension_fails_before_start(s: SupervisorView, files: Seq<Seq<char>>, j: int)
    requires
        plan_meshes(s.registry, s.config.meshes) is Ok,
        0 <= j < s.registry.extensions.len(),
        forall|k: int| 0 <= k < candidate_paths(s.registry.extensions[j], s.platform).len()
            ==> !files.contains(#[trigger] candidate_paths(s.registry.extensions[j], s.platform)[k]),
    ensures
        run_preparation(s, files) matches Err(SupervisorErrorView::Missing(missing))
            && (resolve_layers(flat_layers(plan_meshes(s.registry, s.config.meshes)->Ok_0), s.platform, files).missing.len() == 0
                ==> missing.contains(MissingCoreLayerView {
                    layer: s.registry.extensions[j],
                    attempted_paths: candidate_paths(s.registry.extensions[j], s.platform),
                })),
{
    let plan = plan_meshes(s.registry, s.config.meshes)->Ok_0;
    let required = required_layers(s.registry, plan);
    lemma_with_extensions_contains(flat_layers(plan), s.registry.extensions, j);
    let k = choose|k: int| 0 <= k < required.len() && required[k] == s.registry.extensions[j];
    law_missing_layer_is_reported(required, s.platform, files, k);
}

/// Stopping the processes whose names begin with a prefix splits the
/// processes in two: those stopped all have the prefix, those kept have not,
/// and none is lost.
pub proof fn law_stop_partitions_processes(entries: Seq<(Seq<char>, ProcessRecordView)>, prefix: Seq<char>)
    ensures
        forall|i: int| 0 <= i < kept(entries, prefix).len() ==> !has_prefix((#[trigger] kept(entries, prefix)[i]).0, prefix),
        kept(entries, prefix).len() + taken(entries, prefix).len() == entries.len(),
        forall|i: int| 0 <= i < entries.len() && !has_prefix((#[trigger] entries[i]).0, prefix) ==> kept(entries, prefix).contains(entries[i]),
        forall|i: int| 0 <= i < entries.len() && has_prefix((#[trigger] entries[i]).0, prefix) ==> taken(entries, prefix).contains(entries[i].1),
    decreases entries.len(),
{
    if entries.len() > 0 {
        let e = entries.drop_last();
        law_stop_partitions_processes(e, prefix);
        let k = kept(entries, prefix);
        let k0 = kept(e, prefix);
        let t = taken(entries, prefix);
        let t0 = taken(e, prefix);
        assert forall|i: int| 0 <= i < k.len() implies !has_prefix((#[trigger] k[i]).0, prefix) by {
            if i < k0.len() {
                assert(k[i] == k0[i]);
            }
        }
        assert forall|i: int| 0 <= i < entries.len() && !has_prefix((#[trigger] entries[i]).0, prefix) implies k.contains(entries[i]) by {
            if i < entries.len() - 1 {
                assert(entries[i] == e[i]);
                let j = choose|j: int| 0 <= j < k0.len() && k0[j] == e[i];
                assert(k[j] == k0[j]);
            } else {
                assert(k[k.len() - 1] == entries[i]);
            }
        }
        assert forall|i: int| 0 <= i < entries.len() && has_prefix((#[trigger] entries[i]).0, prefix) implies t.contains(entries[i].1) by {
            if i < entries.len() - 1 {
                assert(entries[i] == e[i]);
                let j = choose|j: int| 0 <= j < t0.len() && t0[j] == e[i].1;
                assert(t[j] == t0[j]);
            } else {
                assert(t[t.len() - 1] == entries[i].1);
            }
        }
    }
}

/// Executables found before are kept when a mesh is started again: new ones
/// are only added after them.
pub proof fn law_known_executables_are_kept(base: Seq<(Seq<char>, Seq<char>)>, added: Seq<(Seq<char>, Seq<char>)>)
    ensures
        merge_absent(base, added).len() >= base.len(),
        merge_absent(base, added).take(base.len() as int) == base,
    decreases added.len(),
{
    if added.len() > 0 {
        law_known_executables_are_kept(base, added.drop_last());
        let m = merge_absent(base, added.drop_last());
        assert(m.push(added.last()).take(base.len() as int) =~= m.take(base.len() as int));
    } else {
        assert(base.take(base.len() as int) =~= base);
    }
}

/// A process is never started twice under one name: once recorded, its name
/// is found, so starting the same layer of the same mesh does nothing.
pub proof fn law_recorded_process_is_found(entries: Seq<(Seq<char>, ProcessRecordView)>, name: Seq<char>, record: ProcessRecordView)
    ensures
        has_key(entries.push((name, record)), name),
{
    assert(entries.push((name, record))[entries.len() as int].0 == name);
}

/// The restart policies: `never` restarts nothing, `always` restarts every
/// exit, and `on-failure` restarts exactly the failed ones.
pub proof fn law_restart_policies(exited_successfully: bool)
    ensures
        !restart_wanted("never"@, exited_successfully),
        restart_wanted("always"@, exited_successfully),
        restart_wanted("on-failure"@, exited_successfully) == !exited_successfully,
{
    reveal_strlit("never");
    reveal_strlit("always");
    reveal_strlit("on-failure");
    assert("never"@.len() != "always"@.len() && "never"@.len() != "on-failure"@.len());
    assert("on-failure"@.len() != "always"@.len());
}

// ---------------------------------------------------------------------------
// Logging.

/// Level filtering is monotone: a logger that writes a level writes every
/// more severe level.
pub proof fn law_level_filter_monotone(min_level: Level, a: Level, b: Level)
    requires
        level_rank(a) >= level_rank(min_level),
        level_rank(b) >= level_rank(a),
    ensures
        level_rank(b) >= level_rank(min_level),
{
}

/// The write-failure flag after a run of writes with the given outcomes,
/// starting from `failed`.
pub open spec fn flag_after_writes(failed: bool, write_succeeded: Seq<bool>) -> bool
    decreases write_succeeded.len(),
{
    if write_succeeded.len() == 0 {
        failed
    } else {
        flag_after_writes(failed, write_succeeded.drop_last()) || !write_succeeded.last()
    }
}

/// The write-failure flag is sticky: once a write has failed, the flag stays
/// set through any further writes until it is reset; from a reset flag it is
/// set exactly when some write failed.
pub proof fn law_failure_flag_is_sticky(failed: bool, write_succeeded: Seq<bool>)
    ensures
        failed ==> flag_after_writes(failed, write_succeeded),
        !failed ==> (flag_after_writes(failed, write_succeeded)
            <==> exists|i: int| 0 <= i < write_succeeded.len() && !(#[trigger] write_succeeded[i])),
    decreases write_succeeded.len(),
{
    if write_succeeded.len() > 0 {
        let w = write_succeeded.drop_last();
        law_failure_flag_is_sticky(failed, w);
        if !failed {
            if flag_after_writes(failed, w) {
                let i = choose|i: int| 0 <= i < w.len() && !(#[trigger] w[i]);
                assert(write_succeeded[i] == w[i]);
            }
            if exists|i: int| 0 <= i < write_succeeded.len() && !(#[trigger] write_succeeded[i]) {
                let i = choose|i: int| 0 <= i < write_succeeded.len() && !(#[trigger] write_succeeded[i]);
                if i < w.len() {
                    assert(w[i] == write_succeeded[i]);
                }
            }
        }
    }
}

/// The log's failure flag after writes is the flag run over their outcomes,
/// and the logger stays as it was.
proof fn lemma_state_after_writes(s: LogStateView, write_succeeded: Seq<bool>)
    ensures
        state_after_writes(s, write_succeeded).write_failed == flag_after_writes(s.write_failed, write_succeeded),
        state_after_writes(s, write_succeeded).logger == s.logger,
    decreases write_succeeded.len(),
{
    if write_succeeded.len() > 0 {
        lemma_state_after_writes(s, write_succeeded.drop_last());
    }
}

/// A failed write is detected from the moment it happens until the logger is
/// set up again: after a successful setup and a run of writes, a failure is
/// detected exactly when one of those writes failed, once detected it stays
/// detected through every later write, and the logger set up is kept.
pub proof fn law_write_failure_detected_since_setup(s: LogStateView, logger: Logger, write_succeeded: Seq<bool>)
    ensures
        state_after_writes(set_up_state(s, logger), write_succeeded).write_failed
            <==> exists|i: int| 0 <= i < write_succeeded.len() && !(#[trigger] write_succeeded[i]),
        forall|k: int| 0 <= k <= write_succeeded.len()
            && #[trigger] state_after_writes(set_up_state(s, logger), write_succeeded.take(k)).write_failed
            ==> state_after_writes(set_up_state(s, logger), write_succeeded).write_failed,
        state_after_writes(set_up_state(s, logger), write_succeeded).logger == Some(logger),
{
    let start = set_up_state(s, logger);
    lemma_state_after_writes(start, write_succeeded);
    law_failure_flag_is_sticky(false, write_succeeded);
    assert forall|k: int| 0 <= k <= write_succeeded.len()
        && #[trigger] state_after_writes(start, write_succeeded.take(k)).write_failed
        implies state_after_writes(start, write_succeeded).write_failed by {
        let prefix = write_succeeded.take(k);
        lemma_state_after_writes(start, prefix);
        law_failure_flag_is_sticky(false, prefix);
        let i = choose|i: int| 0 <= i < prefix.len() && !(#[trigger] prefix[i]);
        assert(write_succeeded[i] == prefix[i]);
    }
}

// ---------------------------------------------------------------------------
// The log file's path.

proof fn lemma_normal_segments_are_normal(segs: Seq<Seq<char>>)
    ensures
        forall|i: int| 0 <= i < normal_segments(segs).len() ==> is_normal_segment(#[trigger] normal_segments(segs)[i]),
    decreases segs.len(),
{
    if segs.len() > 0 {
        lemma_normal_segments_are_normal(segs.drop_last());
        let r0 = normal_segments(segs.drop_last());
        let r = normal_segments(segs);
        assert forall|i: int| 0 <= i < r.len() implies is_normal_segment(#[trigger] r[i]) by {
            if i < r0.len() {
                assert(r[i] == r0[i]);
            }
        }
    }
}

/// A path has at least one part between separators.
proof fn lemma_segments_nonempty(p: Seq<char>, platform: Platform)
    ensures
        path_segments(p, platform).len() >= 1,
    decreases p.len(),
{
    if p.len() > 0 {
        lemma_segments_nonempty(p.drop_last(), platform);
    }
}

/// No part of a path between separators holds a separator.
proof fn lemma_segments_hold_no_separator(p: Seq<char>, platform: Platform)
    ensures
        forall|i: int, j: int| 0 <= i < path_segments(p, platform).len() && 0 <= j < path_segments(p, platform)[i].len()
            ==> !is_separator(#[trigger] path_segments(p, platform)[i][j], platform),
    decreases p.len(),
{
    if p.len() > 0 {
        lemma_segments_hold_no_separator(p.drop_last(), platform);
        lemma_segments_nonempty(p.drop_last(), platform);
        let segs = path_segments(p.drop_last(), platform);
        let r = path_segments(p, platform);
        assert forall|i: int, j: int| 0 <= i < r.len() && 0 <= j < r[i].len() implies !is_separator(#[trigger] r[i][j], platform) by {
            if is_separator(p.last(), platform) {
                if i < segs.len() {
                    assert(r[i] == segs[i]);
                }
            } else if i < segs.len() - 1 {
                assert(r[i] == segs[i]);
            } else {
                assert(i == segs.len() - 1);
                assert(r[i] == segs.last().push(p.last()));
                if j < segs.last().len() {
                    assert(r[i][j] == segs[i][j]);
                }
            }
        }
    } else {
        assert(path_segments(p, platform)[0].len() == 0);
    }
}

/// The normal segments are some of the segments.
proof fn lemma_normal_segments_are_segments(segs: Seq<Seq<char>>)
    ensures
        forall|i: int| 0 <= i < normal_segments(segs).len() ==> segs.contains(#[trigger] normal_segments(segs)[i]),
    decreases segs.len(),
{
    if segs.len() > 0 {
        lemma_normal_segments_are_segments(segs.drop_last());
        let r0 = normal_segments(segs.drop_last());
        let r = normal_segments(segs);
        assert forall|i: int| 0 <= i < r.len() implies segs.contains(#[trigger] r[i]) by {
            if i < r0.len() {
                assert(r[i] == r0[i]);
                let k = choose|k: int| 0 <= k < segs.drop_last().len() && segs.drop_last()[k] == r0[i];
                assert(segs[k] == segs.drop_last()[k]);
            } else {
                assert(segs[segs.len() - 1] == segs.last());
            }
        }
    }
}

/// An accepted log path leads to a file inside the runtime directory: it
/// names at least one component, and every component is an ordinary name
/// (never empty, `.` or `..`) that holds no separator of the platform.
pub proof fn law_accepted_log_path_stays_inside(p: Seq<char>, platform: Platform)
    requires
        lexical_log_path(p, platform) is Ok,
    ensures
        lexical_log_path(p, platform)->Ok_0.len() >= 1,
        forall|i: int| 0 <= i < lexical_log_path(p, platform)->Ok_0.len()
            ==> is_normal_segment(#[trigger] lexical_log_path(p, platform)->Ok_0[i]),
        forall|i: int, j: int| 0 <= i < lexical_log_path(p, platform)->Ok_0.len() && 0 <= j < lexical_log_path(p, platform)->Ok_0[i].len()
            ==> !is_separator(#[trigger] lexical_log_path(p, platform)->Ok_0[i][j], platform),
{
    let segs = path_segments(p, platform);
    lemma_normal_segments_are_normal(segs);
    lemma_normal_segments_are_segments(segs);
    lemma_segments_hold_no_separator(p, platform);
    let parts = lexical_log_path(p, platform)->Ok_0;
    assert forall|i: int, j: int| 0 <= i < parts.len() && 0 <= j < parts[i].len()
        implies !is_separator(#[trigger] parts[i][j], platform) by {
        assert(segs.contains(parts[i]));
        let k = choose|k: int| 0 <= k < segs.len() && segs[k] == parts[i];
        assert(segs[k][j] == parts[i][j]);
    }
}

// ---------------------------------------------------------------------------
// What the operations that start meshes and layers hand back.

/// Preparing the run plans every configured mesh: on success the plan has
/// one entry per configured mesh, in configured order and under its name,
/// each holding the full Core in canonical order first, then every
/// extension the mesh lists, and only what the mesh's layer list plans.
pub proof fn law_prepared_plan_covers_every_mesh(s: SupervisorView, files: Seq<Seq<char>>)
    requires
        s.registry.well_formed(),
        run_preparation(s, files) is Ok,
    ensures
        ({
            let plan = run_preparation(s, files)->Ok_0.0;
            let meshes = s.config.meshes;
            &&& plan.len() == meshes.len()
            &&& forall|i: int| 0 <= i < meshes.len() ==> (#[trigger] plan[i]).0 == meshes[i].0
                && plan_layers(s.registry, meshes[i].1.layers) == Ok::<Seq<Seq<char>>, LayerFaultView>(plan[i].1)
                && plan[i].1.take(s.registry.core.len() as int) == s.registry.core
            &&& forall|i: int, j: int| 0 <= i < meshes.len() && meshes[i].1.layers is Some
                && 0 <= j < meshes[i].1.layers->0.len() && s.registry.is_extension(meshes[i].1.layers->0[j])
                ==> (#[trigger] plan[i]).1.contains(#[trigger] meshes[i].1.layers->0[j])
        }),
{
    let plan = run_preparation(s, files)->Ok_0.0;
    let meshes = s.config.meshes;
    let planned = plan_meshes(s.registry, meshes)->Ok_0;
    assert(plan == planned);
    law_plan_follows_config_order(s.registry, meshes);
    assert forall|i: int| 0 <= i < meshes.len() implies (#[trigger] plan[i]).0 == meshes[i].0
        && plan_layers(s.registry, meshes[i].1.layers) == Ok::<Seq<Seq<char>>, LayerFaultView>(plan[i].1)
        && plan[i].1.take(s.registry.core.len() as int) == s.registry.core by {
        assert(planned[i] == plan[i]);
        law_plan_runs_full_core_once_then_extensions(s.registry, meshes[i].1.layers);
    }
    assert forall|i: int, j: int| 0 <= i < meshes.len() && meshes[i].1.layers is Some
        && 0 <= j < meshes[i].1.layers->0.len() && s.registry.is_extension(meshes[i].1.layers->0[j])
        implies (#[trigger] plan[i]).1.contains(#[trigger] meshes[i].1.layers->0[j]) by {
        assert(planned[i] == plan[i]);
        assert(plan_layers(s.registry, meshes[i].1.layers) == Ok::<Seq<Seq<char>>, LayerFaultView>(plan[i].1));
        law_listed_extensions_are_run(s.registry, meshes[i].1.layers->0, j);
    }
}

/// Starting a configured mesh starts what its layer list plans: on success
/// the layers returned are the full Core in canonical order, then only
/// extension layers, none twice, every extension the mesh lists among them.
pub proof fn law_started_mesh_runs_core_then_listed_extensions(s: SupervisorView, mesh: Seq<char>, files: Seq<Seq<char>>)
    requires
        s.registry.well_formed(),
        has_key(s.config.meshes, mesh),
        mesh_start(s, mesh, files) is Ok,
    ensures
        ({
            let layers = mesh_start(s, mesh, files)->Ok_0.0;
            let listed = value_at(s.config.meshes, mesh).layers;
            &&& plan_layers(s.registry, listed) == Ok::<Seq<Seq<char>>, LayerFaultView>(layers)
            &&& layers.take(s.registry.core.len() as int) == s.registry.core
            &&& forall|i: int| s.registry.core.len() <= i < layers.len() ==> s.registry.is_extension(#[trigger] layers[i])
            &&& layers.no_duplicates()
            &&& forall|j: int| listed is Some && 0 <= j < listed->0.len() && s.registry.is_extension(#[trigger] listed->0[j])
                ==> layers.contains(listed->0[j])
        }),
{
    let listed = value_at(s.config.meshes, mesh).layers;
    law_plan_runs_full_core_once_then_extensions(s.registry, listed);
    assert forall|j: int| listed is Some && 0 <= j < listed->0.len() && s.registry.is_extension(#[trigger] listed->0[j])
        implies mesh_start(s, mesh, files)->Ok_0.0.contains(listed->0[j]) by {
        law_listed_extensions_are_run(s.registry, listed->0, j);
    }
}

/// What `first_existing` gives, stated over the candidates and the files.
proof fn lemma_first_existing(candidates: Seq<Seq<char>>, files: Seq<Seq<char>>)
    ensures
        first_existing(candidates, files) is None <==> forall|k: int| 0 <= k < candidates.len() ==> !files.contains(#[trigger] candidates[k]),
        first_existing(candidates, files) is Some ==> exists|k: int| 0 <= k < candidates.len()
            && candidates[k] == first_existing(candidates, files)->0 && files.contains(candidates[k])
            && forall|j: int| 0 <= j < k ==> !files.contains(#[trigger] candidates[j]),
    decreases candidates.len(),
{
    if candidates.len() > 0 {
        let rest = candidates.drop_first();
        lemma_first_existing(rest, files);
        if files.contains(candidates[0]) {
            assert(candidates[0] == first_existing(candidates, files)->0);
        } else {
            assert forall|k: int| 0 <= k < rest.len() implies rest[k] == candidates[k + 1] by {}
            if first_existing(rest, files) is None {
                assert forall|k: int| 0 <= k < candidates.len() implies !files.contains(#[trigger] candidates[k]) by {
                    if k > 0 {
                        assert(candidates[k] == rest[k - 1]);
                    }
                }
            } else {
                let k = choose|k: int| 0 <= k < rest.len()
                    && rest[k] == first_existing(rest, files)->0 && files.contains(rest[k])
                    && forall|j: int| 0 <= j < k ==> !files.contains(#[trigger] rest[j]);
                assert(candidates[k + 1] == rest[k]);
                assert forall|j: int| 0 <= j < k + 1 implies !files.contains(#[trigger] candidates[j]) by {
                    if j > 0 {
                        assert(candidates[j] == rest[j - 1]);
                    }
                }
                assert(files.contains(candidates[k + 1]));
            }
        }
    }
}

/// For a layer whose executable has not been found yet, the executable to
/// start is the first of its candidate paths that is among the files, and
/// there is none exactly when no candidate path is among them.
pub proof fn law_unrecorded_layer_uses_first_present_candidate(s: SupervisorView, layer: Seq<char>, files: Seq<Seq<char>>)
    requires
        !has_key(s.layer_binaries, layer),
    ensures
        ({
            let candidates = candidate_paths(layer, s.platform);
            &&& binary_for(s, layer, files) is None <==> forall|k: int| 0 <= k < candidates.len() ==> !files.contains(#[trigger] candidates[k])
            &&& binary_for(s, layer, files) is Some ==> exists|k: int| 0 <= k < candidates.len()
                && candidates[k] == binary_for(s, layer, files)->0 && files.contains(candidates[k])
                && forall|j: int| 0 <= j < k ==> !files.contains(#[trigger] candidates[j])
        }),
{
    lemma_first_existing(candidate_paths(layer, s.platform), files);
}

// ---------------------------------------------------------------------------
// Mesh names and the configuration read.

/// The mesh-name rule, character by character: a name is accepted exactly
/// when it has 1 to 64 characters, begins with an ASCII letter of either case
/// or a digit, and holds only ASCII letters of either case, digits, `_`, `.`
/// and `-`.
pub proof fn law_mesh_name_rule(name: Seq<char>)
    ensures
        valid_mesh_name(name) <==> {
            &&& 1 <= name.len() <= 64
            &&& ('a' <= name[0] <= 'z' || 'A' <= name[0] <= 'Z' || '0' <= name[0] <= '9')
            &&& forall|i: int| 0 <= i < name.len() ==> ('a' <= #[trigger] name[i] <= 'z' || 'A' <= name[i] <= 'Z'
                || '0' <= name[i] <= '9' || name[i] == '_' || name[i] == '.' || name[i] == '-')
        },
{
}

/// Finishing the top-level mapping yields a configuration exactly when any
/// version read is the supported one and both meshes and options were read;
/// the configuration then holds the meshes and the options read, every
/// option (logging mode, restart policy, log file) as read.
pub proof fn law_finished_config_is_what_was_read(b: ConfigBuilderView)
    ensures
        finish_decision(b) is Ok <==> ((b.version is None || b.version->0 == "1.0.0"@) && b.meshes is Some && b.options is Some),
        finish_decision(b) is Ok ==> ({
            let (meshes, options) = finish_decision(b)->Ok_0;
            &&& meshes == b.meshes->0
            &&& options.logging == b.options->0.logging
            &&& options.restart == b.options->0.restart
            &&& options.log_file == b.options->0.log_file
        }),
{
}

} // verus!
