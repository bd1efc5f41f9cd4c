//! What holds of the library as a whole.

use vstd::prelude::*;

use crate::config::{ConfigView, ContextView, MetadataView, TargetSpec};
use crate::folder::{bargo_values, entry_ends, project_text};
use crate::json::{entry_or_null, merged, or_empty_object, JsonView};
use crate::names::{
    dns_name_of, is_dns_name, lemma_cleaning_keeps_dns_names, lemma_dns_name_of, lowercased,
};
use crate::order::{in_order, lemma_order_of_listing_is_lost};
use crate::steps::{
    application_entries, context_for, deploy_rendered, deploys_from, deploys_next, next_known,
    proceed, step_ends, steps_to, with_project, ActionView, EventView, FolderView, SetupView,
    StageView, StateView, Step,
};
use crate::targets::{allowing, ArgoCDProjectView, TargetView};
use crate::template::always_ends;

verus! {

/// Laying an object over anything gives an object.
pub proof fn law_object_over_anything_is_object(
    base: JsonView,
    patch: Map<Seq<char>, JsonView>,
)
    ensures
        merged(base, JsonView::Object(patch)) is Object,
{
}

/// A key that the patch maps to null is gone, and a key that the patch does not have is left as
/// it was.
pub proof fn law_null_removes_and_absent_keeps(
    base: Map<Seq<char>, JsonView>,
    patch: Map<Seq<char>, JsonView>,
    key: Seq<char>,
)
    ensures
        patch.contains_key(key) && patch[key] == JsonView::Null ==> !merged(
            JsonView::Object(base),
            JsonView::Object(patch),
        )->Object_0.contains_key(key),
        !patch.contains_key(key) ==> {
            let result = merged(JsonView::Object(base), JsonView::Object(patch))->Object_0;
            &&& result.contains_key(key) == base.contains_key(key)
            &&& base.contains_key(key) ==> result[key] == base[key]
        },
{
}

/// A value of the patch that is neither null nor an object stands as it is in the result, whatever
/// the base holds there.
pub proof fn law_plain_values_win(
    base: JsonView,
    patch: Map<Seq<char>, JsonView>,
    key: Seq<char>,
)
    requires
        patch.contains_key(key),
        !(patch[key] is Null),
        !(patch[key] is Object),
    ensures
        merged(base, JsonView::Object(patch))->Object_0.contains_key(key),
        merged(base, JsonView::Object(patch))->Object_0[key] == patch[key],
{
    reveal_with_fuel(merged, 2);
}

/// No key of an object, at any depth, holds null.
pub open spec fn holds_no_null(value: JsonView) -> bool
    decreases value,
{
    match value {
        JsonView::Object(entries) => forall|k: Seq<char>| #[trigger]
            entries.contains_key(k) ==> entries[k] != JsonView::Null && holds_no_null(entries[k]),
        _ => true,
    }
}

/// The nulls of `patch` all meet an object of `base`, which they take a key out of. A null that
/// meets none is stored instead.
pub open spec fn nulls_meet_objects(base: JsonView, patch: JsonView) -> bool
    decreases patch,
{
    match (base, patch) {
        (JsonView::Object(entries), JsonView::Object(changes)) => forall|k: Seq<char>| #[trigger]
            changes.contains_key(k) ==> changes[k] == JsonView::Null || nulls_meet_objects(
                entry_or_null(entries, k),
                changes[k],
            ),
        _ => holds_no_null(patch),
    }
}

/// A value laid over itself stays the same if and only if it holds no null.
proof fn lemma_merged_with_itself(value: JsonView)
    ensures
        holds_no_null(value) <==> merged(value, value) == value,
    decreases value,
{
    reveal_with_fuel(holds_no_null, 2);
    if let JsonView::Object(entries) = value {
        let result = merged(value, value)->Object_0;
        assert forall|k: Seq<char>| #[trigger] entries.contains_key(k) implies holds_no_null(
            entries[k],
        ) == (merged(entries[k], entries[k]) == entries[k]) by {
            lemma_merged_with_itself(entries[k]);
        }
        if holds_no_null(value) {
            assert(result =~= entries);
        }
        if merged(value, value) == value {
            assert forall|k: Seq<char>| #[trigger] entries.contains_key(k) implies entries[k]
                != JsonView::Null && holds_no_null(entries[k]) by {
                assert(result.contains_key(k));
                assert(result[k] == merged(entries[k], entries[k]));
            }
        }
    }
}

/// Laying the same patch over a base once more changes nothing if and only if the nulls of the
/// patch all meet an object of the base.
pub proof fn law_merging_twice(base: JsonView, patch: JsonView)
    ensures
        nulls_meet_objects(base, patch) <==> merged(merged(base, patch), patch) == merged(
            base,
            patch,
        ),
    decreases patch,
{
    reveal_with_fuel(nulls_meet_objects, 2);
    match (base, patch) {
        (JsonView::Object(entries), JsonView::Object(changes)) => {
            let once = merged(base, patch)->Object_0;
            let twice = merged(merged(base, patch), patch)->Object_0;
            assert forall|k: Seq<char>| #[trigger]
                changes.contains_key(k) && changes[k] != JsonView::Null implies nulls_meet_objects(
                entry_or_null(entries, k),
                changes[k],
            ) == (twice[k] == once[k]) by {
                law_merging_twice(entry_or_null(entries, k), changes[k]);
                assert(entry_or_null(once, k) == once[k]);
            }
            if nulls_meet_objects(base, patch) {
                assert(twice =~= once);
            }
        },
        (_, JsonView::Object(changes)) => {
            lemma_merged_with_itself(patch);
        },
        _ => {},
    }
}

/// What an application is called cannot be changed by options: each field of the context reaches
/// the template as it is.
pub proof fn law_context_wins_over_options(
    config: ConfigView,
    options: Option<JsonView>,
    context: ContextView,
    key: Seq<char>,
)
    requires
        context.entries().contains_key(key),
    ensures
        application_entries(config, options, context).contains_key(key),
        application_entries(config, options, context)[key] == context.entries()[key],
{
    reveal_with_fuel(merged, 2);
    assert(context.entries()[key] is String);
}

/// A name that was made fit for DNS stays as it is when it is made fit once more.
pub proof fn law_cleaning_twice(lower: Seq<char>)
    ensures
        dns_name_of(dns_name_of(lower)) == dns_name_of(lower),
{
    lemma_dns_name_of(lower);
    lemma_cleaning_keeps_dns_names(dns_name_of(lower));
}

/// What a project allows stays allowed when it is made to allow more, and neither its name nor its
/// namespace nor its applications change.
pub proof fn law_allowing_takes_nothing_back(
    project: ArgoCDProjectView,
    source_repo: Seq<char>,
    metadata: MetadataView,
    context: ContextView,
)
    ensures
        ({
            let after = allowing(project, source_repo, metadata, context);
            &&& project.project.source_repos.subset_of(after.project.source_repos)
            &&& project.project.destinations.subset_of(after.project.destinations)
            &&& project.project.cluster_resource_whitelist.subset_of(
                after.project.cluster_resource_whitelist,
            )
            &&& after.project.name == project.project.name
            &&& after.project.namespace == project.project.namespace
            &&& after.applications == project.applications
        }),
{
}

/// The variables and the names of an application are found under `global` and `bargo`.
pub proof fn law_values_are_global(vars: JsonView, context: ContextView)
    ensures
        ({
            let bargo =
                bargo_values(vars, context)->Object_0["global"@]->Object_0["bargo"@]->Object_0;
            &&& bargo["vars"@] == vars
            &&& bargo["metadata"@] == JsonView::Object(context.entries())
        }),
{
    reveal_strlit("vars");
    reveal_strlit("metadata");
    assert("vars"@.len() != "metadata"@.len());
}

/// The file of a project does not depend on the order in which its applications were found.
pub proof fn law_project_file_ignores_order_of_discovery(
    project: Seq<char>,
    applications: Seq<Seq<char>>,
    other: Seq<Seq<char>>,
)
    requires
        applications.to_multiset() == other.to_multiset(),
    ensures
        project_text(project, in_order(applications)) == project_text(project, in_order(other)),
{
    lemma_order_of_listing_is_lost(applications, other);
}

/// The names of the configured targets.
pub open spec fn configured(config: ConfigView) -> Set<Seq<char>> {
    config.targets.map_values(|t: TargetSpec| t.name).to_set()
}

/// Every target that a run knows is a configured one. While the targets are being reset, those
/// before the one at hand are known and hold no project, and from then on until the run ends all
/// of them are known.
pub open spec fn knows_configured(config: ConfigView, state: StateView) -> bool {
    &&& forall|t: Seq<char>| #[trigger]
        state.targets.contains_key(t) ==> configured(config).contains(t)
    &&& match state.stage {
        StageView::Idle => true,
        StageView::Resetting(i) => {
            &&& 0 <= i < config.targets.len()
            &&& forall|j: int|
                0 <= j < i ==> {
                    &&& state.targets.contains_key((#[trigger] config.targets[j]).name)
                    &&& state.targets[config.targets[j].name].projects == Map::<
                        Seq<char>,
                        ArgoCDProjectView,
                    >::empty()
                }
        },
        _ => forall|j: int|
            0 <= j < config.targets.len() ==> state.targets.contains_key(
                (#[trigger] config.targets[j]).name,
            ),
    }
}

/// A target at a position of the configuration is a configured one.
pub proof fn lemma_configured(config: ConfigView, j: int)
    requires
        0 <= j < config.targets.len(),
    ensures
        configured(config).contains(config.targets[j].name),
{
    assert(config.targets.map_values(|t: TargetSpec| t.name)[j] == config.targets[j].name);
}

/// `next_known` finds the first known target.
pub proof fn lemma_next_known(wanted: Seq<TargetSpec>, known: Set<Seq<char>>, from: int)
    requires
        0 <= from <= wanted.len(),
    ensures
        from <= next_known(wanted, known, from) <= wanted.len(),
        forall|j: int|
            from <= j < next_known(wanted, known, from) ==> !known.contains(
                (#[trigger] wanted[j]).name,
            ),
        next_known(wanted, known, from) < wanted.len() ==> known.contains(
            wanted[next_known(wanted, known, from)].name,
        ),
    decreases wanted.len() - from,
{
    if from < wanted.len() && !known.contains(wanted[from].name) {
        lemma_next_known(wanted, known, from + 1);
    }
}

/// The positions that the stage speaks of are positions.
pub open spec fn counts(state: StateView) -> bool {
    match state.stage {
        StageView::Deploying(d, _) => 0 <= d.next <= d.folder.metadata.targets.len(),
        _ => true,
    }
}

/// Deploying changes the targets that are known in nothing but what they hold.
pub proof fn lemma_deploying_keeps_known(
    setup: SetupView,
    targets: Map<Seq<char>, TargetView>,
    folder: FolderView,
    from: int,
    step: Step,
)
    requires
        0 <= from <= folder.metadata.targets.len(),
        deploys_from(setup, targets, folder, from, step),
    ensures
        step.state.targets.dom() == targets.dom(),
        step.state.stage is Idle || step.state.stage is Scanning || step.state.stage is Deploying,
        counts(step.state),
{
    lemma_next_known(folder.metadata.targets, targets.dom(), from);
    assert(step.state.targets.dom() =~= targets.dom());
}

/// Before its first run a processor knows no target.
pub proof fn law_a_new_processor_knows_no_target(config: ConfigView)
    ensures
        counts(StateView { targets: Map::empty(), stage: StageView::Idle }),
        knows_configured(config, StateView { targets: Map::empty(), stage: StageView::Idle }),
        files_dns_names(Map::empty()),
{
}

/// From the first run on, a run knows configured targets only, and once they are reset it knows
/// all of them until it ends.
pub proof fn law_runs_know_configured_targets(
    setup: SetupView,
    state: StateView,
    event: EventView,
    step: Step,
)
    requires
        counts(state),
        knows_configured(setup.config, state),
        steps_to(setup, state, event, step),
    ensures
        counts(step.state),
        knows_configured(setup.config, step.state),
{
    let config = setup.config;
    match (event, state.stage) {
        (EventView::Done, StageView::Resetting(i)) => {
            lemma_configured(config, i);
        },
        _ => {
            if let Some((folder, from)) = deploys_next(state.stage, event) {
                lemma_deploying_keeps_known(setup, state.targets, folder, from, step);
                assert(forall|t: Seq<char>|
                    state.targets.contains_key(t) == #[trigger] step.state.targets.contains_key(t));
            }
        },
    }
}

/// A run that begins to look for folders has reset every configured target: it holds no project,
/// whatever an earlier run left.
pub proof fn law_a_run_begins_with_empty_targets(
    setup: SetupView,
    state: StateView,
    event: EventView,
    step: Step,
    target: Seq<char>,
)
    requires
        knows_configured(setup.config, state),
        steps_to(setup, state, event, step),
        state.stage is Resetting,
        event == EventView::Done,
        step.state.stage is Scanning,
        step.state.targets.contains_key(target),
    ensures
        step.state.targets[target].projects == Map::<Seq<char>, ArgoCDProjectView>::empty(),
{
    let config = setup.config;
    let i = state.stage->Resetting_0;
    if target != config.targets[i].name {
        let names = config.targets.map_values(|t: TargetSpec| t.name);
        assert(configured(config).contains(target));
        let j = choose|j: int| 0 <= j < names.len() && names[j] == target;
        assert(config.targets[j].name == target);
    }
}

/// A folder that names no known target changes nothing.
pub proof fn law_unknown_targets_are_passed_over(
    setup: SetupView,
    state: StateView,
    folder: FolderView,
    step: Step,
)
    requires
        state.stage is Scanning,
        steps_to(setup, state, EventView::Folder(folder), step),
        forall|j: int|
            0 <= j < folder.metadata.targets.len() ==> !state.targets.contains_key(
                (#[trigger] folder.metadata.targets[j]).name,
            ),
    ensures
        step == proceed(state.targets, StageView::Scanning, ActionView::FindFolder),
{
    lemma_next_known(folder.metadata.targets, state.targets.dom(), 0);
}

/// In every target, projects are filed under DNS names only, or under the empty name.
pub open spec fn files_dns_names(targets: Map<Seq<char>, TargetView>) -> bool {
    forall|t: Seq<char>, p: Seq<char>|
        #![trigger targets[t].projects.contains_key(p)]
        targets.contains_key(t) && targets[t].projects.contains_key(p) && p.len() > 0
            ==> is_dns_name(p)
}

proof fn lemma_deploying_files_dns_names(
    setup: SetupView,
    targets: Map<Seq<char>, TargetView>,
    folder: FolderView,
    from: int,
    step: Step,
)
    requires
        0 <= from <= folder.metadata.targets.len(),
        files_dns_names(targets),
        deploys_from(setup, targets, folder, from, step),
    ensures
        files_dns_names(step.state.targets),
{
    let wanted = folder.metadata.targets;
    lemma_next_known(wanted, targets.dom(), from);
    let j = next_known(wanted, targets.dom(), from);
    if j < wanted.len() {
        if let Ok(context) = context_for(folder.path, wanted[j].name, folder.metadata.namespace) {
            lemma_dns_name_of(lowercased(context.project));
            let filed = with_project(
                targets,
                setup.config,
                wanted[j].name,
                folder.metadata,
                context,
            );
            assert forall|t: Seq<char>, p: Seq<char>|
                #![trigger filed[t].projects.contains_key(p)]
                filed.contains_key(t) && filed[t].projects.contains_key(p) && p.len()
                    > 0 implies is_dns_name(p) by {
                assert(targets.contains_key(t));
                if p != context.normalized_project {
                    assert(targets[t].projects.contains_key(p));
                }
            }
            assert forall|t: Seq<char>, p: Seq<char>|
                #![trigger step.state.targets[t].projects.contains_key(p)]
                step.state.targets.contains_key(t) && step.state.targets[t].projects.contains_key(p)
                    && p.len() > 0 implies is_dns_name(p) by {
                assert(filed.contains_key(t));
                assert(filed[t].projects.contains_key(p));
            }
        }
    }
}

/// Projects are filed under DNS names only, or under the empty name, whatever a run is told.
pub proof fn law_projects_are_filed_under_dns_names(
    setup: SetupView,
    state: StateView,
    event: EventView,
    step: Step,
)
    requires
        counts(state),
        files_dns_names(state.targets),
        steps_to(setup, state, event, step),
    ensures
        files_dns_names(step.state.targets),
{
    match (event, state.stage) {
        (EventView::Done, StageView::Resetting(i)) => {
            let after = step.state.targets;
            assert forall|t: Seq<char>, p: Seq<char>|
                #![trigger after[t].projects.contains_key(p)]
                after.contains_key(t) && after[t].projects.contains_key(p) && p.len()
                    > 0 implies is_dns_name(p) by {
                if t != setup.config.targets[i].name {
                    assert(state.targets[t].projects.contains_key(p));
                }
            }
        },
        _ => {
            if let Some((folder, from)) = deploys_next(state.stage, event) {
                lemma_deploying_files_dns_names(setup, state.targets, folder, from, step);
            }
        },
    }
}

/// Deploying an application touches one project of one target: the other targets stay as they
/// are, and so do the other projects and the variables of that target. The rendered application
/// comes last in the project, after those that were there.
pub proof fn law_deploying_touches_one_project(
    targets: Map<Seq<char>, TargetView>,
    config: ConfigView,
    folder: FolderView,
    j: int,
    context: ContextView,
    application: Seq<char>,
    step: Step,
)
    requires
        0 <= j < folder.metadata.targets.len(),
        targets.contains_key(folder.metadata.targets[j].name),
        step == deploy_rendered(
            with_project(
                targets,
                config,
                folder.metadata.targets[j].name,
                folder.metadata,
                context,
            ),
            folder,
            j,
            context,
            Ok(application),
        ),
    ensures
        ({
            let target = folder.metadata.targets[j].name;
            let before = targets[target];
            let after = step.state.targets[target];
            let earlier = if before.projects.contains_key(context.normalized_project) {
                before.projects[context.normalized_project].applications
            } else {
                Seq::empty()
            };
            &&& step.result is Ok
            &&& step.state.targets.remove(target) == targets.remove(target)
            &&& after.vars == before.vars
            &&& after.projects.remove(context.normalized_project) == before.projects.remove(
                context.normalized_project,
            )
            &&& after.projects[context.normalized_project].applications == earlier.push(application)
        }),
{
    let target = folder.metadata.targets[j].name;
    assert(step.state.targets.remove(target) =~= targets.remove(target));
    assert(step.state.targets[target].projects.remove(context.normalized_project)
        =~= targets[target].projects.remove(context.normalized_project));
}

/// With templates that always end, every step of every run does, and so does the treatment of every
/// entry of a folder.
pub proof fn law_templates_that_end_end_every_step(
    setup: SetupView,
    state: StateView,
    event: EventView,
    vars: JsonView,
    folder: Seq<char>,
    name: Seq<char>,
    is_dir: bool,
)
    requires
        always_ends(setup.templates),
    ensures
        step_ends(setup, state, event),
        entry_ends(setup.templates, vars, folder, name, is_dir),
{
}

/// Writing the results changes none of them: from the moment there is no folder left, the targets
/// stay as they are until the run ends.
pub proof fn law_writing_changes_nothing(
    setup: SetupView,
    state: StateView,
    event: EventView,
    step: Step,
)
    requires
        steps_to(setup, state, event, step),
        event is NoMoreFolders || state.stage is Creating || state.stage is WritingConfig
            || state.stage is WritingProject,
    ensures
        step.state.targets == state.targets,
{
}

/// Merging two objects, key by key: a key that the patch does not have is left as it was, a key that
/// it maps to null is gone, an object is merged into the object that the base holds there, and
/// anything else stands as it is in the patch.
pub proof fn law_merging_key_by_key(
    base: Map<Seq<char>, JsonView>,
    patch: Map<Seq<char>, JsonView>,
    key: Seq<char>,
)
    ensures
        ({
            let result = merged(JsonView::Object(base), JsonView::Object(patch));
            &&& result matches JsonView::Object(entries)
            &&& if !patch.contains_key(key) {
                &&& entries.contains_key(key) == base.contains_key(key)
                &&& base.contains_key(key) ==> entries[key] == base[key]
            } else if patch[key] is Null {
                !entries.contains_key(key)
            } else {
                &&& entries.contains_key(key)
                &&& entries[key] == if patch[key] is Object && base.contains_key(key) && base[key] is
                    Object {
                    merged(base[key], patch[key])
                } else {
                    patch[key]
                }
            }
        }),
{
    reveal_with_fuel(merged, 2);
}

/// Where not both are objects, the patch takes the place of the base.
pub proof fn law_anything_but_two_objects_is_replaced(base: JsonView, patch: JsonView)
    requires
        !(base is Object && patch is Object),
    ensures
        merged(base, patch) == patch,
{
}

/// Options and variables that are not given are an object without entries. Those that are given
/// count as they are.
pub proof fn law_what_is_not_given_is_empty(given: JsonView)
    ensures
        or_empty_object(None) == JsonView::Object(Map::empty()),
        or_empty_object(Some(given)) == given,
{
}

/// Templates see the seven fields of a context, each as a string under its name, and nothing else.
pub proof fn law_templates_see_the_fields_of_a_context(context: ContextView, key: Seq<char>)
    ensures
        context.entries().contains_key(key) <==> key == "namespace"@ || key == "project"@ || key
            == "app_name"@ || key == "normalized_project"@ || key == "normalized_app_name"@ || key
            == "path"@ || key == "target_name"@,
        context.entries()["namespace"@] == JsonView::String(context.namespace),
        context.entries()["project"@] == JsonView::String(context.project),
        context.entries()["app_name"@] == JsonView::String(context.app_name),
        context.entries()["normalized_project"@] == JsonView::String(context.normalized_project),
        context.entries()["normalized_app_name"@] == JsonView::String(context.normalized_app_name),
        context.entries()["path"@] == JsonView::String(context.path),
        context.entries()["target_name"@] == JsonView::String(context.target_name),
{
    reveal_strlit("namespace");
    reveal_strlit("project");
    reveal_strlit("app_name");
    reveal_strlit("normalized_project");
    reveal_strlit("normalized_app_name");
    reveal_strlit("path");
    reveal_strlit("target_name");
    assert("project"@.len() == 7 && "path"@.len() == 4 && "app_name"@.len() == 8);
    assert("namespace"@.len() == 9 && "target_name"@.len() == 11);
    assert("normalized_project"@.len() == 18 && "normalized_app_name"@.len() == 19);
}

/// The values for a chart hold the variables and what the application is called, and nothing else.
pub proof fn law_values_hold_nothing_else(vars: JsonView, context: ContextView, key: Seq<char>)
    ensures
        ({
            &&& bargo_values(vars, context) matches JsonView::Object(top)
            &&& top.contains_key(key) <==> key == "global"@
            &&& top["global"@] matches JsonView::Object(global)
            &&& global.contains_key(key) <==> key == "bargo"@
            &&& global["bargo"@] matches JsonView::Object(bargo)
            &&& bargo.contains_key(key) <==> key == "vars"@ || key == "metadata"@
            &&& bargo["vars"@] == vars
            &&& bargo["metadata"@] == JsonView::Object(context.entries())
        }),
{
    reveal_strlit("vars");
    reveal_strlit("metadata");
    assert("vars"@.len() != "metadata"@.len());
}

/// What an application is rendered with besides its context, key by key, where the default options
/// and its own are objects or not given: a key that its own options do not have comes from the
/// defaults, a key that they map to null is left out, an object is merged into the object that the
/// defaults hold there, and anything else comes from its own options.
pub proof fn law_options_are_laid_over_the_defaults(
    config: ConfigView,
    options: Option<JsonView>,
    context: ContextView,
    key: Seq<char>,
)
    requires
        config.default_application_options matches Some(d) ==> d is Object,
        options matches Some(o) ==> o is Object,
        !context.entries().contains_key(key),
    ensures
        ({
            let entries = application_entries(config, options, context);
            let default = match config.default_application_options {
                Some(JsonView::Object(d)) => if d.contains_key(key) {
                    Some(d[key])
                } else {
                    None
                },
                _ => None,
            };
            let own = match options {
                Some(JsonView::Object(o)) => if o.contains_key(key) {
                    Some(o[key])
                } else {
                    None
                },
                _ => None,
            };
            match own {
                None => match default {
                    Some(v) => entries.contains_key(key) && entries[key] == v,
                    None => !entries.contains_key(key),
                },
                Some(JsonView::Null) => !entries.contains_key(key),
                Some(v) => {
                    &&& entries.contains_key(key)
                    &&& entries[key] == if v is Object && default is Some && default->0 is Object {
                        merged(default->0, v)
                    } else {
                        v
                    }
                },
            }
        }),
{
    let d = or_empty_object(config.default_application_options)->Object_0;
    let o = or_empty_object(options)->Object_0;
    law_merging_key_by_key(d, o, key);
    let both = merged(JsonView::Object(d), JsonView::Object(o))->Object_0;
    law_merging_key_by_key(both, context.entries(), key);
}

/// Options of an application that are no object leave nothing but its context. Default options that
/// are no object leave nothing but its own options and its context.
pub proof fn law_options_that_are_no_object(
    config: ConfigView,
    options: Option<JsonView>,
    context: ContextView,
)
    ensures
        options matches Some(o) && !(o is Object) ==> application_entries(config, options, context)
            == context.entries(),
        config.default_application_options matches Some(d) && !(d is Object) && (options matches Some(
            o,
        ) ==> o is Object) ==> JsonView::Object(application_entries(config, options, context))
            == merged(
            match options {
                Some(o) => o,
                None => JsonView::Object(Map::empty()),
            },
            JsonView::Object(context.entries()),
        ),
{
}

} // verus!
