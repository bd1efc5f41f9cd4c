//! What a run asks for at each step, in terms of what it was told.

use vstd::prelude::*;

use crate::app_project::{DestinationView, ResourceView};
use crate::config::{ConfigView, ContextView, MetadataView};
use crate::error::ErrorView;
use crate::filters::{
    is_white_space, law_yaml_loses_white_space_at_its_ends_only, yaml_error_message, yaml_text,
};
use crate::folder::{bargo_values, path_below};
use crate::json::{merged, JsonView};
use crate::laws::lemma_next_known;
use crate::names::sanitized;
use crate::order::{law_texts_in_order, text_less};
use crate::path::{joined, law_a_path_gives_its_last_two_names, law_joining, PathPart};
use crate::sorted_map::keys_in_order;
use crate::steps::{
    application_entries, application_renders_to, config_context, config_rendered, context_for,
    deploy_rendered, deploys_from, next_known, project_in, steps_to, values_encoded,
    with_application, with_project, ActionView, DeploymentView, EventView, FolderView, Part,
    SetupView, StageView, StateView, Step,
};
use crate::targets::{law_what_a_project_allows, TargetView};
use crate::template::{
    error_cause, error_message, law_what_comes_of_a_rendering, may_render, template_names,
};

verus! {

/// The folder of an application gives its name, and the folder above that of its project. The
/// application goes to a folder named by the target, the project and itself, in this order. Its
/// namespace is the one that is given, or else that of the project. A folder that lies in no folder
/// with a name has no project, and one without a name has no application.
pub proof fn law_what_an_application_is_called(
    path: Seq<PathPart>,
    target: Seq<char>,
    namespace: Option<Seq<char>>,
)
    ensures
        ({
            let n = path.len() as int;
            let r = context_for(path, target, namespace);
            if n < 2 || path[n - 1] is Root || path[n - 1] is Prefix || !(path[n - 2] is Normal) {
                r == Err::<ContextView, ErrorView>(ErrorView::NoProjectName)
            } else if !(path[n - 1] is Normal) {
                r == Err::<ContextView, ErrorView>(ErrorView::NoAppName)
            } else {
                let project = path[n - 2]->Normal_0@;
                let app_name = path[n - 1]->Normal_0@;
                &&& r matches Ok(c)
                &&& c.project == project
                &&& c.app_name == app_name
                &&& c.target_name == target
                &&& c.normalized_project == sanitized(project)
                &&& c.normalized_app_name == sanitized(app_name)
                &&& c.namespace == match namespace {
                    Some(given) => given,
                    None => sanitized(project),
                }
                &&& c.path == path_below(path_below(target, project), app_name)
                &&& is_plain(target) && is_plain(project) && is_plain(app_name) ==> c.path == target
                    + seq!['/'] + project + seq!['/'] + app_name
            }
        }),
{
    let n = path.len() as int;
    law_a_path_gives_its_last_two_names(path);
    if n >= 2 && path[n - 1] is Normal && path[n - 2] is Normal {
        let project = path[n - 2]->Normal_0@;
        let app_name = path[n - 1]->Normal_0@;
        law_joining(target, project);
        law_joining(joined(target, project), app_name);
        if is_plain(target) && is_plain(project) && is_plain(app_name) {
            let above = target + seq!['/'] + project;
            assert(target.contains(target[target.len() - 1]));
            assert(project.contains(project[0]));
            assert(project.contains(project[project.len() - 1]));
            assert(app_name.contains(app_name[0]));
            assert(above[above.len() - 1] == project[project.len() - 1]);
        }
    }
}

/// A name that is not empty and holds no `/`.
pub open spec fn is_plain(name: Seq<char>) -> bool {
    name.len() > 0 && !name.contains('/')
}

/// The namespace that metadata give changes the namespace of an application, and nothing else.
pub proof fn law_a_namespace_changes_nothing_else(
    path: Seq<PathPart>,
    target: Seq<char>,
    namespace: Option<Seq<char>>,
    other: Option<Seq<char>>,
)
    ensures
        match (context_for(path, target, namespace), context_for(path, target, other)) {
            (Ok(a), Ok(b)) => a == (ContextView { namespace: a.namespace, ..b }),
            (Err(a), Err(b)) => a == b,
            _ => false,
        },
{
}

/// An application that goes to another target is called the same, and goes to the same place there.
pub proof fn law_a_target_changes_where_an_application_goes(
    path: Seq<PathPart>,
    target: Seq<char>,
    other: Seq<char>,
    namespace: Option<Seq<char>>,
)
    ensures
        match (context_for(path, target, namespace), context_for(path, other, namespace)) {
            (Ok(a), Ok(b)) => {
                &&& a == (ContextView { path: a.path, target_name: target, ..b })
                &&& b.target_name == other
            },
            (Err(a), Err(b)) => a == b,
            _ => false,
        },
{
}

/// The target at that position is the first one from `from` on that is known.
pub open spec fn is_next_known(
    targets: Map<Seq<char>, TargetView>,
    folder: FolderView,
    from: int,
    j: int,
) -> bool {
    &&& from <= j < folder.metadata.targets.len()
    &&& targets.contains_key(folder.metadata.targets[j].name)
    &&& forall|l: int|
        from <= l < j ==> !targets.contains_key((#[trigger] folder.metadata.targets[l]).name)
}

proof fn lemma_is_next_known(
    targets: Map<Seq<char>, TargetView>,
    folder: FolderView,
    from: int,
    j: int,
)
    requires
        0 <= from,
        is_next_known(targets, folder, from, j),
    ensures
        next_known(folder.metadata.targets, targets.dom(), from) == j,
{
    let wanted = folder.metadata.targets;
    lemma_next_known(wanted, targets.dom(), from);
    let found = next_known(wanted, targets.dom(), from);
    if found < j {
        assert(!targets.contains_key(wanted[found].name));
        assert(targets.dom().contains(wanted[found].name));
    }
    if j < found {
        assert(!targets.dom().contains(wanted[j].name));
    }
}

/// `error` is what a rendering that can go wrong reports: with the message of what lies behind it
/// where there is anything, and else with its own.
pub open spec fn can_report(
    setup: SetupView,
    entries: Map<Seq<char>, JsonView>,
    error: ErrorView,
) -> bool {
    exists|e: tera::Error|
        {
            &&& #[trigger] may_render(setup.templates, setup.application_template, entries, Err(e))
            &&& error == match error_cause(e) {
                Some(cause) => ErrorView::Render(cause),
                None => ErrorView::Render(error_message(e)),
            }
        }
}

/// `text` is one that the application template can give with these entries.
pub open spec fn can_give(
    setup: SetupView,
    entries: Map<Seq<char>, JsonView>,
    text: Seq<char>,
) -> bool {
    &&& template_names(setup.templates).contains(setup.application_template)
    &&& may_render(setup.templates, setup.application_template, entries, Ok(text))
}

proof fn lemma_application(
    setup: SetupView,
    options: Option<JsonView>,
    context: ContextView,
    r: Result<Seq<char>, ErrorView>,
)
    requires
        application_renders_to(setup, options, context, r),
    ensures
        match r {
            Ok(text) => can_give(setup, application_entries(setup.config, options, context), text),
            Err(e) => can_report(setup, application_entries(setup.config, options, context), e),
        },
{
    law_what_comes_of_a_rendering(
        setup.templates,
        setup.application_template,
        application_entries(setup.config, options, context),
        r,
    );
}

/// Where a folder names no target that is known from that position on, the next folder is looked
/// for, and nothing changes.
pub proof fn law_without_known_target_the_next_folder_is_looked_for(
    setup: SetupView,
    targets: Map<Seq<char>, TargetView>,
    folder: FolderView,
    from: int,
    step: Step,
)
    requires
        0 <= from <= folder.metadata.targets.len(),
        deploys_from(setup, targets, folder, from, step),
        forall|l: int|
            from <= l < folder.metadata.targets.len() ==> !targets.contains_key(
                (#[trigger] folder.metadata.targets[l]).name,
            ),
    ensures
        step.state.targets == targets,
        step.state.stage is Scanning,
        step.result is Ok && step.result->Ok_0 is FindFolder,
{
    lemma_next_known(folder.metadata.targets, targets.dom(), from);
}

/// A folder whose path gives no name for the project or the application ends the run at its first
/// known target, and nothing is gathered.
pub proof fn law_folders_without_names_are_refused(
    setup: SetupView,
    targets: Map<Seq<char>, TargetView>,
    folder: FolderView,
    from: int,
    j: int,
    step: Step,
)
    requires
        0 <= from,
        is_next_known(targets, folder, from, j),
        deploys_from(setup, targets, folder, from, step),
        context_for(folder.path, folder.metadata.targets[j].name, folder.metadata.namespace) is Err,
    ensures
        step.state.targets == targets,
        step.state.stage is Idle,
        step.result matches Err(e) && context_for(
            folder.path,
            folder.metadata.targets[j].name,
            folder.metadata.namespace,
        ) == Err::<ContextView, ErrorView>(e),
{
    lemma_is_next_known(targets, folder, from, j);
}

/// A deployment: the application is rendered from the application template with the options of its
/// folder and what it is called, and what the template gave is added to the end of its project in
/// its target. The folder is then copied with the variables of the target, those that the folder
/// gives for it laid over them. Where the rendering goes wrong, the run ends with what it reports.
/// Neither other targets nor other projects nor variables change.
pub proof fn law_what_a_deployment_does(
    setup: SetupView,
    targets: Map<Seq<char>, TargetView>,
    folder: FolderView,
    from: int,
    j: int,
    context: ContextView,
    step: Step,
)
    requires
        0 <= from,
        is_next_known(targets, folder, from, j),
        deploys_from(setup, targets, folder, from, step),
        context_for(folder.path, folder.metadata.targets[j].name, folder.metadata.namespace) == Ok::<
            ContextView,
            ErrorView,
        >(context),
    ensures
        ({
            let wanted = folder.metadata.targets[j];
            let entries = application_entries(
                setup.config,
                folder.metadata.application_options,
                context,
            );
            let before = targets[wanted.name];
            let after = step.state.targets[wanted.name];
            let earlier = if before.projects.contains_key(context.normalized_project) {
                before.projects[context.normalized_project].applications
            } else {
                Seq::empty()
            };
            let vars = merged(
                before.vars,
                match wanted.vars {
                    Some(own) => own,
                    None => JsonView::Object(Map::empty()),
                },
            );
            &&& step.state.targets.contains_key(wanted.name)
            &&& step.state.targets.remove(wanted.name) == targets.remove(wanted.name)
            &&& after.vars == before.vars
            &&& after.projects.contains_key(context.normalized_project)
            &&& after.projects.remove(context.normalized_project) == before.projects.remove(
                context.normalized_project,
            )
            &&& match step.result {
                Ok(action) => {
                    let applications = after.projects[context.normalized_project].applications;
                    &&& action == (ActionView::CopyFolder { vars, context })
                    &&& step.state.stage == StageView::Deploying(
                        DeploymentView { folder, next: j + 1, vars, context },
                        Part::Copying,
                    )
                    &&& applications.len() == earlier.len() + 1
                    &&& applications.take(earlier.len() as int) == earlier
                    &&& can_give(setup, entries, applications[earlier.len() as int])
                },
                Err(e) => {
                    &&& step.state.stage is Idle
                    &&& after.projects[context.normalized_project].applications == earlier
                    &&& can_report(setup, entries, e)
                },
            }
        }),
{
    let wanted = folder.metadata.targets[j];
    lemma_is_next_known(targets, folder, from, j);
    let filed = with_project(targets, setup.config, wanted.name, folder.metadata, context);
    let rendered = choose|rendered: Result<Seq<char>, ErrorView>|
        {
            &&& #[trigger] application_renders_to(
                setup,
                folder.metadata.application_options,
                context,
                rendered,
            )
            &&& step == deploy_rendered(filed, folder, j, context, rendered)
        };
    lemma_application(setup, folder.metadata.application_options, context, rendered);
    let p = context.normalized_project;
    assert(step.state.targets.remove(wanted.name) =~= targets.remove(wanted.name));
    assert(step.state.targets[wanted.name].projects.remove(p)
        =~= targets[wanted.name].projects.remove(p));
    let applications = step.state.targets[wanted.name].projects[p].applications;
    if let Ok(text) = rendered {
        let earlier = filed[wanted.name].projects[p].applications;
        assert(applications.take(earlier.len() as int) =~= earlier);
    }
}

/// The project of an application after its project was made or brought up to date, item by item. A
/// project that was there keeps its name, its namespace, its applications and what it allows. A new
/// one is called by the normalized name of the project, lies in the namespace of Argo CD, and has
/// neither applications nor anything allowed before.
pub proof fn law_what_a_project_is_brought_up_to(
    targets: Map<Seq<char>, TargetView>,
    config: ConfigView,
    target: Seq<char>,
    metadata: MetadataView,
    context: ContextView,
    destination: DestinationView,
    resource: ResourceView,
    repository: Seq<char>,
)
    requires
        targets.contains_key(target),
    ensures
        ({
            let after = with_project(targets, config, target, metadata, context);
            let name = context.normalized_project;
            let before = targets[target].projects;
            let is_new = !before.contains_key(name);
            let project = after[target].projects[name].project;
            &&& after.remove(target) == targets.remove(target)
            &&& after.contains_key(target)
            &&& after[target].vars == targets[target].vars
            &&& after[target].projects.contains_key(name)
            &&& after[target].projects.remove(name) == before.remove(name)
            &&& project.destinations.contains(destination) <==> !is_new
                && before[name].project.destinations.contains(destination) || destination.name
                == "in-cluster"@ && destination.server == "https://kubernetes.devault.svc"@ && (
            destination.namespace == context.namespace || metadata.additional_namespaces.contains(
                destination.namespace,
            ))
            &&& project.cluster_resource_whitelist.contains(resource) <==> !is_new
                && before[name].project.cluster_resource_whitelist.contains(resource)
                || resource.group == ""@ && resource.kind == "Namespace"@
                || metadata.cluster_resource_whitelist.contains(resource)
            &&& project.source_repos.contains(repository) <==> !is_new
                && before[name].project.source_repos.contains(repository) || repository
                == config.argocd_source_repo
            &&& if is_new {
                &&& project.name == name
                &&& project.namespace == config.argocd_namespace
                &&& after[target].projects[name].applications.len() == 0
            } else {
                &&& project.name == before[name].project.name
                &&& project.namespace == before[name].project.namespace
                &&& after[target].projects[name].applications == before[name].applications
            }
        }),
{
    let after = with_project(targets, config, target, metadata, context);
    let name = context.normalized_project;
    law_what_a_project_allows(
        project_in(targets[target], config, context),
        config.argocd_source_repo,
        metadata,
        context,
        destination,
        resource,
        repository,
    );
    assert(after.remove(target) =~= targets.remove(target));
    assert(after[target].projects.remove(name) =~= targets[target].projects.remove(name));
}

/// The project of a deployment allows, after the step, exactly what it allowed before and what the
/// application needs, whatever came of the rendering.
pub proof fn law_a_deployment_brings_its_project_up_to_date(
    setup: SetupView,
    targets: Map<Seq<char>, TargetView>,
    folder: FolderView,
    from: int,
    j: int,
    context: ContextView,
    step: Step,
    destination: DestinationView,
    resource: ResourceView,
    repository: Seq<char>,
)
    requires
        0 <= from,
        is_next_known(targets, folder, from, j),
        deploys_from(setup, targets, folder, from, step),
        context_for(folder.path, folder.metadata.targets[j].name, folder.metadata.namespace) == Ok::<
            ContextView,
            ErrorView,
        >(context),
    ensures
        ({
            let metadata = folder.metadata;
            let target = metadata.targets[j].name;
            let name = context.normalized_project;
            let before = targets[target].projects;
            let is_new = !before.contains_key(name);
            let project = step.state.targets[target].projects[name].project;
            &&& project.destinations.contains(destination) <==> !is_new
                && before[name].project.destinations.contains(destination) || destination.name
                == "in-cluster"@ && destination.server == "https://kubernetes.devault.svc"@ && (
            destination.namespace == context.namespace || metadata.additional_namespaces.contains(
                destination.namespace,
            ))
            &&& project.cluster_resource_whitelist.contains(resource) <==> !is_new
                && before[name].project.cluster_resource_whitelist.contains(resource)
                || resource.group == ""@ && resource.kind == "Namespace"@
                || metadata.cluster_resource_whitelist.contains(resource)
            &&& project.source_repos.contains(repository) <==> !is_new
                && before[name].project.source_repos.contains(repository) || repository
                == setup.config.argocd_source_repo
            &&& project.name == if is_new {
                name
            } else {
                before[name].project.name
            }
            &&& project.namespace == if is_new {
                setup.config.argocd_namespace
            } else {
                before[name].project.namespace
            }
        }),
{
    let target = folder.metadata.targets[j].name;
    lemma_is_next_known(targets, folder, from, j);
    law_what_a_project_is_brought_up_to(
        targets,
        setup.config,
        target,
        folder.metadata,
        context,
        destination,
        resource,
        repository,
    );
}

/// A run that begins leaves the targets as they are, and asks for the first configured one to be
/// reset, or for a folder where none is configured.
pub proof fn law_what_a_run_begins_with(setup: SetupView, state: StateView, step: Step)
    requires
        steps_to(setup, state, EventView::Start, step),
    ensures
        step.state.targets == state.targets,
        setup.config.targets.len() > 0 ==> {
            &&& step.state.stage == StageView::Resetting(0)
            &&& step.result == Ok::<ActionView, ErrorView>(
                ActionView::ResetTarget { target: setup.config.targets[0].name },
            )
        },
        setup.config.targets.len() == 0 ==> {
            &&& step.state.stage is Scanning
            &&& step.result == Ok::<ActionView, ErrorView>(ActionView::FindFolder)
        },
{
}

/// A target that was reset holds no project, and its variables are those for all targets, its own
/// laid over them. The others stay as they are. The next configured target is then to be reset, and
/// after the last one a folder is looked for.
pub proof fn law_what_a_reset_does(setup: SetupView, state: StateView, step: Step)
    requires
        state.stage is Resetting,
        0 <= state.stage->Resetting_0 < setup.config.targets.len(),
        steps_to(setup, state, EventView::Done, step),
    ensures
        ({
            let i = state.stage->Resetting_0;
            let config = setup.config;
            let name = config.targets[i].name;
            let empty = JsonView::Object(Map::empty());
            &&& step.state.targets.contains_key(name)
            &&& step.state.targets.remove(name) == state.targets.remove(name)
            &&& step.state.targets[name].projects.dom().is_empty()
            &&& step.state.targets[name].vars == merged(
                match config.vars {
                    Some(vars) => vars,
                    None => empty,
                },
                match config.targets[i].vars {
                    Some(vars) => vars,
                    None => empty,
                },
            )
            &&& if i + 1 < config.targets.len() {
                &&& step.state.stage == StageView::Resetting(i + 1)
                &&& step.result == Ok::<ActionView, ErrorView>(
                    ActionView::ResetTarget { target: config.targets[i + 1].name },
                )
            } else {
                &&& step.state.stage is Scanning
                &&& step.result == Ok::<ActionView, ErrorView>(ActionView::FindFolder)
            }
        }),
{
    let name = setup.config.targets[state.stage->Resetting_0].name;
    assert(step.state.targets.remove(name) =~= state.targets.remove(name));
}

/// A folder that was found is deployed from the first target that it names on.
pub proof fn law_a_folder_is_deployed_from_its_first_target(
    setup: SetupView,
    state: StateView,
    folder: FolderView,
    step: Step,
)
    requires
        state.stage is Scanning,
        steps_to(setup, state, EventView::Folder(folder), step),
    ensures
        deploys_from(setup, state.targets, folder, 0, step),
{
}

/// What follows on the parts of a deployment. After the copy, the values are written wherever there
/// is a chart, at the path that the folder was copied to: the YAML of the variables of the
/// deployment and what the application is called. Then the script is run wherever the folder has
/// one, at the same path. Then comes the next deployment of the folder. A script that did not
/// succeed ends the run, and so do values that cannot be written. The targets do not change before
/// the next deployment.
pub proof fn law_what_follows_in_a_deployment(
    setup: SetupView,
    state: StateView,
    event: EventView,
    step: Step,
    d: DeploymentView,
    part: Part,
)
    requires
        state.stage == StageView::Deploying(d, part),
        !(event is Start),
        steps_to(setup, state, event, step),
    ensures
        ({
            let values = yaml_text(bargo_values(d.vars, d.context));
            let is_copied = part is Copying && event is Copied;
            let is_written = part is WritingValues && event is Done;
            let is_run = part is RunningScript && event is ScriptRan;
            &&& is_copied || is_written || is_run
            &&& is_copied && event->has_chart ==> {
                &&& step.state.targets == state.targets
                &&& match values {
                    Ok(text) => {
                        &&& step.state.stage == StageView::Deploying(d, Part::WritingValues)
                        &&& step.result matches Ok(ActionView::WriteValues { path, values: written })
                        &&& path == d.context.path
                        &&& is_core_of(written, text)
                    },
                    Err(e) => {
                        &&& step.state.stage is Idle
                        &&& step.result == Err::<ActionView, ErrorView>(
                            ErrorView::Yaml(yaml_error_message(e)),
                        )
                    },
                }
            }
            &&& is_copied && !event->has_chart || is_written
                ==> match d.folder.metadata.script {
                Some(script) => {
                    &&& step.state.targets == state.targets
                    &&& step.state.stage == StageView::Deploying(d, Part::RunningScript)
                    &&& step.result == Ok::<ActionView, ErrorView>(
                        ActionView::RunScript { path: d.context.path, script },
                    )
                },
                None => deploys_from(setup, state.targets, d.folder, d.next, step),
            }
            &&& is_run && event->succeeded ==> deploys_from(
                setup,
                state.targets,
                d.folder,
                d.next,
                step,
            )
            &&& is_run && !event->succeeded ==> {
                &&& step.state.targets == state.targets
                &&& step.state.stage is Idle
                &&& step.result == Err::<ActionView, ErrorView>(ErrorView::ScriptFailed)
            }
        }),
{
    let value = bargo_values(d.vars, d.context);
    let r = law_yaml_loses_white_space_at_its_ends_only(value);
    if let Ok(text) = yaml_text(value) {
        assert(is_core_between(text.subrange(r.0, r.1), text, r.0, r.1));
    }
}

/// `core` is what lies between both positions of `text`. Everything else is white space, and `core`
/// neither starts nor ends with white space.
pub open spec fn is_core_between(core: Seq<char>, text: Seq<char>, from: int, to: int) -> bool {
    &&& 0 <= from <= to <= text.len()
    &&& core == text.subrange(from, to)
    &&& forall|i: int| 0 <= i < from || to <= i < text.len() ==> is_white_space(#[trigger] text[i])
    &&& from < to ==> !is_white_space(text[from]) && !is_white_space(text[to - 1])
}

/// `core` is `text` without the white space at its ends.
pub open spec fn is_core_of(core: Seq<char>, text: Seq<char>) -> bool {
    exists|from: int, to: int| #[trigger] is_core_between(core, text, from, to)
}

/// When there is no folder left, the file for the configuration of the first target is to be
/// created, in the order of their names, and without targets the run is over. Nothing changes.
pub proof fn law_what_follows_on_the_last_folder(setup: SetupView, state: StateView, step: Step)
    requires
        state.stage is Scanning,
        steps_to(setup, state, EventView::NoMoreFolders, step),
    ensures
        step.state.targets == state.targets,
        ({
            let names = keys_in_order(state.targets.dom());
            if names.len() > 0 {
                &&& step.state.stage == StageView::Creating(0)
                &&& step.result == Ok::<ActionView, ErrorView>(
                    ActionView::CreateConfig { target: names[0] },
                )
            } else {
                &&& step.state.stage is Idle
                &&& step.result == Ok::<ActionView, ErrorView>(ActionView::Finish)
            }
        }),
{
}

/// The application that deploys the configuration of a target is rendered from the application
/// template with the options for it. It is called `argocd-config`, belongs to the project `default`,
/// and lies in the namespace of Argo CD and in the folder `argocd-config` of the target. Nothing
/// changes.
pub proof fn law_what_deploys_the_configuration(setup: SetupView, state: StateView, step: Step)
    requires
        state.stage is Creating,
        steps_to(setup, state, EventView::Done, step),
    ensures
        ({
            let i = state.stage->Creating_0;
            let config = setup.config;
            let target = keys_in_order(state.targets.dom())[i];
            let entries = application_entries(
                config,
                config.argocd_config_application_options,
                ContextView {
                    namespace: config.argocd_namespace,
                    project: "default"@,
                    app_name: "argocd-config"@,
                    normalized_project: "default"@,
                    normalized_app_name: "argocd-config"@,
                    path: target + "/argocd-config"@,
                    target_name: target,
                },
            );
            &&& step.state.targets == state.targets
            &&& match step.result {
                Ok(action) => {
                    &&& step.state.stage == StageView::WritingConfig(i)
                    &&& action matches ActionView::WriteConfig { target: t, application }
                    &&& t == target
                    &&& can_give(setup, entries, application)
                },
                Err(e) => step.state.stage is Idle && can_report(setup, entries, e),
            }
        }),
{
    let i = state.stage->Creating_0;
    let config = setup.config;
    let options = config.argocd_config_application_options;
    let context = config_context(config, keys_in_order(state.targets.dom())[i]);
    let rendered = choose|rendered: Result<Seq<char>, ErrorView>|
        {
            &&& #[trigger] application_renders_to(setup, options, context, rendered)
            &&& step == config_rendered(state.targets, i, rendered)
        };
    lemma_application(setup, options, context, rendered);
}

/// Once the application that deploys the configuration of a target is written, its projects are
/// written one by one, in the order of their names: each as it is, with all of its applications, in
/// order. After the last one comes the next target, and after the last target the run is over.
/// Nothing changes.
pub proof fn law_what_is_written_of_a_target(setup: SetupView, state: StateView, step: Step)
    requires
        state.stage is WritingConfig || state.stage is WritingProject,
        steps_to(setup, state, EventView::Done, step),
    ensures
        ({
            let targets = state.targets;
            let names = keys_in_order(targets.dom());
            let i = match state.stage {
                StageView::WritingConfig(i) => i,
                StageView::WritingProject(i, _) => i,
                _ => 0,
            };
            let p = match state.stage {
                StageView::WritingProject(_, p) => p + 1,
                _ => 0,
            };
            let projects = targets[names[i]].projects;
            let filed = keys_in_order(projects.dom());
            &&& step.state.targets == targets
            &&& if p < filed.len() {
                let project = projects[filed[p]];
                &&& step.state.stage == StageView::WritingProject(i, p)
                &&& step.result matches Ok(
                    ActionView::WriteProject { target, name, project: written, applications },
                )
                &&& target == names[i]
                &&& name == filed[p]
                &&& written == project.project
                &&& applications.to_multiset() == project.applications.to_multiset()
                &&& forall|a: int, b: int|
                    0 <= a < b < applications.len() ==> !text_less(
                        #[trigger] applications[b],
                        #[trigger] applications[a],
                    )
            } else if i + 1 < names.len() {
                &&& step.state.stage == StageView::Creating(i + 1)
                &&& step.result == Ok::<ActionView, ErrorView>(
                    ActionView::CreateConfig { target: names[i + 1] },
                )
            } else {
                &&& step.state.stage is Idle
                &&& step.result == Ok::<ActionView, ErrorView>(ActionView::Finish)
            }
        }),
{
    let i = match state.stage {
        StageView::WritingConfig(i) => i,
        StageView::WritingProject(i, _) => i,
        _ => 0,
    };
    let p = match state.stage {
        StageView::WritingProject(_, p) => p + 1,
        _ => 0,
    };
    let projects = state.targets[keys_in_order(state.targets.dom())[i]].projects;
    let filed = keys_in_order(projects.dom());
    law_texts_in_order(projects[filed[p]].applications);
}

/// A run takes no other steps: it goes on from what it waits for, and can begin anew at any time.
pub proof fn law_a_run_goes_on_from_what_it_waits_for(
    setup: SetupView,
    state: StateView,
    event: EventView,
    step: Step,
)
    requires
        steps_to(setup, state, event, step),
    ensures
        match event {
            EventView::Start => true,
            EventView::Done => match state.stage {
                StageView::Resetting(_) => true,
                StageView::Deploying(_, part) => part is WritingValues,
                StageView::Creating(_) => true,
                StageView::WritingConfig(_) => true,
                StageView::WritingProject(_, _) => true,
                _ => false,
            },
            EventView::Folder(_) => state.stage is Scanning,
            EventView::NoMoreFolders => state.stage is Scanning,
            EventView::Copied { .. } => state.stage matches StageView::Deploying(_, part)
                && part is Copying,
            EventView::ScriptRan { .. } => state.stage matches StageView::Deploying(_, part)
                && part is RunningScript,
        },
{
}

/// What follows on each outcome. An application that was rendered is added to the end of the project
/// that is filed under its normalized name, and its folder is copied; one for a configuration is
/// written; and values that were encoded are written at the path of their application. An error ends
/// the run, is reported as it is, and leaves the targets as they are.
pub proof fn law_what_follows_on_an_outcome(
    targets: Map<Seq<char>, TargetView>,
    folder: FolderView,
    j: int,
    context: ContextView,
    d: DeploymentView,
    i: int,
    text: Seq<char>,
    error: ErrorView,
)
    requires
        0 <= j < folder.metadata.targets.len(),
        targets.contains_key(folder.metadata.targets[j].name),
        targets[folder.metadata.targets[j].name].projects.contains_key(context.normalized_project),
    ensures
        ({
            let name = folder.metadata.targets[j].name;
            let p = context.normalized_project;
            let step = deploy_rendered(targets, folder, j, context, Ok(text));
            let after = step.state.targets;
            let vars = merged(
                targets[name].vars,
                match folder.metadata.targets[j].vars {
                    Some(own) => own,
                    None => JsonView::Object(Map::empty()),
                },
            );
            &&& step.result == Ok::<ActionView, ErrorView>(ActionView::CopyFolder { vars, context })
            &&& after.remove(name) == targets.remove(name)
            &&& after[name].vars == targets[name].vars
            &&& after[name].projects.remove(p) == targets[name].projects.remove(p)
            &&& after[name].projects[p].project == targets[name].projects[p].project
            &&& after[name].projects[p].applications
                == targets[name].projects[p].applications + seq![text]
        }),
        config_rendered(targets, i, Ok(text)).state.targets == targets,
        config_rendered(targets, i, Ok(text)).result == Ok::<ActionView, ErrorView>(
            ActionView::WriteConfig { target: keys_in_order(targets.dom())[i], application: text },
        ),
        values_encoded(targets, d, Ok(text)).state.targets == targets,
        values_encoded(targets, d, Ok(text)).result == Ok::<ActionView, ErrorView>(
            ActionView::WriteValues { path: d.context.path, values: text },
        ),
        ({
            let failed = Step {
                state: StateView { targets, stage: StageView::Idle },
                result: Err(error),
            };
            &&& deploy_rendered(targets, folder, j, context, Err(error)) == failed
            &&& config_rendered(targets, i, Err(error)) == failed
            &&& values_encoded(targets, d, Err(error)) == failed
        }),
{
    let name = folder.metadata.targets[j].name;
    let p = context.normalized_project;
    let after = deploy_rendered(targets, folder, j, context, Ok(text)).state.targets;
    assert(after.remove(name) =~= targets.remove(name));
    assert(after[name].projects.remove(p) =~= targets[name].projects.remove(p));
    assert(after[name].projects[p].applications =~= targets[name].projects[p].applications
        + seq![text]);
}

/// An application is added to the end of the project that is filed under that name in that target,
/// and nothing else changes.
pub proof fn law_what_adding_an_application_does(
    targets: Map<Seq<char>, TargetView>,
    target: Seq<char>,
    project: Seq<char>,
    application: Seq<char>,
)
    requires
        targets.contains_key(target),
        targets[target].projects.contains_key(project),
    ensures
        ({
            let after = with_application(targets, target, project, application);
            let before = targets[target];
            &&& after.remove(target) == targets.remove(target)
            &&& after.contains_key(target)
            &&& after[target].vars == before.vars
            &&& after[target].projects.remove(project) == before.projects.remove(project)
            &&& after[target].projects.contains_key(project)
            &&& after[target].projects[project].project == before.projects[project].project
            &&& after[target].projects[project].applications
                == before.projects[project].applications + seq![application]
        }),
{
    let after = with_application(targets, target, project, application);
    assert(after.remove(target) =~= targets.remove(target));
    assert(after[target].projects.remove(project) =~= targets[target].projects.remove(project));
    assert(after[target].projects[project].applications
        =~= targets[target].projects[project].applications + seq![application]);
}

} // verus!
