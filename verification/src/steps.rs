//! The course of a run: what is asked for after each event.

use vstd::prelude::*;

use crate::app_project::{AppProject, AppProjectView};
use crate::config::{AppFolder, ConfigView, ContextView, MetadataView, TargetSpec, TemplateContext};
use crate::error::ErrorView;
use crate::filters::trimmed_yaml;
use crate::folder::bargo_values;
use crate::json::{merged, or_empty_object, Json, JsonView};
use crate::names::sanitized;
use crate::order::{in_order, texts};
use crate::path::{joined, name_of, parent_name_of, PathPart};
use crate::sorted_map::keys_in_order;
use crate::targets::{allowing, fresh_project, ArgoCDProjectView, TargetView};
use crate::template::{comes_to_an_end, renders_to};

verus! {

/// What a run is told.
pub enum Event {
    /// A run begins.
    Start,
    /// What was asked for is done.
    Done,
    /// An application folder was found.
    Folder(AppFolder),
    /// There is no application folder left.
    NoMoreFolders,
    /// The folder of an application was copied, with or without a chart among its files.
    Copied { has_chart: bool },
    /// The script of an application was run.
    ScriptRan { succeeded: bool },
}

/// What a run asks for.
pub enum Action {
    /// Empty the output folder of a target.
    ResetTarget { target: String },
    /// Look for the next application folder.
    FindFolder,
    /// Copy the folder at hand to the path that the context gives, rendering its templates with the
    /// variables.
    CopyFolder { vars: Json, context: TemplateContext },
    /// Write the values for the chart of the application at that path.
    WriteValues { path: String, values: String },
    /// Run the script of the application at that path.
    RunScript { path: String, script: String },
    /// Create the file for the configuration of a target.
    CreateConfig { target: String },
    /// Write the application that deploys the configuration of a target into that file.
    WriteConfig { target: String, application: String },
    /// Write the file of a project: the project, and its applications.
    WriteProject {
        target: String,
        name: String,
        project: AppProject,
        applications: Vec<String>,
    },
    /// Nothing: the run is over.
    Finish,
}

/// What an application folder is.
#[verifier::ext_equal]
pub struct FolderView {
    pub path: Seq<PathPart>,
    pub metadata: MetadataView,
}

impl View for AppFolder {
    type V = FolderView;

    open spec fn view(&self) -> FolderView {
        FolderView { path: self.path@, metadata: self.metadata@ }
    }
}

/// What an event says.
#[verifier::ext_equal]
pub enum EventView {
    Start,
    Done,
    Folder(FolderView),
    NoMoreFolders,
    Copied { has_chart: bool },
    ScriptRan { succeeded: bool },
}

impl View for Event {
    type V = EventView;

    open spec fn view(&self) -> EventView {
        match *self {
            Event::Start => EventView::Start,
            Event::Done => EventView::Done,
            Event::Folder(folder) => EventView::Folder(folder@),
            Event::NoMoreFolders => EventView::NoMoreFolders,
            Event::Copied { has_chart } => EventView::Copied { has_chart },
            Event::ScriptRan { succeeded } => EventView::ScriptRan { succeeded },
        }
    }
}

/// What an action says.
#[verifier::ext_equal]
pub enum ActionView {
    ResetTarget { target: Seq<char> },
    FindFolder,
    CopyFolder { vars: JsonView, context: ContextView },
    WriteValues { path: Seq<char>, values: Seq<char> },
    RunScript { path: Seq<char>, script: Seq<char> },
    CreateConfig { target: Seq<char> },
    WriteConfig { target: Seq<char>, application: Seq<char> },
    WriteProject {
        target: Seq<char>,
        name: Seq<char>,
        project: AppProjectView,
        applications: Seq<Seq<char>>,
    },
    Finish,
}

impl View for Action {
    type V = ActionView;

    open spec fn view(&self) -> ActionView {
        match *self {
            Action::ResetTarget { target } => ActionView::ResetTarget { target: target@ },
            Action::FindFolder => ActionView::FindFolder,
            Action::CopyFolder { vars, context } => ActionView::CopyFolder {
                vars: vars@,
                context: context@,
            },
            Action::WriteValues { path, values } => ActionView::WriteValues {
                path: path@,
                values: values@,
            },
            Action::RunScript { path, script } => ActionView::RunScript {
                path: path@,
                script: script@,
            },
            Action::CreateConfig { target } => ActionView::CreateConfig { target: target@ },
            Action::WriteConfig { target, application } => ActionView::WriteConfig {
                target: target@,
                application: application@,
            },
            Action::WriteProject { target, name, project, applications } => {
                ActionView::WriteProject {
                    target: target@,
                    name: name@,
                    project: project@,
                    applications: texts(applications@),
                }
            },
            Action::Finish => ActionView::Finish,
        }
    }
}

/// The deployment of an application to one of the targets that its folder names. The targets that
/// the folder names from position `next` on are still to come.
pub struct Deployment {
    pub folder: AppFolder,
    pub next: usize,
    pub vars: Json,
    pub context: TemplateContext,
}

/// What a deployment is.
#[verifier::ext_equal]
pub struct DeploymentView {
    pub folder: FolderView,
    pub next: int,
    pub vars: JsonView,
    pub context: ContextView,
}

impl View for Deployment {
    type V = DeploymentView;

    open spec fn view(&self) -> DeploymentView {
        DeploymentView {
            folder: self.folder@,
            next: self.next as int,
            vars: self.vars@,
            context: self.context@,
        }
    }
}

/// The parts of a deployment, in the order in which they are done.
pub enum Part {
    /// The folder is copied.
    Copying,
    /// The values for the chart are written.
    WritingValues,
    /// The script is run.
    RunningScript,
}

/// How far a run has come: what it waits for.
#[verifier::ext_equal]
pub enum StageView {
    /// No run is under way.
    Idle,
    /// The output folder of the target at that position of the configuration is being emptied.
    Resetting(int),
    /// The next application folder is being looked for.
    Scanning,
    /// A part of a deployment is being done.
    Deploying(DeploymentView, Part),
    /// The file for the configuration of a target is being created. Targets are counted in the
    /// order of their names.
    Creating(int),
    /// The application that deploys the configuration of a target is being written.
    WritingConfig(int),
    /// The file of a project of a target is being written. Projects are counted in the order of
    /// their names.
    WritingProject(int, int),
}

/// What stays the same throughout a run.
pub struct SetupView {
    pub config: ConfigView,
    pub application_template: Seq<char>,
    pub templates: tera::Tera,
}

/// What a run has gathered, and how far it has come.
#[verifier::ext_equal]
pub struct StateView {
    pub targets: Map<Seq<char>, TargetView>,
    pub stage: StageView,
}

/// The state after an event, and what is asked for or reported.
#[verifier::ext_equal]
pub struct Step {
    pub state: StateView,
    pub result: Result<ActionView, ErrorView>,
}

/// Whether `event` is one that a run waits for at `stage`.
pub open spec fn awaits(stage: StageView, event: EventView) -> bool {
    match event {
        EventView::Start => true,
        EventView::Done => stage is Resetting || stage is Creating || stage is WritingConfig
            || stage is WritingProject || stage is Deploying && stage->Deploying_1 is WritingValues,
        EventView::Folder(_) => stage is Scanning,
        EventView::NoMoreFolders => stage is Scanning,
        EventView::Copied { .. } => stage is Deploying && stage->Deploying_1 is Copying,
        EventView::ScriptRan { .. } => stage is Deploying && stage->Deploying_1 is RunningScript,
    }
}

/// Go on to `stage`, and ask for `action`.
pub open spec fn proceed(
    targets: Map<Seq<char>, TargetView>,
    stage: StageView,
    action: ActionView,
) -> Step {
    Step { state: StateView { targets, stage }, result: Ok(action) }
}

/// End the run, and report `error`.
pub open spec fn fail(targets: Map<Seq<char>, TargetView>, error: ErrorView) -> Step {
    Step { state: StateView { targets, stage: StageView::Idle }, result: Err(error) }
}

/// The variables of the target at position `i` of the configuration: its own, laid over those
/// for all targets.
pub open spec fn target_vars(config: ConfigView, i: int) -> JsonView {
    merged(or_empty_object(config.vars), or_empty_object(config.targets[i].vars))
}

/// The target at position `i` of the configuration, before any application.
pub open spec fn new_target(config: ConfigView, i: int) -> TargetView {
    TargetView { vars: target_vars(config, i), projects: Map::empty() }
}

/// Reset the targets from position `i` on, and then look for folders.
pub open spec fn reset_from(
    setup: SetupView,
    targets: Map<Seq<char>, TargetView>,
    i: int,
) -> Step {
    if i < setup.config.targets.len() {
        proceed(
            targets,
            StageView::Resetting(i),
            ActionView::ResetTarget { target: setup.config.targets[i].name },
        )
    } else {
        proceed(targets, StageView::Scanning, ActionView::FindFolder)
    }
}

/// The first position from `from` on of a target that is known, or the number of targets.
pub open spec fn next_known(
    wanted: Seq<TargetSpec>,
    known: Set<Seq<char>>,
    from: int,
) -> int
    decreases wanted.len() - from,
{
    if from >= wanted.len() {
        wanted.len() as int
    } else if known.contains(wanted[from].name) {
        from
    } else {
        next_known(wanted, known, from + 1)
    }
}

/// What an application is called and where it goes: its folder gives its name, the folder above
/// that of its project, and the namespace is that of the project unless the metadata give one.
pub open spec fn context_for(
    path: Seq<PathPart>,
    target: Seq<char>,
    namespace: Option<Seq<char>>,
) -> Result<ContextView, ErrorView> {
    match (parent_name_of(path), name_of(path)) {
        (None, _) => Err(ErrorView::NoProjectName),
        (Some(_), None) => Err(ErrorView::NoAppName),
        (Some(project), Some(app_name)) => Ok(
            ContextView {
                namespace: match namespace {
                    Some(n) => n,
                    None => sanitized(project),
                },
                project,
                app_name,
                normalized_project: sanitized(project),
                normalized_app_name: sanitized(app_name),
                path: joined(joined(target, project), app_name),
                target_name: target,
            },
        ),
    }
}

/// The project that an application belongs to, as it stands in a target.
pub open spec fn project_in(
    target: TargetView,
    config: ConfigView,
    context: ContextView,
) -> ArgoCDProjectView {
    if target.projects.contains_key(context.normalized_project) {
        target.projects[context.normalized_project]
    } else {
        fresh_project(config, context)
    }
}

/// The targets when the project of an application allows what the application needs. The project
/// is filed under its normalized name.
pub open spec fn with_project(
    targets: Map<Seq<char>, TargetView>,
    config: ConfigView,
    target: Seq<char>,
    metadata: MetadataView,
    context: ContextView,
) -> Map<Seq<char>, TargetView> {
    let old_target = targets[target];
    targets.insert(
        target,
        TargetView {
            projects: old_target.projects.insert(
                context.normalized_project,
                allowing(
                    project_in(old_target, config, context),
                    config.argocd_source_repo,
                    metadata,
                    context,
                ),
            ),
            ..old_target
        },
    )
}

/// The targets when a rendered application is added to the project filed under `project`.
pub open spec fn with_application(
    targets: Map<Seq<char>, TargetView>,
    target: Seq<char>,
    project: Seq<char>,
    application: Seq<char>,
) -> Map<Seq<char>, TargetView> {
    let old_target = targets[target];
    let old_project = old_target.projects[project];
    targets.insert(
        target,
        TargetView {
            projects: old_target.projects.insert(
                project,
                ArgoCDProjectView {
                    applications: old_project.applications.push(application),
                    ..old_project
                },
            ),
            ..old_target
        },
    )
}

/// The entries that an application is rendered with: the default options, the application's own
/// laid over them, and what the application is called laid over both.
pub open spec fn application_entries(
    config: ConfigView,
    options: Option<JsonView>,
    context: ContextView,
) -> Map<Seq<char>, JsonView> {
    merged(
        merged(
            or_empty_object(config.default_application_options),
            or_empty_object(options),
        ),
        JsonView::Object(context.entries()),
    )->Object_0
}

/// `r` is what can come of rendering an application.
pub open spec fn application_renders_to(
    setup: SetupView,
    options: Option<JsonView>,
    context: ContextView,
    r: Result<Seq<char>, ErrorView>,
) -> bool {
    renders_to(
        setup.templates,
        setup.application_template,
        application_entries(setup.config, options, context),
        r,
    )
}

/// Rendering an application returns.
pub open spec fn application_ends(
    setup: SetupView,
    options: Option<JsonView>,
    context: ContextView,
) -> bool {
    comes_to_an_end(
        setup.templates,
        setup.application_template,
        application_entries(setup.config, options, context),
    )
}

/// What follows on rendering the application of a folder, for what came of it: it is added to the
/// project of the application, which is filed under its normalized name, and its folder is copied.
pub open spec fn deploy_rendered(
    targets: Map<Seq<char>, TargetView>,
    folder: FolderView,
    j: int,
    context: ContextView,
    rendered: Result<Seq<char>, ErrorView>,
) -> Step {
    let wanted = folder.metadata.targets[j];
    match rendered {
        Err(e) => fail(targets, e),
        Ok(application) => proceed(
            with_application(targets, wanted.name, context.normalized_project, application),
            StageView::Deploying(
                DeploymentView {
                    folder,
                    next: j + 1,
                    vars: merged(targets[wanted.name].vars, or_empty_object(wanted.vars)),
                    context,
                },
                Part::Copying,
            ),
            ActionView::CopyFolder {
                vars: merged(targets[wanted.name].vars, or_empty_object(wanted.vars)),
                context,
            },
        ),
    }
}

/// What follows on encoding the values for the chart of an application, for what came of it.
pub open spec fn values_encoded(
    targets: Map<Seq<char>, TargetView>,
    deployment: DeploymentView,
    encoded: Result<Seq<char>, ErrorView>,
) -> Step {
    match encoded {
        Err(e) => fail(targets, e),
        Ok(values) => proceed(
            targets,
            StageView::Deploying(deployment, Part::WritingValues),
            ActionView::WriteValues { path: deployment.context.path, values },
        ),
    }
}

/// The values for the chart of an application as they are written.
pub open spec fn values_of(deployment: DeploymentView) -> Result<Seq<char>, ErrorView> {
    match trimmed_yaml(bargo_values(deployment.vars, deployment.context)) {
        Ok(text) => Ok(text),
        Err(message) => Err(ErrorView::Yaml(message)),
    }
}

/// Run the script of an application that has one.
pub open spec fn run_script(
    targets: Map<Seq<char>, TargetView>,
    deployment: DeploymentView,
    script: Seq<char>,
) -> Step {
    proceed(
        targets,
        StageView::Deploying(deployment, Part::RunningScript),
        ActionView::RunScript { path: deployment.context.path, script },
    )
}

/// Where an event lets a run go on to the next deployment, the folder that it is of, and the
/// position from which on the targets that the folder names are still to come.
pub open spec fn deploys_next(stage: StageView, event: EventView) -> Option<(FolderView, int)> {
    match (event, stage) {
        (EventView::Folder(folder), StageView::Scanning) => Some((folder, 0)),
        (EventView::Copied { has_chart }, StageView::Deploying(d, Part::Copying)) => if !has_chart
            && d.folder.metadata.script is None {
            Some((d.folder, d.next))
        } else {
            None
        },
        (EventView::Done, StageView::Deploying(d, Part::WritingValues)) => if
            d.folder.metadata.script is None {
            Some((d.folder, d.next))
        } else {
            None
        },
        (EventView::ScriptRan { succeeded }, StageView::Deploying(d, Part::RunningScript)) => if
            succeeded {
            Some((d.folder, d.next))
        } else {
            None
        },
        _ => None,
    }
}

/// `step` is one that can be taken to deploy the application of a folder to the first known target
/// that it names from position `from` on. Targets that are not known are passed over.
pub open spec fn deploys_from(
    setup: SetupView,
    targets: Map<Seq<char>, TargetView>,
    folder: FolderView,
    from: int,
    step: Step,
) -> bool {
    let wanted = folder.metadata.targets;
    let j = next_known(wanted, targets.dom(), from);
    if j >= wanted.len() {
        step == proceed(targets, StageView::Scanning, ActionView::FindFolder)
    } else {
        match context_for(folder.path, wanted[j].name, folder.metadata.namespace) {
            Err(e) => step == fail(targets, e),
            Ok(context) => exists|rendered: Result<Seq<char>, ErrorView>|
                {
                    &&& #[trigger] application_renders_to(
                        setup,
                        folder.metadata.application_options,
                        context,
                        rendered,
                    )
                    &&& step == deploy_rendered(
                        with_project(
                            targets,
                            setup.config,
                            wanted[j].name,
                            folder.metadata,
                            context,
                        ),
                        folder,
                        j,
                        context,
                        rendered,
                    )
                },
        }
    }
}

/// Where deploying the application of a folder from position `from` on needs a rendering, that
/// returns.
pub open spec fn deploying_ends(
    setup: SetupView,
    targets: Map<Seq<char>, TargetView>,
    folder: FolderView,
    from: int,
) -> bool {
    let wanted = folder.metadata.targets;
    let j = next_known(wanted, targets.dom(), from);
    j < wanted.len() ==> (context_for(
        folder.path,
        wanted[j].name,
        folder.metadata.namespace,
    ) matches Ok(context) ==> application_ends(
        setup,
        folder.metadata.application_options,
        context,
    ))
}

/// Rendering the application that deploys the configuration of the target at position `i` returns.
pub open spec fn config_ends(
    setup: SetupView,
    targets: Map<Seq<char>, TargetView>,
    i: int,
) -> bool {
    application_ends(
        setup,
        setup.config.argocd_config_application_options,
        config_context(setup.config, keys_in_order(targets.dom())[i]),
    )
}

/// Where a step needs a rendering, that returns. A template that may panic or never end would keep
/// the run from taking the step.
pub open spec fn step_ends(setup: SetupView, state: StateView, event: EventView) -> bool {
    match (event, state.stage) {
        (EventView::Done, StageView::Creating(i)) => config_ends(setup, state.targets, i),
        _ => deploys_next(state.stage, event) matches Some((folder, from)) ==> deploying_ends(
            setup,
            state.targets,
            folder,
            from,
        ),
    }
}

/// Write the configuration of the targets from position `i` on, in the order of their names.
pub open spec fn create_from(targets: Map<Seq<char>, TargetView>, i: int) -> Step {
    let names = keys_in_order(targets.dom());
    if i < names.len() {
        proceed(targets, StageView::Creating(i), ActionView::CreateConfig { target: names[i] })
    } else {
        proceed(targets, StageView::Idle, ActionView::Finish)
    }
}

/// What the application that deploys the configuration of a target is called.
pub open spec fn config_context(config: ConfigView, target: Seq<char>) -> ContextView {
    ContextView {
        namespace: config.argocd_namespace,
        project: "default"@,
        app_name: "argocd-config"@,
        normalized_project: "default"@,
        normalized_app_name: "argocd-config"@,
        path: target + "/argocd-config"@,
        target_name: target,
    }
}

/// What follows on rendering the application that deploys the configuration of the target at
/// position `i`, for what came of it.
pub open spec fn config_rendered(
    targets: Map<Seq<char>, TargetView>,
    i: int,
    rendered: Result<Seq<char>, ErrorView>,
) -> Step {
    match rendered {
        Err(e) => fail(targets, e),
        Ok(application) => proceed(
            targets,
            StageView::WritingConfig(i),
            ActionView::WriteConfig { target: keys_in_order(targets.dom())[i], application },
        ),
    }
}

/// `step` is one that can be taken when the file for the configuration of the target at position
/// `i` was created.
pub open spec fn writes_config(
    setup: SetupView,
    targets: Map<Seq<char>, TargetView>,
    i: int,
    step: Step,
) -> bool {
    exists|rendered: Result<Seq<char>, ErrorView>|
        {
            &&& #[trigger] application_renders_to(
                setup,
                setup.config.argocd_config_application_options,
                config_context(setup.config, keys_in_order(targets.dom())[i]),
                rendered,
            )
            &&& step == config_rendered(targets, i, rendered)
        }
}

/// Write the projects of the target at position `i`, from position `p` on, in the order of their
/// names, with their applications in order, and then go on to the next target.
pub open spec fn write_projects_from(targets: Map<Seq<char>, TargetView>, i: int, p: int) -> Step {
    let target = keys_in_order(targets.dom())[i];
    let projects = targets[target].projects;
    let names = keys_in_order(projects.dom());
    if p < names.len() {
        proceed(
            targets,
            StageView::WritingProject(i, p),
            ActionView::WriteProject {
                target,
                name: names[p],
                project: projects[names[p]].project,
                applications: in_order(projects[names[p]].applications),
            },
        )
    } else {
        create_from(targets, i + 1)
    }
}

/// `step` is one that a run can take from `state` when it is told `event`. The parts of a deployment
/// follow on one another: the folder is copied, then the values are written where there is a chart,
/// then the script is run where there is one, and only then comes the next deployment.
pub open spec fn steps_to(setup: SetupView, state: StateView, event: EventView, step: Step) -> bool {
    let targets = state.targets;
    match (event, state.stage) {
        (EventView::Start, _) => step == reset_from(setup, targets, 0),
        (EventView::Done, StageView::Resetting(i)) => step == reset_from(
            setup,
            targets.insert(setup.config.targets[i].name, new_target(setup.config, i)),
            i + 1,
        ),
        (EventView::NoMoreFolders, StageView::Scanning) => step == create_from(targets, 0),
        (EventView::Done, StageView::Creating(i)) => writes_config(setup, targets, i, step),
        (EventView::Done, StageView::WritingConfig(i)) => step == write_projects_from(
            targets,
            i,
            0,
        ),
        (EventView::Done, StageView::WritingProject(i, p)) => step == write_projects_from(
            targets,
            i,
            p + 1,
        ),
        _ => match deploys_next(state.stage, event) {
            Some((folder, from)) => deploys_from(setup, targets, folder, from, step),
            None => goes_on_deploying(targets, state.stage, event, step),
        },
    }
}

/// `step` is the one from one part of a deployment to the next, or to the end of the run where its
/// script did not succeed.
pub open spec fn goes_on_deploying(
    targets: Map<Seq<char>, TargetView>,
    stage: StageView,
    event: EventView,
    step: Step,
) -> bool {
    match (event, stage) {
        (EventView::Copied { has_chart }, StageView::Deploying(d, Part::Copying)) => if has_chart {
            step == values_encoded(targets, d, values_of(d))
        } else {
            step == run_script(targets, d, d.folder.metadata.script->0)
        },
        (EventView::Done, StageView::Deploying(d, Part::WritingValues)) => step == run_script(
            targets,
            d,
            d.folder.metadata.script->0,
        ),
        (EventView::ScriptRan { .. }, StageView::Deploying(_, Part::RunningScript)) => step == fail(
            targets,
            ErrorView::ScriptFailed,
        ),
        _ => false,
    }
}

} // verus!
