//! The processor: turns application folders into what Argo CD deploys.

use vstd::prelude::*;

use crate::config::{AppFolder, Config, Metadata, TemplateContext};
use crate::error::{ErrorView, ProcessError};
use crate::folder::{
    copy_or_template_entry, entry_comes_to, entry_ends, finish_entry, write_bargo_values,
    EntryAction, EntryOutput,
};
use crate::json::{copy_or_empty, merge, option_view, Json, JsonView};
use crate::names::sanitize_name;
use crate::path::{file_name, join, parent_name, PathPart};
use crate::sorted_map::{keys_in_order, SortedMap};
use crate::steps::{
    application_ends, application_renders_to, awaits, config_context, config_ends, config_rendered,
    context_for, create_from, deploy_rendered, deploying_ends, deploys_from, new_target, next_known,
    reset_from, run_script, step_ends, steps_to, values_encoded, with_application, with_project,
    write_projects_from, writes_config, Action, ActionView, Deployment, Event, EventView, Part,
    SetupView, StageView, StateView, Step,
};
use crate::targets::{target_views, ArgoCDProject, TargetState};
use crate::template::{comes_to_an_end, render_with, renders_to, text_view};

verus! {

/// How far a run has come.
enum Stage {
    Idle,
    Resetting(usize),
    Scanning,
    Deploying(Deployment, Part),
    Creating(usize),
    WritingConfig(usize),
    WritingProject(usize, usize),
}

impl View for Stage {
    type V = StageView;

    closed spec fn view(&self) -> StageView {
        match *self {
            Stage::Idle => StageView::Idle,
            Stage::Resetting(i) => StageView::Resetting(i as int),
            Stage::Scanning => StageView::Scanning,
            Stage::Deploying(deployment, part) => StageView::Deploying(deployment@, part),
            Stage::Creating(i) => StageView::Creating(i as int),
            Stage::WritingConfig(i) => StageView::WritingConfig(i as int),
            Stage::WritingProject(i, p) => StageView::WritingProject(i as int, p as int),
        }
    }
}

/// Processes a tree of application folders.
pub struct ProjectProcessor {
    application_template_name: String,
    config: Config,
    targets: SortedMap<TargetState>,
    tera: tera::Tera,
    stage: Stage,
}

/// What a result of `process` says.
pub open spec fn result_view(r: Result<Action, ProcessError>) -> Result<ActionView, ErrorView> {
    match r {
        Ok(action) => Ok(action@),
        Err(e) => Err(e@),
    }
}

impl View for ProjectProcessor {
    type V = StateView;

    /// What the run has gathered, and how far it has come.
    closed spec fn view(&self) -> StateView {
        StateView { targets: target_views(self.targets.map()), stage: self.stage@ }
    }
}

impl ProjectProcessor {
    /// What stays the same throughout a run.
    pub closed spec fn setup(self) -> SetupView {
        SetupView {
            config: self.config@,
            application_template: self.application_template_name@,
            templates: self.tera,
        }
    }

    /// The positions that the stage speaks of exist.
    pub closed spec fn well_formed(self) -> bool {
        match self.stage {
            Stage::Resetting(i) => i < self.config.targets@.len(),
            Stage::Deploying(d, _) => d.next <= d.folder.metadata.targets@.len(),
            Stage::Creating(i) => i < self.targets.entries().len(),
            Stage::WritingConfig(i) => i < self.targets.entries().len(),
            Stage::WritingProject(i, p) => {
                &&& i < self.targets.entries().len()
                &&& p < usize::MAX
                &&& p < self.targets.entries()[i as int].1.projects.entries().len()
            },
            _ => true,
        }
    }

    /// A processor for a tree with this configuration and these templates. Applications are
    /// rendered from the template of the given name.
    pub fn new(config: Config, application_template_name: String, tera: tera::Tera) -> (r: Self)
        ensures
            r.well_formed(),
            r.setup() == (SetupView {
                config: config@,
                application_template: application_template_name@,
                templates: tera,
            }),
            r@ == (StateView { targets: Map::empty(), stage: StageView::Idle }),
    {
        let r = ProjectProcessor {
            application_template_name,
            config,
            targets: SortedMap::new(),
            tera,
            stage: Stage::Idle,
        };
        assert(target_views(r.targets.map()) =~= Map::empty());
        r
    }

    /// Renders the template of that name with the entries of an object. Any other value is
    /// refused.
    pub fn render_template(&self, template_name: &str, template_context: Json) -> (r: Result<
        String,
        ProcessError,
    >)
        requires
            template_context@ matches JsonView::Object(entries) ==> comes_to_an_end(
                self.setup().templates,
                template_name@,
                entries,
            ),
        ensures
            match template_context@ {
                JsonView::Object(entries) => renders_to(
                    self.setup().templates,
                    template_name@,
                    entries,
                    text_view(r),
                ),
                _ => r == Err::<String, ProcessError>(ProcessError::InvalidContext),
            },
    {
        render_with(&self.tera, template_name, &template_context)
    }

    /// Treats the entry of that name of an application folder: a template is rendered with the
    /// variables. The folder that the entry lies in is given by its path in the tree, which the
    /// names of templates start with.
    pub fn copy_and_template_entry(
        &self,
        vars: &Json,
        folder: &str,
        name: &str,
        is_dir: bool,
    ) -> (r: Result<EntryOutput, ProcessError>)
        requires
            entry_ends(self.setup().templates, vars@, folder@, name@, is_dir),
        ensures
            entry_comes_to(self.setup().templates, vars@, folder@, name@, is_dir, r),
    {
        match copy_or_template_entry(name, is_dir) {
            EntryAction::Descend => Ok(EntryOutput::Descend),
            EntryAction::Copy => Ok(EntryOutput::Copy),
            EntryAction::Render { name: stem } => finish_entry(
                stem,
                self.render_template(join(folder, name).as_str(), vars.clone()),
            ),
        }
    }

    /// Renders an application: from the default options, the application's own laid over them,
    /// and what the application is called laid over both.
    pub fn generate_argo_application_for_dir(
        &self,
        application_options: &Option<Json>,
        app_context: &TemplateContext,
    ) -> (r: Result<String, ProcessError>)
        requires
            application_ends(self.setup(), option_view(*application_options), app_context@),
        ensures
            application_renders_to(
                self.setup(),
                option_view(*application_options),
                app_context@,
                text_view(r),
            ),
    {
        let mut template_context = copy_or_empty(&self.config.default_application_options);
        merge(&mut template_context, copy_or_empty(application_options));
        merge(&mut template_context, app_context.to_json());
        self.render_template(self.application_template_name.as_str(), template_context)
    }

    /// What an application is called and where it goes, for the path of its folder.
    pub fn template_context_for_dir(
        app_dir: &Vec<PathPart>,
        target_name: &str,
        metadata: &Metadata,
    ) -> (r: Result<TemplateContext, ProcessError>)
        ensures
            match context_for(app_dir@, target_name@, metadata@.namespace) {
                Ok(context) => r matches Ok(c) && c@ == context,
                Err(e) => r matches Err(x) && x@ == e,
            },
    {
        let project = match parent_name(app_dir) {
            Some(name) => name,
            None => {
                return Err(ProcessError::NoProjectName);
            },
        };
        let app_name = match file_name(app_dir) {
            Some(name) => name,
            None => {
                return Err(ProcessError::NoAppName);
            },
        };
        let path = join(join(target_name, project.as_str()).as_str(), app_name.as_str());
        let namespace = match &metadata.namespace {
            Some(name) => name.clone(),
            None => sanitize_name(project.as_str()),
        };
        Ok(
            TemplateContext {
                namespace,
                normalized_project: sanitize_name(project.as_str()),
                normalized_app_name: sanitize_name(app_name.as_str()),
                project,
                app_name,
                path,
                target_name: target_name.to_owned(),
            },
        )
    }

    /// Lets the project of an application allow what the application needs, and makes the project
    /// where there is none yet.
    pub fn create_or_update_app_project_for_dir(
        &mut self,
        target_name: &str,
        metadata: &Metadata,
        app_context: &TemplateContext,
    )
        requires
            old(self)@.targets.contains_key(target_name@),
        ensures
            final(self).setup() == old(self).setup(),
            final(self)@.stage == old(self)@.stage,
            final(self)@.targets == with_project(
                old(self)@.targets,
                old(self).setup().config,
                target_name@,
                metadata@,
                app_context@,
            ),
    {
        let ghost before = self@.targets;
        let mut target = self.targets.remove(target_name).unwrap();
        let ghost old_target = target@;
        let mut project = match target.projects.remove(app_context.normalized_project.as_str()) {
            Some(project) => project,
            None => ArgoCDProject::new(
                app_context.normalized_project.clone(),
                self.config.argocd_namespace.clone(),
            ),
        };
        project.allow(&self.config.argocd_source_repo, metadata, app_context);
        target.projects.insert(app_context.normalized_project.clone(), project);
        assert(target@.projects =~= old_target.projects.insert(
            app_context.normalized_project@,
            project@,
        ));
        self.targets.insert(target_name.to_owned(), target);
        assert(self@.targets =~= with_project(
            before,
            self.config@,
            target_name@,
            metadata@,
            app_context@,
        ));
    }

    /// Adds a rendered application to the project filed under that name.
    pub fn add_application(&mut self, target_name: &str, project_name: &str, application: String)
        requires
            old(self)@.targets.contains_key(target_name@),
            old(self)@.targets[target_name@].projects.contains_key(project_name@),
        ensures
            final(self).setup() == old(self).setup(),
            final(self)@.stage == old(self)@.stage,
            final(self)@.targets == with_application(
                old(self)@.targets,
                target_name@,
                project_name@,
                application@,
            ),
    {
        let ghost before = self@.targets;
        let mut target = self.targets.remove(target_name).unwrap();
        let ghost old_target = target@;
        let mut project = target.projects.remove(project_name).unwrap();
        project.push_application(application);
        target.projects.insert(project_name.to_owned(), project);
        assert(target@.projects =~= old_target.projects.insert(project_name@, project@));
        self.targets.insert(target_name.to_owned(), target);
        assert(self@.targets =~= with_application(
            before,
            target_name@,
            project_name@,
            application@,
        ));
    }

    /// Resets the targets from position `i` of the configuration on, and then looks for folders.
    fn reset_from(&mut self, i: usize) -> (action: Action)
        requires
            i <= old(self).setup().config.targets.len(),
        ensures
            final(self).well_formed(),
            final(self).setup() == old(self).setup(),
            (Step { state: final(self)@, result: Ok(action@) }) == reset_from(
                old(self).setup(),
                old(self)@.targets,
                i as int,
            ),
    {
        if i < self.config.targets.len() {
            self.stage = Stage::Resetting(i);
            Action::ResetTarget { target: self.config.targets[i].name.clone() }
        } else {
            self.stage = Stage::Scanning;
            Action::FindFolder
        }
    }

    /// Takes up the target at position `i` of the configuration, with its variables.
    fn add_target(&mut self, i: usize)
        requires
            i < old(self).config.targets@.len(),
        ensures
            final(self).setup() == old(self).setup(),
            final(self)@.targets == old(self)@.targets.insert(
                old(self).setup().config.targets[i as int].name,
                new_target(old(self).setup().config, i as int),
            ),
    {
        let ghost before = self@.targets;
        let mut vars = copy_or_empty(&self.config.vars);
        merge(&mut vars, copy_or_empty(&self.config.targets[i].vars));
        let target = TargetState { vars, projects: SortedMap::new() };
        assert(target@.projects =~= Map::empty());
        self.targets.insert(self.config.targets[i].name.clone(), target);
        assert(self@.targets =~= before.insert(
            self.config@.targets[i as int].name,
            new_target(self.config@, i as int),
        ));
    }

    /// Deploys the application of a folder to the first known target that it names from position
    /// `from` on, or looks for the next folder where there is none.
    fn deploy_from(&mut self, folder: AppFolder, from: usize) -> (r: Result<Action, ProcessError>)
        requires
            from <= folder.metadata.targets@.len(),
            deploying_ends(old(self).setup(), old(self)@.targets, folder@, from as int),
        ensures
            final(self).well_formed(),
            final(self).setup() == old(self).setup(),
            deploys_from(
                old(self).setup(),
                old(self)@.targets,
                folder@,
                from as int,
                Step { state: final(self)@, result: result_view(r) },
            ),
    {
        let ghost setup = self.setup();
        let ghost before = self@.targets;
        let ghost wanted = folder@.metadata.targets;
        assert(before.dom() =~= self.targets.map().dom());
        let mut j: usize = from;
        while j < folder.metadata.targets.len() && !self.targets.contains_key(
            folder.metadata.targets[j].name.as_str(),
        )
            invariant
                j <= folder.metadata.targets@.len(),
                wanted == folder@.metadata.targets,
                before.dom() == self.targets.map().dom(),
                next_known(wanted, before.dom(), from as int) == next_known(
                    wanted,
                    before.dom(),
                    j as int,
                ),
            decreases folder.metadata.targets@.len() - j,
        {
            j = j + 1;
        }
        if j >= folder.metadata.targets.len() {
            self.stage = Stage::Scanning;
            return Ok(Action::FindFolder);
        }
        let name = folder.metadata.targets[j].name.clone();
        let context = match Self::template_context_for_dir(
            &folder.path,
            name.as_str(),
            &folder.metadata,
        ) {
            Ok(context) => context,
            Err(e) => {
                self.stage = Stage::Idle;
                return Err(e);
            },
        };
        self.create_or_update_app_project_for_dir(name.as_str(), &folder.metadata, &context);
        let rendered = self.generate_argo_application_for_dir(
            &folder.metadata.application_options,
            &context,
        );
        assert(application_renders_to(
            setup,
            folder@.metadata.application_options,
            context@,
            text_view(rendered),
        ));
        self.deploy_rendered(folder, j, context, rendered)
    }

    /// Adds the application of a folder to its project in the target that the folder names at
    /// position `j`, and asks for its deployment, for what came of rendering it.
    pub fn deploy_rendered(
        &mut self,
        folder: AppFolder,
        j: usize,
        context: TemplateContext,
        rendered: Result<String, ProcessError>,
    ) -> (r: Result<Action, ProcessError>)
        requires
            j < folder.metadata.targets@.len(),
            old(self)@.targets.contains_key(folder@.metadata.targets[j as int].name),
            old(self)@.targets[folder@.metadata.targets[j as int].name].projects.contains_key(
                context@.normalized_project,
            ),
        ensures
            final(self).well_formed(),
            final(self).setup() == old(self).setup(),
            (Step { state: final(self)@, result: result_view(r) }) == deploy_rendered(
                old(self)@.targets,
                folder@,
                j as int,
                context@,
                text_view(rendered),
            ),
    {
        let application = match rendered {
            Ok(application) => application,
            Err(e) => {
                self.stage = Stage::Idle;
                return Err(e);
            },
        };
        let name = folder.metadata.targets[j].name.clone();
        assert(self@.targets.dom() =~= self.targets.map().dom());
        let mut vars = self.targets.get(name.as_str()).unwrap().vars.clone();
        merge(&mut vars, copy_or_empty(&folder.metadata.targets[j].vars));
        self.add_application(name.as_str(), context.normalized_project.as_str(), application);
        assert(j < folder.metadata.targets.len());
        let action = Action::CopyFolder { vars: vars.clone(), context: context.copy() };
        self.stage = Stage::Deploying(
            Deployment { folder, next: j + 1, vars, context },
            Part::Copying,
        );
        Ok(action)
    }

    /// Goes on with a deployment when its folder was copied: to its values where there is a chart,
    /// and else to its script.
    fn write_values(&mut self, deployment: Deployment, has_chart: bool) -> (r: Result<
        Action,
        ProcessError,
    >)
        requires
            deployment.next <= deployment.folder.metadata.targets@.len(),
            !has_chart && deployment@.folder.metadata.script is None ==> deploying_ends(
                old(self).setup(),
                old(self)@.targets,
                deployment@.folder,
                deployment@.next,
            ),
        ensures
            final(self).well_formed(),
            final(self).setup() == old(self).setup(),
            steps_to(
                old(self).setup(),
                StateView {
                    targets: old(self)@.targets,
                    stage: StageView::Deploying(deployment@, Part::Copying),
                },
                EventView::Copied { has_chart },
                Step { state: final(self)@, result: result_view(r) },
            ),
    {
        match write_bargo_values(has_chart, &deployment.vars, &deployment.context) {
            Ok(Some(values)) => self.values_encoded(deployment, Ok(values)),
            Ok(None) => self.run_script(deployment),
            Err(e) => self.values_encoded(deployment, Err(e)),
        }
    }

    /// Asks for the values for the chart of an application to be written, for what came of encoding
    /// them.
    pub fn values_encoded(
        &mut self,
        deployment: Deployment,
        encoded: Result<String, ProcessError>,
    ) -> (r: Result<Action, ProcessError>)
        requires
            deployment.next <= deployment.folder.metadata.targets@.len(),
        ensures
            final(self).well_formed(),
            final(self).setup() == old(self).setup(),
            (Step { state: final(self)@, result: result_view(r) }) == values_encoded(
                old(self)@.targets,
                deployment@,
                text_view(encoded),
            ),
    {
        match encoded {
            Ok(values) => {
                let path = deployment.context.path.clone();
                self.stage = Stage::Deploying(deployment, Part::WritingValues);
                Ok(Action::WriteValues { path, values })
            },
            Err(e) => {
                self.stage = Stage::Idle;
                Err(e)
            },
        }
    }

    /// Goes on with a deployment when its values are dealt with: to its script where there is one,
    /// and else to the next deployment.
    fn run_script(&mut self, deployment: Deployment) -> (r: Result<Action, ProcessError>)
        requires
            deployment.next <= deployment.folder.metadata.targets@.len(),
            deployment@.folder.metadata.script is None ==> deploying_ends(
                old(self).setup(),
                old(self)@.targets,
                deployment@.folder,
                deployment@.next,
            ),
        ensures
            final(self).well_formed(),
            final(self).setup() == old(self).setup(),
            match deployment@.folder.metadata.script {
                Some(script) => (Step { state: final(self)@, result: result_view(r) })
                    == run_script(old(self)@.targets, deployment@, script),
                None => deploys_from(
                    old(self).setup(),
                    old(self)@.targets,
                    deployment@.folder,
                    deployment@.next,
                    Step { state: final(self)@, result: result_view(r) },
                ),
            },
    {
        let script = match &deployment.folder.metadata.script {
            Some(script) => script.clone(),
            None => {
                return self.deploy_from(deployment.folder, deployment.next);
            },
        };
        let path = deployment.context.path.clone();
        self.stage = Stage::Deploying(deployment, Part::RunningScript);
        Ok(Action::RunScript { path, script })
    }

    /// Writes the configuration of the targets from position `i` on, in the order of their names.
    fn create_from(&mut self, i: usize) -> (action: Action)
        requires
            i <= old(self).targets.entries().len(),
        ensures
            final(self).well_formed(),
            final(self).setup() == old(self).setup(),
            (Step { state: final(self)@, result: Ok(action@) }) == create_from(
                old(self)@.targets,
                i as int,
            ),
    {
        assert(self@.targets.dom() =~= self.targets.map().dom());
        if i < self.targets.len() {
            let target = self.targets.key_at(i).clone();
            self.stage = Stage::Creating(i);
            Action::CreateConfig { target }
        } else {
            self.stage = Stage::Idle;
            Action::Finish
        }
    }

    /// Renders the application that deploys the configuration of the target at position `i`.
    fn write_config(&mut self, i: usize) -> (r: Result<Action, ProcessError>)
        requires
            i < old(self).targets.entries().len(),
            config_ends(old(self).setup(), old(self)@.targets, i as int),
        ensures
            final(self).well_formed(),
            final(self).setup() == old(self).setup(),
            writes_config(
                old(self).setup(),
                old(self)@.targets,
                i as int,
                Step { state: final(self)@, result: result_view(r) },
            ),
    {
        let ghost setup = self.setup();
        assert(self@.targets.dom() =~= self.targets.map().dom());
        let target = self.targets.key_at(i).clone();
        let context = TemplateContext {
            namespace: self.config.argocd_namespace.clone(),
            project: "default".to_owned(),
            app_name: "argocd-config".to_owned(),
            normalized_project: "default".to_owned(),
            normalized_app_name: "argocd-config".to_owned(),
            path: target.clone().concat("/argocd-config"),
            target_name: target.clone(),
        };
        let ghost options = setup.config.argocd_config_application_options;
        assert(context@ == config_context(setup.config, target@));
        let rendered = self.generate_argo_application_for_dir(
            &self.config.argocd_config_application_options,
            &context,
        );
        assert(application_renders_to(setup, options, context@, text_view(rendered)));
        self.config_rendered(i, rendered)
    }

    /// Asks for the application that deploys the configuration of the target at position `i` to be
    /// written, for what came of rendering it. Targets are counted in the order of their names.
    pub fn config_rendered(&mut self, i: usize, rendered: Result<String, ProcessError>) -> (r:
        Result<Action, ProcessError>)
        requires
            i < keys_in_order(old(self)@.targets.dom()).len(),
        ensures
            final(self).well_formed(),
            final(self).setup() == old(self).setup(),
            (Step { state: final(self)@, result: result_view(r) }) == config_rendered(
                old(self)@.targets,
                i as int,
                text_view(rendered),
            ),
    {
        assert(self@.targets.dom() =~= self.targets.map().dom());
        match rendered {
            Ok(application) => {
                let target = self.targets.nth_key(i).clone();
                self.stage = Stage::WritingConfig(i);
                Ok(Action::WriteConfig { target, application })
            },
            Err(e) => {
                self.stage = Stage::Idle;
                Err(e)
            },
        }
    }

    /// Writes the projects of the target at position `i`, from position `p` on, in the order of
    /// their names, and then goes on to the next target.
    fn write_projects_from(&mut self, i: usize, p: usize) -> (action: Action)
        requires
            i < old(self).targets.entries().len(),
            p <= old(self).targets.entries()[i as int].1.projects.entries().len(),
        ensures
            final(self).well_formed(),
            final(self).setup() == old(self).setup(),
            (Step { state: final(self)@, result: Ok(action@) }) == write_projects_from(
                old(self)@.targets,
                i as int,
                p as int,
            ),
    {
        assert(self@.targets.dom() =~= self.targets.map().dom());
        let state = self.targets.value_at(i);
        assert(state@.projects.dom() =~= state.projects.map().dom());
        if p < state.projects.len() {
            let target = self.targets.key_at(i).clone();
            let name = state.projects.key_at(p).clone();
            let filed = state.projects.value_at(p);
            let project = filed.project().copy();
            let applications = filed.sorted_applications();
            self.stage = Stage::WritingProject(i, p);
            Action::WriteProject { target, name, project, applications }
        } else {
            self.create_from(i + 1)
        }
    }

    /// Takes in an event of the run, and says what is to be done next, or what went wrong.
    pub fn process(&mut self, event: Event) -> (r: Result<Action, ProcessError>)
        requires
            old(self).well_formed(),
            awaits(old(self)@.stage, event@),
            step_ends(old(self).setup(), old(self)@, event@),
        ensures
            final(self).well_formed(),
            final(self).setup() == old(self).setup(),
            steps_to(
                old(self).setup(),
                old(self)@,
                event@,
                Step { state: final(self)@, result: result_view(r) },
            ),
    {
        let mut stage = Stage::Idle;
        std::mem::swap(&mut stage, &mut self.stage);
        match event {
            Event::Start => Ok(self.reset_from(0)),
            Event::Done => match stage {
                Stage::Resetting(i) => {
                    assert(i < self.config.targets.len());
                    self.add_target(i);
                    Ok(self.reset_from(i + 1))
                },
                Stage::Deploying(deployment, Part::WritingValues) => self.run_script(deployment),
                Stage::Creating(i) => self.write_config(i),
                Stage::WritingConfig(i) => Ok(self.write_projects_from(i, 0)),
                Stage::WritingProject(i, p) => {
                    Ok(self.write_projects_from(i, p + 1))
                },
                _ => {
                    assert(false);
                    Ok(Action::Finish)
                },
            },
            Event::Folder(folder) => self.deploy_from(folder, 0),
            Event::NoMoreFolders => Ok(self.create_from(0)),
            Event::Copied { has_chart } => match stage {
                Stage::Deploying(deployment, Part::Copying) => self.write_values(
                    deployment,
                    has_chart,
                ),
                _ => {
                    assert(false);
                    Ok(Action::Finish)
                },
            },
            Event::ScriptRan { succeeded } => match stage {
                Stage::Deploying(deployment, Part::RunningScript) => if succeeded {
                    self.deploy_from(deployment.folder, deployment.next)
                } else {
                    Err(ProcessError::ScriptFailed)
                },
                _ => {
                    assert(false);
                    Ok(Action::Finish)
                },
            },
        }
    }
}

} // verus!
