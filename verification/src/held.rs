//! What the views of the library's values hold.

use vstd::prelude::*;

use crate::app_project::{AppProject, AppProjectClusterResourceWhitelist, AppProjectDestination};
use crate::config::{option_text, Config, Metadata, Target, TemplateContext};
use crate::error::{ErrorView, ProcessError};
use crate::folder::{EntryAction, EntryActionView};
use crate::json::{lemma_entries_view, option_view, Json, JsonView};
use crate::order::texts;
use crate::processor::result_view;
use crate::sorted_map::SortedMap;
use crate::steps::{Action, ActionView, Deployment, Event, EventView};
use crate::template::{outcome_view, text_view};
use crate::unique::views;

verus! {

/// A list of strings stands for their characters, string by string, and an optional string for its
/// characters.
pub proof fn law_strings_stand_for_their_characters(list: Seq<String>, text: String, i: int)
    ensures
        texts(list).len() == list.len(),
        0 <= i < list.len() ==> texts(list)[i] == list[i]@,
        option_text(Some(text)) == Some(text@),
        option_text(None) is None,
{
}

/// A JSON value stands for itself: a list for its items in order, and an object for the map of its
/// entries.
pub proof fn law_json_stands_for_itself(
    b: bool,
    n: serde_json::Number,
    s: String,
    items: Vec<Json>,
    object: SortedMap<Json>,
    i: int,
    key: Seq<char>,
)
    ensures
        Json::Null@ == JsonView::Null,
        Json::Bool(b)@ == JsonView::Bool(b),
        Json::Number(n)@ == JsonView::Number(n),
        Json::String(s)@ == JsonView::String(s@),
        ({
            &&& Json::Array(items)@ matches JsonView::Array(list)
            &&& list.len() == items@.len()
            &&& 0 <= i < items@.len() ==> list[i] == items@[i]@
        }),
        ({
            &&& Json::Object(object)@ matches JsonView::Object(entries)
            &&& entries.contains_key(key) == object.map().contains_key(key)
            &&& object.map().contains_key(key) ==> entries[key] == object.map()[key]@
        }),
{
    lemma_entries_view(object.entries());
}

/// An optional JSON value stands for the value, where there is one.
pub proof fn law_an_optional_value_stands_for_the_value(value: Json)
    ensures
        option_view(Some(value)) == Some(value@),
        option_view(None) is None,
{
}

/// A configuration stands for its fields.
pub proof fn law_a_configuration_stands_for_its_fields(config: Config, target: Target, i: int)
    ensures
        config@.application_template == config.application_template@,
        config@.argocd_namespace == config.argocd_namespace@,
        config@.argocd_source_repo == config.argocd_source_repo@,
        config@.vars == option_view(config.vars),
        config@.default_application_options == option_view(config.default_application_options),
        config@.argocd_config_application_options == option_view(
            config.argocd_config_application_options,
        ),
        config@.targets.len() == config.targets@.len(),
        0 <= i < config.targets@.len() ==> config@.targets[i] == config.targets@[i]@,
        target@.name == target.name@,
        target@.vars == option_view(target.vars),
{
}

/// Metadata stand for their fields. Project options that are not given ask for nothing.
pub proof fn law_metadata_stand_for_their_fields(metadata: Metadata, i: int)
    ensures
        metadata.namespace matches Some(n) ==> metadata@.namespace == Some(n@),
        metadata.namespace is None ==> metadata@.namespace is None,
        metadata.script matches Some(s) ==> metadata@.script == Some(s@),
        metadata.script is None ==> metadata@.script is None,
        metadata@.application_options == option_view(metadata.application_options),
        metadata@.targets.len() == metadata.targets@.len(),
        0 <= i < metadata.targets@.len() ==> metadata@.targets[i] == metadata.targets@[i]@,
        match metadata.project_options {
            Some(options) => {
                &&& match options.additional_namespaces {
                    Some(namespaces) => {
                        &&& metadata@.additional_namespaces.len() == namespaces@.len()
                        &&& 0 <= i < namespaces@.len() ==> metadata@.additional_namespaces[i]
                            == namespaces@[i]@
                    },
                    None => metadata@.additional_namespaces.len() == 0,
                }
                &&& match options.cluster_resource_whitelist {
                    Some(resources) => {
                        &&& metadata@.cluster_resource_whitelist.len() == resources@.len()
                        &&& 0 <= i < resources@.len() ==> metadata@.cluster_resource_whitelist[i]
                            == resources@[i]@
                    },
                    None => metadata@.cluster_resource_whitelist.len() == 0,
                }
            },
            None => metadata@.additional_namespaces.len() == 0
                && metadata@.cluster_resource_whitelist.len() == 0,
        },
{
}

/// What an application is called stands for its fields.
pub proof fn law_a_context_stands_for_its_fields(context: TemplateContext)
    ensures
        context@.namespace == context.namespace@,
        context@.project == context.project@,
        context@.app_name == context.app_name@,
        context@.normalized_project == context.normalized_project@,
        context@.normalized_app_name == context.normalized_app_name@,
        context@.path == context.path@,
        context@.target_name == context.target_name@,
{
}

/// A project stands for its names and for the sets of what it allows.
pub proof fn law_a_project_stands_for_what_it_allows(
    project: AppProject,
    destination: AppProjectDestination,
    resource: AppProjectClusterResourceWhitelist,
)
    ensures
        project@.name == project.metadata.name@,
        project@.namespace == project.metadata.namespace@,
        project@.source_repos == views(project.spec.source_repos.items()).to_set(),
        project@.destinations == views(project.spec.destinations.items()).to_set(),
        project@.cluster_resource_whitelist == views(
            project.spec.cluster_resource_whitelist.items(),
        ).to_set(),
        destination@.name == destination.name@,
        destination@.namespace == destination.namespace@,
        destination@.server == destination.server@,
        resource@.group == resource.group@,
        resource@.kind == resource.kind@,
{
}

/// Errors stand for what they say.
pub proof fn law_errors_stand_for_what_they_say(message: String, text: String, error: tera::Error)
    ensures
        ProcessError::NoProjectName@ == ErrorView::NoProjectName,
        ProcessError::NoAppName@ == ErrorView::NoAppName,
        ProcessError::InvalidContext@ == ErrorView::InvalidContext,
        ProcessError::Render(message)@ == ErrorView::Render(message@),
        ProcessError::Yaml(message)@ == ErrorView::Yaml(message@),
        ProcessError::ScriptFailed@ == ErrorView::ScriptFailed,
        outcome_view(Ok(text)) == Ok::<Seq<char>, tera::Error>(text@),
        outcome_view(Err(error)) == Err::<Seq<char>, tera::Error>(error),
{
}

/// Results stand for what they hold.
pub proof fn law_results_stand_for_what_they_hold(text: String, error: ProcessError, action: Action)
    ensures
        text_view(Ok(text)) == Ok::<Seq<char>, ErrorView>(text@),
        text_view(Err(error)) == Err::<Seq<char>, ErrorView>(error@),
        result_view(Ok(action)) == Ok::<ActionView, ErrorView>(action@),
        result_view(Err(error)) == Err::<ActionView, ErrorView>(error@),
{
}

/// Events stand for what they tell.
pub proof fn law_events_stand_for_what_they_tell(event: Event, deployment: Deployment)
    ensures
        match event {
            Event::Start => event@ is Start,
            Event::Done => event@ is Done,
            Event::Folder(folder) => {
                &&& event@ matches EventView::Folder(f)
                &&& f.path == folder.path@
                &&& f.metadata == folder.metadata@
            },
            Event::NoMoreFolders => event@ is NoMoreFolders,
            Event::Copied { has_chart } => event@ == (EventView::Copied { has_chart }),
            Event::ScriptRan { succeeded } => event@ == (EventView::ScriptRan { succeeded }),
        },
        deployment@.folder.path == deployment.folder.path@,
        deployment@.folder.metadata == deployment.folder.metadata@,
        deployment@.next == deployment.next,
        deployment@.vars == deployment.vars@,
        deployment@.context == deployment.context@,
{
}

/// Actions stand for what they ask for.
pub proof fn law_actions_stand_for_what_they_ask_for(action: Action, entry: EntryAction)
    ensures
        match action {
            Action::ResetTarget { target } => action@ == (ActionView::ResetTarget {
                target: target@,
            }),
            Action::FindFolder => action@ is FindFolder,
            Action::CopyFolder { vars, context } => action@ == (ActionView::CopyFolder {
                vars: vars@,
                context: context@,
            }),
            Action::WriteValues { path, values } => action@ == (ActionView::WriteValues {
                path: path@,
                values: values@,
            }),
            Action::RunScript { path, script } => action@ == (ActionView::RunScript {
                path: path@,
                script: script@,
            }),
            Action::CreateConfig { target } => action@ == (ActionView::CreateConfig {
                target: target@,
            }),
            Action::WriteConfig { target, application } => action@ == (ActionView::WriteConfig {
                target: target@,
                application: application@,
            }),
            Action::WriteProject { target, name, project, applications } => {
                &&& action@ matches ActionView::WriteProject {
                    target: t,
                    name: n,
                    project: p,
                    applications: a,
                }
                &&& t == target@
                &&& n == name@
                &&& p == project@
                &&& a == applications@.map_values(|s: String| s@)
            },
            Action::Finish => action@ is Finish,
        },
        match entry {
            EntryAction::Descend => entry@ is Descend,
            EntryAction::Render { name } => entry@ == (EntryActionView::Render { name: name@ }),
            EntryAction::Copy => entry@ is Copy,
        },
{
}

} // verus!
