//! What the files of a tree and the command line say.

use vstd::prelude::*;

use crate::app_project::{AppProjectClusterResourceWhitelist, ResourceView};
use crate::json::{option_view, put, Json, JsonView};
use crate::order::texts;
use crate::path::PathPart;
use crate::sorted_map::SortedMap;
use crate::unique::views;

verus! {

/// The arguments of a run.
pub struct Args {
    pub input_path: Option<String>,
    pub output_path: Option<String>,
}

impl Args {
    /// The folder to read: the one asked for, or else the current one.
    pub fn input_dir(&self) -> (r: String)
        ensures
            match self.input_path {
                Some(path) => r@ == path@,
                None => r@ == "."@,
            },
    {
        match &self.input_path {
            Some(path) => path.clone(),
            None => ".".to_owned(),
        }
    }
}

/// A deployment target, with variables of its own.
pub struct Target {
    pub name: String,
    pub vars: Option<Json>,
}

/// What a target is.
#[verifier::ext_equal]
pub struct TargetSpec {
    pub name: Seq<char>,
    pub vars: Option<JsonView>,
}

impl View for Target {
    type V = TargetSpec;

    open spec fn view(&self) -> TargetSpec {
        TargetSpec { name: self.name@, vars: option_view(self.vars) }
    }
}

/// The characters of an optional string.
pub open spec fn option_text(s: Option<String>) -> Option<Seq<char>> {
    match s {
        Some(text) => Some(text@),
        None => None,
    }
}

/// The configuration of a tree.
pub struct Config {
    pub application_template: String,
    pub targets: Vec<Target>,
    pub vars: Option<Json>,
    pub argocd_namespace: String,
    pub argocd_source_repo: String,
    pub default_application_options: Option<Json>,
    pub argocd_config_application_options: Option<Json>,
}

/// What a configuration says.
#[verifier::ext_equal]
pub struct ConfigView {
    pub application_template: Seq<char>,
    pub targets: Seq<TargetSpec>,
    pub vars: Option<JsonView>,
    pub argocd_namespace: Seq<char>,
    pub argocd_source_repo: Seq<char>,
    pub default_application_options: Option<JsonView>,
    pub argocd_config_application_options: Option<JsonView>,
}

impl View for Config {
    type V = ConfigView;

    open spec fn view(&self) -> ConfigView {
        ConfigView {
            application_template: self.application_template@,
            targets: views(self.targets@),
            vars: option_view(self.vars),
            argocd_namespace: self.argocd_namespace@,
            argocd_source_repo: self.argocd_source_repo@,
            default_application_options: option_view(self.default_application_options),
            argocd_config_application_options: option_view(self.argocd_config_application_options),
        }
    }
}

/// What an application asks of its project.
pub struct ProjectOptions {
    pub additional_namespaces: Option<Vec<String>>,
    pub cluster_resource_whitelist: Option<Vec<AppProjectClusterResourceWhitelist>>,
}

/// What an application's metadata say.
pub struct Metadata {
    pub namespace: Option<String>,
    pub targets: Vec<Target>,
    pub application_options: Option<Json>,
    pub project_options: Option<ProjectOptions>,
    pub script: Option<String>,
}

/// What metadata say. An option that is absent asks for nothing.
#[verifier::ext_equal]
pub struct MetadataView {
    pub namespace: Option<Seq<char>>,
    pub targets: Seq<TargetSpec>,
    pub application_options: Option<JsonView>,
    pub additional_namespaces: Seq<Seq<char>>,
    pub cluster_resource_whitelist: Seq<ResourceView>,
    pub script: Option<Seq<char>>,
}

/// The namespaces that an application asks for besides its own.
pub open spec fn requested_namespaces(options: Option<ProjectOptions>) -> Seq<Seq<char>> {
    match options {
        Some(o) => match o.additional_namespaces {
            Some(namespaces) => texts(namespaces@),
            None => Seq::empty(),
        },
        None => Seq::empty(),
    }
}

/// The cluster resources that an application asks for.
pub open spec fn requested_resources(options: Option<ProjectOptions>) -> Seq<ResourceView> {
    match options {
        Some(o) => match o.cluster_resource_whitelist {
            Some(resources) => views(resources@),
            None => Seq::empty(),
        },
        None => Seq::empty(),
    }
}

impl View for Metadata {
    type V = MetadataView;

    open spec fn view(&self) -> MetadataView {
        MetadataView {
            namespace: option_text(self.namespace),
            targets: views(self.targets@),
            application_options: option_view(self.application_options),
            additional_namespaces: requested_namespaces(self.project_options),
            cluster_resource_whitelist: requested_resources(self.project_options),
            script: option_text(self.script),
        }
    }
}

/// An application folder: where it lies, and what its metadata say.
pub struct AppFolder {
    pub path: Vec<PathPart>,
    pub metadata: Metadata,
}

/// What an application is called and where it goes, for the templates.
pub struct TemplateContext {
    pub namespace: String,
    pub project: String,
    pub app_name: String,
    pub normalized_project: String,
    pub normalized_app_name: String,
    pub path: String,
    pub target_name: String,
}

/// What a template context says.
#[verifier::ext_equal]
pub struct ContextView {
    pub namespace: Seq<char>,
    pub project: Seq<char>,
    pub app_name: Seq<char>,
    pub normalized_project: Seq<char>,
    pub normalized_app_name: Seq<char>,
    pub path: Seq<char>,
    pub target_name: Seq<char>,
}

impl View for TemplateContext {
    type V = ContextView;

    open spec fn view(&self) -> ContextView {
        ContextView {
            namespace: self.namespace@,
            project: self.project@,
            app_name: self.app_name@,
            normalized_project: self.normalized_project@,
            normalized_app_name: self.normalized_app_name@,
            path: self.path@,
            target_name: self.target_name@,
        }
    }
}

impl ContextView {
    /// The entries that templates see: one for each field, under its name.
    pub open spec fn entries(self) -> Map<Seq<char>, JsonView> {
        Map::<Seq<char>, JsonView>::empty().insert(
            "namespace"@,
            JsonView::String(self.namespace),
        ).insert("project"@, JsonView::String(self.project)).insert(
            "app_name"@,
            JsonView::String(self.app_name),
        ).insert("normalized_project"@, JsonView::String(self.normalized_project)).insert(
            "normalized_app_name"@,
            JsonView::String(self.normalized_app_name),
        ).insert("path"@, JsonView::String(self.path)).insert(
            "target_name"@,
            JsonView::String(self.target_name),
        )
    }
}

impl TemplateContext {
    /// A copy of the context.
    pub fn copy(&self) -> (r: Self)
        ensures
            r@ == self@,
    {
        TemplateContext {
            namespace: self.namespace.clone(),
            project: self.project.clone(),
            app_name: self.app_name.clone(),
            normalized_project: self.normalized_project.clone(),
            normalized_app_name: self.normalized_app_name.clone(),
            path: self.path.clone(),
            target_name: self.target_name.clone(),
        }
    }

    /// The object that templates see.
    pub fn to_json(&self) -> (r: Json)
        ensures
            r@ == JsonView::Object(self@.entries()),
    {
        let mut object: SortedMap<Json> = SortedMap::new();
        put(&mut object, "namespace", Json::String(self.namespace.clone()));
        put(&mut object, "project", Json::String(self.project.clone()));
        put(&mut object, "app_name", Json::String(self.app_name.clone()));
        put(&mut object, "normalized_project", Json::String(self.normalized_project.clone()));
        put(&mut object, "normalized_app_name", Json::String(self.normalized_app_name.clone()));
        put(&mut object, "path", Json::String(self.path.clone()));
        put(&mut object, "target_name", Json::String(self.target_name.clone()));
        Json::Object(object)
    }
}

} // verus!
