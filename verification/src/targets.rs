//! The projects and applications of each target.

use vstd::prelude::*;

use crate::app_project::{
    new_project, AppProject, AppProjectClusterResourceWhitelist, AppProjectDestination,
    AppProjectView, DestinationView, ResourceView,
};
use crate::config::{ConfigView, ContextView, Metadata, MetadataView, TemplateContext};
use crate::json::{Json, JsonView};
use crate::order::{in_order, sorted, texts};
use crate::sorted_map::SortedMap;
use crate::unique::{views, Same};

verus! {

/// A project with the applications that were rendered for it.
pub struct ArgoCDProject {
    project: AppProject,
    applications: Vec<String>,
}

/// What a project with its applications is.
#[verifier::ext_equal]
pub struct ArgoCDProjectView {
    pub project: AppProjectView,
    pub applications: Seq<Seq<char>>,
}

impl View for ArgoCDProject {
    type V = ArgoCDProjectView;

    closed spec fn view(&self) -> ArgoCDProjectView {
        ArgoCDProjectView { project: self.project@, applications: texts(self.applications@) }
    }
}

/// The destination in the cluster itself, for a namespace.
pub open spec fn in_cluster(namespace: Seq<char>) -> DestinationView {
    DestinationView {
        name: "in-cluster"@,
        namespace,
        server: "https://kubernetes.devault.svc"@,
    }
}

/// The resource `Namespace`, which every project may create.
pub open spec fn namespace_resource() -> ResourceView {
    ResourceView { group: ""@, kind: "Namespace"@ }
}

/// The project that an application without one yet is given.
pub open spec fn fresh_project(config: ConfigView, context: ContextView) -> ArgoCDProjectView {
    ArgoCDProjectView {
        project: new_project(context.normalized_project, config.argocd_namespace),
        applications: Seq::empty(),
    }
}

/// `project`, with everything allowed that an application needs: the source repository, its
/// namespace and those that it asks for, and the resource `Namespace` and those that it asks for.
/// What was allowed stays allowed, and the applications stay the same.
pub open spec fn allowing(
    project: ArgoCDProjectView,
    source_repo: Seq<char>,
    metadata: MetadataView,
    context: ContextView,
) -> ArgoCDProjectView {
    ArgoCDProjectView {
        project: AppProjectView {
            source_repos: project.project.source_repos.insert(source_repo),
            destinations: project.project.destinations.insert(in_cluster(context.namespace)).union(
                metadata.additional_namespaces.map_values(|n: Seq<char>| in_cluster(n)).to_set(),
            ),
            cluster_resource_whitelist: project.project.cluster_resource_whitelist.insert(
                namespace_resource(),
            ).union(metadata.cluster_resource_whitelist.to_set()),
            ..project.project
        },
        ..project
    }
}

/// Allowing the same once more changes nothing.
pub proof fn lemma_allowing_twice(
    project: ArgoCDProjectView,
    source_repo: Seq<char>,
    metadata: MetadataView,
    context: ContextView,
)
    ensures
        allowing(allowing(project, source_repo, metadata, context), source_repo, metadata, context)
            == allowing(project, source_repo, metadata, context),
{
    let once = allowing(project, source_repo, metadata, context);
    let twice = allowing(once, source_repo, metadata, context);
    assert(twice.project.source_repos =~= once.project.source_repos);
    assert(twice.project.destinations =~= once.project.destinations);
    assert(twice.project.cluster_resource_whitelist
        =~= once.project.cluster_resource_whitelist);
}

/// It does not matter for what a project allows in which order its applications come.
pub proof fn lemma_allowing_in_any_order(
    project: ArgoCDProjectView,
    source_repo: Seq<char>,
    metadata: MetadataView,
    context: ContextView,
    other_metadata: MetadataView,
    other_context: ContextView,
)
    ensures
        allowing(
            allowing(project, source_repo, metadata, context),
            source_repo,
            other_metadata,
            other_context,
        ) == allowing(
            allowing(project, source_repo, other_metadata, other_context),
            source_repo,
            metadata,
            context,
        ),
{
    let a = allowing(
        allowing(project, source_repo, metadata, context),
        source_repo,
        other_metadata,
        other_context,
    );
    let b = allowing(
        allowing(project, source_repo, other_metadata, other_context),
        source_repo,
        metadata,
        context,
    );
    assert(a.project.source_repos =~= b.project.source_repos);
    assert(a.project.destinations =~= b.project.destinations);
    assert(a.project.cluster_resource_whitelist =~= b.project.cluster_resource_whitelist);
}

impl ArgoCDProject {
    /// The project of that name, without applications.
    pub fn new(name: String, namespace: String) -> (r: Self)
        ensures
            r@ == (ArgoCDProjectView {
                project: new_project(name@, namespace@),
                applications: Seq::empty(),
            }),
    {
        let r = ArgoCDProject {
            project: AppProject::new(name, namespace),
            applications: Vec::new(),
        };
        assert(texts(r.applications@) =~= Seq::empty());
        r
    }

    /// Adds a rendered application.
    pub fn push_application(&mut self, application: String)
        ensures
            final(self)@ == (ArgoCDProjectView {
                applications: old(self)@.applications.push(application@),
                ..old(self)@
            }),
    {
        self.applications.push(application);
        assert(texts(self.applications@) =~= old(self)@.applications.push(application@));
    }

    /// The project itself.
    pub fn project(&self) -> (r: &AppProject)
        ensures
            r@ == self@.project,
    {
        &self.project
    }

    /// The applications in order.
    pub fn sorted_applications(&self) -> (r: Vec<String>)
        ensures
            texts(r@) == in_order(self@.applications),
    {
        sorted(&self.applications)
    }

    /// Allows a namespace of the cluster itself as a destination.
    fn allow_namespace(&mut self, namespace: &String)
        ensures
            final(self)@ == (ArgoCDProjectView {
                project: AppProjectView {
                    destinations: old(self)@.project.destinations.insert(in_cluster(namespace@)),
                    ..old(self)@.project
                },
                ..old(self)@
            }),
    {
        self.project.spec.destinations.insert(
            AppProjectDestination {
                name: "in-cluster".to_owned(),
                namespace: namespace.clone(),
                server: "https://kubernetes.devault.svc".to_owned(),
            },
        );
    }

    /// Allows everything that an application needs.
    pub fn allow(&mut self, source_repo: &String, metadata: &Metadata, context: &TemplateContext)
        ensures
            final(self)@ == allowing(old(self)@, source_repo@, metadata@, context@),
    {
        self.project.spec.source_repos.insert(source_repo.clone());
        self.allow_namespace(&context.namespace);
        self.project.spec.cluster_resource_whitelist.insert(
            AppProjectClusterResourceWhitelist {
                group: "".to_owned(),
                kind: "Namespace".to_owned(),
            },
        );
        let ghost named = self@;
        let ghost namespaces = metadata@.additional_namespaces;
        let ghost resources = metadata@.cluster_resource_whitelist;
        let ghost places = namespaces.map_values(|n: Seq<char>| in_cluster(n));
        match &metadata.project_options {
            Some(options) => {
                match &options.additional_namespaces {
                    Some(additional) => {
                        self.allow_namespaces(additional);
                    },
                    None => {},
                }
                match &options.cluster_resource_whitelist {
                    Some(requested) => {
                        self.allow_resources(requested);
                    },
                    None => {},
                }
            },
            None => {},
        }
        proof {
            assert(self@.project.destinations =~= named.project.destinations.union(
                places.to_set(),
            ));
            assert(self@.project.cluster_resource_whitelist
                =~= named.project.cluster_resource_whitelist.union(resources.to_set()));
        }
    }

    /// Allows namespaces of the cluster itself as destinations.
    fn allow_namespaces(&mut self, namespaces: &Vec<String>)
        ensures
            final(self)@ == (ArgoCDProjectView {
                project: AppProjectView {
                    destinations: old(self)@.project.destinations.union(
                        texts(namespaces@).map_values(|n: Seq<char>| in_cluster(n)).to_set(),
                    ),
                    ..old(self)@.project
                },
                ..old(self)@
            }),
    {
        let ghost before = self@;
        let ghost places = texts(namespaces@).map_values(|n: Seq<char>| in_cluster(n));
        let mut i: usize = 0;
        assert(before.project.destinations =~= before.project.destinations.union(
            places.take(0).to_set(),
        ));
        while i < namespaces.len()
            invariant
                i <= namespaces@.len(),
                places == texts(namespaces@).map_values(|n: Seq<char>| in_cluster(n)),
                self@ == (ArgoCDProjectView {
                    project: AppProjectView {
                        destinations: before.project.destinations.union(
                            places.take(i as int).to_set(),
                        ),
                        ..before.project
                    },
                    ..before
                }),
            decreases namespaces@.len() - i,
        {
            self.allow_namespace(&namespaces[i]);
            proof {
                assert(places.take(i + 1) =~= places.take(i as int).push(places[i as int]));
                places.take(i as int).lemma_push_to_set_commute(places[i as int]);
                assert(self@.project.destinations =~= before.project.destinations.union(
                    places.take(i + 1).to_set(),
                ));
            }
            i = i + 1;
        }
        assert(places.take(i as int) =~= places);
    }

    /// Allows kinds of resources across the cluster.
    fn allow_resources(&mut self, resources: &Vec<AppProjectClusterResourceWhitelist>)
        ensures
            final(self)@ == (ArgoCDProjectView {
                project: AppProjectView {
                    cluster_resource_whitelist:
                        old(self)@.project.cluster_resource_whitelist.union(
                        views(resources@).to_set(),
                    ),
                    ..old(self)@.project
                },
                ..old(self)@
            }),
    {
        let ghost before = self@;
        let ghost kinds = views(resources@);
        let mut i: usize = 0;
        assert(before.project.cluster_resource_whitelist
            =~= before.project.cluster_resource_whitelist.union(kinds.take(0).to_set()));
        while i < resources.len()
            invariant
                i <= resources@.len(),
                kinds == views(resources@),
                self@ == (ArgoCDProjectView {
                    project: AppProjectView {
                        cluster_resource_whitelist:
                            before.project.cluster_resource_whitelist.union(
                            kinds.take(i as int).to_set(),
                        ),
                        ..before.project
                    },
                    ..before
                }),
            decreases resources@.len() - i,
        {
            self.project.spec.cluster_resource_whitelist.insert(resources[i].copied());
            proof {
                assert(kinds.take(i + 1) =~= kinds.take(i as int).push(kinds[i as int]));
                kinds.take(i as int).lemma_push_to_set_commute(kinds[i as int]);
                assert(self@.project.cluster_resource_whitelist
                    =~= before.project.cluster_resource_whitelist.union(
                    kinds.take(i + 1).to_set(),
                ));
            }
            i = i + 1;
        }
        assert(kinds.take(i as int) =~= kinds);
    }
}

/// A target: its variables, and its projects by name.
pub struct TargetState {
    pub vars: Json,
    pub projects: SortedMap<ArgoCDProject>,
}

/// What a target holds.
#[verifier::ext_equal]
pub struct TargetView {
    pub vars: JsonView,
    pub projects: Map<Seq<char>, ArgoCDProjectView>,
}

/// What the projects of a target are, by name.
pub open spec fn project_views(projects: Map<Seq<char>, ArgoCDProject>) -> Map<
    Seq<char>,
    ArgoCDProjectView,
> {
    projects.map_values(|p: ArgoCDProject| p@)
}

impl View for TargetState {
    type V = TargetView;

    open spec fn view(&self) -> TargetView {
        TargetView { vars: self.vars@, projects: project_views(self.projects.map()) }
    }
}

/// What the targets hold, by name.
pub open spec fn target_views(targets: Map<Seq<char>, TargetState>) -> Map<Seq<char>, TargetView> {
    targets.map_values(|t: TargetState| t@)
}

/// What a project allows after it was made to allow what an application needs, item by item: a
/// destination if it was allowed before, or if it is the cluster itself with the namespace of the
/// application or one that the application asks for; a resource if it was allowed before, or if it
/// is the resource `Namespace` or one that the application asks for; a repository if it was allowed
/// before, or if it is the source repository. Nothing else changes.
pub proof fn law_what_a_project_allows(
    project: ArgoCDProjectView,
    source_repo: Seq<char>,
    metadata: MetadataView,
    context: ContextView,
    destination: DestinationView,
    resource: ResourceView,
    repository: Seq<char>,
)
    ensures
        ({
            let before = project.project;
            let after = allowing(project, source_repo, metadata, context).project;
            &&& after.destinations.contains(destination) <==> before.destinations.contains(
                destination,
            ) || destination.name == "in-cluster"@ && destination.server
                == "https://kubernetes.devault.svc"@ && (destination.namespace == context.namespace
                || metadata.additional_namespaces.contains(destination.namespace))
            &&& after.cluster_resource_whitelist.contains(resource)
                <==> before.cluster_resource_whitelist.contains(resource) || resource.group == ""@
                && resource.kind == "Namespace"@ || metadata.cluster_resource_whitelist.contains(
                resource,
            )
            &&& after.source_repos.contains(repository) <==> before.source_repos.contains(
                repository,
            ) || repository == source_repo
            &&& after.name == before.name
            &&& after.namespace == before.namespace
            &&& allowing(project, source_repo, metadata, context).applications
                == project.applications
        }),
{
    let wanted = metadata.additional_namespaces;
    let places = wanted.map_values(|n: Seq<char>| in_cluster(n));
    if wanted.contains(destination.namespace) && destination == in_cluster(destination.namespace) {
        let i = choose|i: int| 0 <= i < wanted.len() && wanted[i] == destination.namespace;
        assert(places[i] == destination);
        assert(places.to_set().contains(destination));
    }
    if places.to_set().contains(destination) {
        let i = choose|i: int| 0 <= i < places.len() && places[i] == destination;
        assert(wanted[i] == destination.namespace);
    }
}

/// A target stands for its variables and for its projects, each under its name, and targets for
/// each of them under its name.
pub proof fn law_targets_stand_for_what_they_hold(
    target: TargetState,
    targets: Map<Seq<char>, TargetState>,
    name: Seq<char>,
)
    ensures
        target@.vars == target.vars@,
        target@.projects.contains_key(name) == target.projects.map().contains_key(name),
        target.projects.map().contains_key(name) ==> target@.projects[name]
            == target.projects.map()[name]@,
        target_views(targets).contains_key(name) == targets.contains_key(name),
        targets.contains_key(name) ==> target_views(targets)[name] == targets[name]@,
{
}

} // verus!
