//! Argo CD projects.

use vstd::prelude::*;

use crate::unique::{Same, UniqueList};

verus! {

/// A place that the applications of a project may be deployed to.
pub struct AppProjectDestination {
    pub name: String,
    pub namespace: String,
    pub server: String,
}

/// What a destination is.
#[verifier::ext_equal]
pub struct DestinationView {
    pub name: Seq<char>,
    pub namespace: Seq<char>,
    pub server: Seq<char>,
}

impl View for AppProjectDestination {
    type V = DestinationView;

    open spec fn view(&self) -> DestinationView {
        DestinationView { name: self.name@, namespace: self.namespace@, server: self.server@ }
    }
}

impl Same for AppProjectDestination {
    fn same(&self, other: &Self) -> (r: bool) {
        self.name == other.name && self.namespace == other.namespace && self.server == other.server
    }

    fn copied(&self) -> (r: Self) {
        AppProjectDestination {
            name: self.name.clone(),
            namespace: self.namespace.clone(),
            server: self.server.clone(),
        }
    }
}

/// A kind of resource that the applications of a project may create across the cluster.
pub struct AppProjectClusterResourceWhitelist {
    pub group: String,
    pub kind: String,
}

/// What a kind of resource is.
#[verifier::ext_equal]
pub struct ResourceView {
    pub group: Seq<char>,
    pub kind: Seq<char>,
}

impl View for AppProjectClusterResourceWhitelist {
    type V = ResourceView;

    open spec fn view(&self) -> ResourceView {
        ResourceView { group: self.group@, kind: self.kind@ }
    }
}

impl Same for AppProjectClusterResourceWhitelist {
    fn same(&self, other: &Self) -> (r: bool) {
        self.group == other.group && self.kind == other.kind
    }

    fn copied(&self) -> (r: Self) {
        AppProjectClusterResourceWhitelist { group: self.group.clone(), kind: self.kind.clone() }
    }
}

/// What a project is called, and the namespace that it is kept in.
pub struct AppProjectMetadata {
    pub name: String,
    pub namespace: String,
}

/// What the applications of a project may do.
pub struct AppProjectSpec {
    pub source_repos: UniqueList<String>,
    pub destinations: UniqueList<AppProjectDestination>,
    pub cluster_resource_whitelist: UniqueList<AppProjectClusterResourceWhitelist>,
}

/// An Argo CD project.
pub struct AppProject {
    pub metadata: AppProjectMetadata,
    pub spec: AppProjectSpec,
}

/// What a project is.
#[verifier::ext_equal]
pub struct AppProjectView {
    pub name: Seq<char>,
    pub namespace: Seq<char>,
    pub source_repos: Set<Seq<char>>,
    pub destinations: Set<DestinationView>,
    pub cluster_resource_whitelist: Set<ResourceView>,
}

impl View for AppProject {
    type V = AppProjectView;

    open spec fn view(&self) -> AppProjectView {
        AppProjectView {
            name: self.metadata.name@,
            namespace: self.metadata.namespace@,
            source_repos: self.spec.source_repos@,
            destinations: self.spec.destinations@,
            cluster_resource_whitelist: self.spec.cluster_resource_whitelist@,
        }
    }
}

/// The project of that name whose applications may do nothing.
pub open spec fn new_project(name: Seq<char>, namespace: Seq<char>) -> AppProjectView {
    AppProjectView {
        name,
        namespace,
        source_repos: Set::empty(),
        destinations: Set::empty(),
        cluster_resource_whitelist: Set::empty(),
    }
}

impl AppProject {
    /// The project of that name whose applications may do nothing.
    pub fn new(name: String, namespace: String) -> (r: Self)
        ensures
            r@ == new_project(name@, namespace@),
    {
        AppProject {
            metadata: AppProjectMetadata { name, namespace },
            spec: AppProjectSpec {
                source_repos: UniqueList::new(),
                destinations: UniqueList::new(),
                cluster_resource_whitelist: UniqueList::new(),
            },
        }
    }

    /// A copy of the project.
    pub fn copy(&self) -> (r: Self)
        ensures
            r@ == self@,
    {
        AppProject {
            metadata: AppProjectMetadata {
                name: self.metadata.name.clone(),
                namespace: self.metadata.namespace.clone(),
            },
            spec: AppProjectSpec {
                source_repos: self.spec.source_repos.copy(),
                destinations: self.spec.destinations.copy(),
                cluster_resource_whitelist: self.spec.cluster_resource_whitelist.copy(),
            },
        }
    }
}

} // verus!
