//! The registry of monitored services and how a service is built from a
//! docker compose file.
pub mod compose;

use vstd::prelude::*;
use vstd::string::*;
use crate::config::compose::{DockerCompose, Service, lookup, names_unique, lemma_first_match_exists, lemma_lookup_unique_names};

verus! {

/// The registry: the services that are monitored, and where it is kept.
#[derive(Debug)]
pub struct PolypusConfig {
    pub metadata: String,
    pub registered: Vec<DCService>,
    pub path: String,
}

/// A service deployed from a docker compose file.
#[derive(Debug)]
pub struct DCService {
    pub name: String,
    pub config_path: String,
    pub containers: Vec<Container>,
    pub folder_is_config: bool,
    pub kind: String,
}

/// A container that belongs to a registered service.
#[derive(Debug)]
pub struct Container {
    pub id: String,
    pub name: String,
    pub image: String,
}

/// What must happen to the registry file once the registry is made for a
/// path: a new registry is written out, an existing one is read in.
#[derive(Debug, Clone, Copy, PartialEq, Eq, Structural)]
pub enum ConfigStep {
    WriteFile,
    LoadFile,
}

/// The text of an optional string, empty when there is none.
pub open spec fn text_or_empty(s: Option<String>) -> Seq<char> {
    match s {
        Some(t) => t@,
        None => Seq::empty(),
    }
}

/// `c` is the container registered for the compose service `service`
/// named `service_name`: it is named by the service's container name, or
/// else by the service's own name, and runs the service's image.
pub open spec fn container_for(c: Container, service_name: Seq<char>, service: Service) -> bool {
    &&& c.id@ == Seq::<char>::empty()
    &&& c.name@ == (match service.container_name {
        Some(n) => n@,
        None => service_name,
    })
    &&& c.image@ == text_or_empty(service.image)
}

/// `c` is the container registered for entry `i` of a compose file's
/// services, where that entry's name is looked up among `entries`.
pub open spec fn registered_for(entries: Seq<(String, Service)>, i: int, c: Container) -> bool {
    &&& lookup(entries, entries[i].0@) is Some
    &&& container_for(c, entries[i].0@, lookup(entries, entries[i].0@)->0)
}

/// In a compose file whose services are named once each, the container
/// registered for an entry is built from that entry's own service.
pub proof fn lemma_registered_for_unique_names(entries: Seq<(String, Service)>, i: int, c: Container)
    requires
        names_unique(entries),
        0 <= i < entries.len(),
        registered_for(entries, i, c),
    ensures
        container_for(c, entries[i].0@, entries[i].1),
        c.id@.len() == 0,
        entries[i].1.container_name is None ==> c.name@ == entries[i].0@,
        entries[i].1.container_name matches Some(n) ==> c.name@ == n@,
        entries[i].1.image is None ==> c.image@.len() == 0,
        entries[i].1.image matches Some(img) ==> c.image@ == img@,
{
    lemma_lookup_unique_names(entries, i);
}

/// The text of the metadata line of a new registry.
pub open spec fn default_metadata() -> Seq<char> {
    "Polypus Config"@
}

/// The text of an optional string, copied; empty when there is none.
pub(crate) fn clone_or_empty(s: &Option<String>) -> (res: String)
    ensures
        res@ == text_or_empty(*s),
{
    match s {
        Some(t) => t.clone(),
        None => String::new(),
    }
}

impl DCService {
    /// The service `service_name` deployed from the compose file at
    /// `dc_config_path`, whose content is `compose`: one container for
    /// each service of the file, in the file's order.
    pub fn new_from_dc(service_name: String, dc_config_path: String, compose: &DockerCompose) -> (res: DCService)
        ensures
            res.name == service_name,
            res.config_path == dc_config_path,
            !res.folder_is_config,
            res.kind@ == "docker-compose"@,
            res.containers@.len() == compose.services@.len(),
            forall|i: int| 0 <= i < res.containers@.len() ==>
                registered_for(compose.services@, i, #[trigger] res.containers@[i]),
            names_unique(compose.services@) ==> forall|i: int| 0 <= i < res.containers@.len() ==>
                container_for(#[trigger] res.containers@[i], compose.services@[i].0@, compose.services@[i].1),
    {
        let mut service = DCService {
            name: service_name,
            config_path: dc_config_path,
            containers: Vec::new(),
            folder_is_config: false,
            kind: String::from_str("docker-compose"),
        };
        let names = compose.service_names();
        let n = names.len();
        let mut i: usize = 0;
        while i < n
            invariant
                n == names@.len(),
                n == compose.services@.len(),
                forall|j: int| 0 <= j < n ==> *names@[j] == compose.services@[j].0,
                i <= n,
                service.name == service_name,
                service.config_path == dc_config_path,
                !service.folder_is_config,
                service.kind@ == "docker-compose"@,
                service.containers@.len() == i,
                forall|j: int| 0 <= j < i ==>
                    registered_for(compose.services@, j, #[trigger] service.containers@[j]),
            decreases n - i,
        {
            let serv: &String = names[i];
            proof {
                lemma_first_match_exists(compose.services@, serv@, i as int);
            }
            let dserv = compose.get_service(serv.as_str()).unwrap();
            let image = clone_or_empty(&dserv.image);
            let cname = match &dserv.container_name {
                Some(cname) => cname.clone(),
                None => serv.clone(),
            };
            let c = Container { id: String::new(), name: cname, image: image };
            proof {
                assert(serv@ == compose.services@[i as int].0@);
                assert(container_for(c, compose.services@[i as int].0@, *dserv));
            }
            let ghost before = service.containers@;
            service.containers.push(c);
            proof {
                assert(lookup(compose.services@, compose.services@[i as int].0@) == Some(*dserv));
                assert forall|j: int| 0 <= j <= i implies
                    registered_for(compose.services@, j, #[trigger] service.containers@[j]) by {
                    if j < i {
                        assert(service.containers@[j] == before[j]);
                    }
                }
            }
            i += 1;
        }
        proof {
            if names_unique(compose.services@) {
                assert forall|i: int| 0 <= i < service.containers@.len() implies
                    container_for(#[trigger] service.containers@[i], compose.services@[i].0@, compose.services@[i].1) by {
                    lemma_registered_for_unique_names(compose.services@, i, service.containers@[i]);
                }
            }
        }
        service
    }
}

impl PolypusConfig {
    /// The registry kept at `path`, as it stands before its file is
    /// consulted: the default metadata and no service. Where no file
    /// exists at `path` this registry is written there; otherwise the
    /// file is read in its place.
    pub fn new_from_path(path: String, file_exists: bool) -> (res: (PolypusConfig, ConfigStep))
        ensures
            res.0.metadata@ == default_metadata(),
            res.0.registered@.len() == 0,
            res.0.path == path,
            res.1 == (if file_exists { ConfigStep::LoadFile } else { ConfigStep::WriteFile }),
    {
        let config = PolypusConfig {
            metadata: String::from_str("Polypus Config"),
            registered: Vec::new(),
            path,
        };
        if !file_exists {
            (config, ConfigStep::WriteFile)
        } else {
            (config, ConfigStep::LoadFile)
        }
    }

    /// Adds `service` to the registered services, after those already
    /// there; the registry is then to be written out.
    pub fn register(&mut self, service: DCService)
        ensures
            final(self).registered@ == old(self).registered@.push(service),
            final(self).metadata == old(self).metadata,
            final(self).path == old(self).path,
    {
        self.registered.push(service);
    }
}

} // verus!
