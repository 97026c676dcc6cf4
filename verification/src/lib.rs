//! Monitors self-hosted services deployed from docker compose files: a
//! registered service groups the containers of one compose file, and its
//! overall status is derived from the statuses Docker reports for them.
pub mod config;
pub mod docker;
pub mod text;
pub mod ui;

use vstd::prelude::*;
use vstd::string::*;
use crate::config::{Container, DCService, clone_or_empty, text_or_empty};
use crate::docker::{DockerContainer, find_container, last_answering, answers_to, lemma_answers_to_exactly, lemma_last_answering};
use crate::text::{contains_str, has_substring, occurs_at, lowercase, to_lowercase, usize_to_decimal, decimal, is_ascii_text, ascii_lowercase};

verus! {

/// The status of one container, or the overall status of a service.
#[derive(Debug, Clone, Copy, PartialEq, Eq, Structural)]
pub enum StatusEnum {
    Up,
    Exited,
    Unhealthy,
    NotFound,
    Unknown,
    Healthy,
}

/// How a (lowercased) Docker status text is read. The checks are made in
/// this order; note that "unhealthy" contains "healthy", so a text holding
/// both "up" and "unhealthy" reads as `Healthy`.
pub open spec fn classify(s: Seq<char>) -> StatusEnum {
    if has_substring(s, "up"@) && has_substring(s, "healthy"@) {
        StatusEnum::Healthy
    } else if has_substring(s, "running"@) || has_substring(s, "up"@) {
        StatusEnum::Up
    } else if has_substring(s, "exited"@) {
        StatusEnum::Exited
    } else if has_substring(s, "unhealthy"@) {
        StatusEnum::Unhealthy
    } else if has_substring(s, "healthy"@) {
        StatusEnum::Healthy
    } else if has_substring(s, "not found"@) {
        StatusEnum::NotFound
    } else {
        StatusEnum::Unknown
    }
}

/// How a lowercased status text reads, case by case:
/// - a text with `up` reads as `Healthy` when it also has `healthy`, and
///   as `Up` otherwise;
/// - a text without `up` but with `running` reads as `Up`;
/// - `Healthy` is read only from a text that has `healthy`;
/// - `Exited` exactly from a text with `exited` and neither `up` nor
///   `running`;
/// - `Unhealthy` only from a text with `unhealthy` and without `up`,
///   `running` or `exited`;
/// - `NotFound` only from a text with `not found`;
/// - `Unknown` exactly from a text with none of `up`, `running`,
///   `exited`, `unhealthy`, `healthy` and `not found`.
pub proof fn lemma_classify_cases(s: Seq<char>)
    ensures
        has_substring(s, "up"@) && has_substring(s, "healthy"@) ==> classify(s) == StatusEnum::Healthy,
        has_substring(s, "up"@) && !has_substring(s, "healthy"@) ==> classify(s) == StatusEnum::Up,
        !has_substring(s, "up"@) && has_substring(s, "running"@) ==> classify(s) == StatusEnum::Up,
        classify(s) == StatusEnum::Healthy ==> has_substring(s, "healthy"@),
        classify(s) == StatusEnum::Up ==> has_substring(s, "up"@) || has_substring(s, "running"@),
        (classify(s) == StatusEnum::Exited) == (has_substring(s, "exited"@)
            && !has_substring(s, "up"@) && !has_substring(s, "running"@)),
        classify(s) == StatusEnum::Unhealthy ==> has_substring(s, "unhealthy"@)
            && !has_substring(s, "up"@) && !has_substring(s, "running"@) && !has_substring(s, "exited"@),
        classify(s) == StatusEnum::NotFound ==> has_substring(s, "not found"@),
        (classify(s) == StatusEnum::Unknown) == (!has_substring(s, "up"@) && !has_substring(s, "running"@)
            && !has_substring(s, "exited"@) && !has_substring(s, "unhealthy"@)
            && !has_substring(s, "healthy"@) && !has_substring(s, "not found"@)),
{
}

/// The status read from a raw Docker status text: it is lowercased first.
pub open spec fn status_of_text(s: Seq<char>) -> StatusEnum {
    classify(lowercase(s))
}

/// The text under which a status is displayed.
pub open spec fn status_text(s: StatusEnum) -> Seq<char> {
    match s {
        StatusEnum::Up => "Up"@,
        StatusEnum::Exited => "Exited"@,
        StatusEnum::Unhealthy => "Unhealthy"@,
        StatusEnum::NotFound => "Not Found"@,
        StatusEnum::Unknown => "Unknown"@,
        StatusEnum::Healthy => "Healthy"@,
    }
}

impl StatusEnum {
    /// Reads a Docker status text that is already lowercased.
    pub fn from_lowercase(s_lower: &str) -> (res: StatusEnum)
        ensures
            res == classify(s_lower@),
    {
        if contains_str(s_lower, "up") && contains_str(s_lower, "healthy") {
            StatusEnum::Healthy
        } else if contains_str(s_lower, "running") || contains_str(s_lower, "up") {
            StatusEnum::Up
        } else if contains_str(s_lower, "exited") {
            StatusEnum::Exited
        } else if contains_str(s_lower, "unhealthy") {
            StatusEnum::Unhealthy
        } else if contains_str(s_lower, "healthy") {
            StatusEnum::Healthy
        } else if contains_str(s_lower, "not found") {
            StatusEnum::NotFound
        } else {
            StatusEnum::Unknown
        }
    }

    /// The display text of the status.
    pub fn as_str(&self) -> (res: &'static str)
        ensures
            res@ == status_text(*self),
    {
        match self {
            StatusEnum::Up => "Up",
            StatusEnum::Exited => "Exited",
            StatusEnum::Unhealthy => "Unhealthy",
            StatusEnum::NotFound => "Not Found",
            StatusEnum::Unknown => "Unknown",
            StatusEnum::Healthy => "Healthy",
        }
    }

    /// The display text of the status, as an owned string.
    pub fn to_string(&self) -> (res: String)
        ensures
            res@ == status_text(*self),
    {
        String::from_str(self.as_str())
    }
}

/// The status reported for one container of a service.
#[derive(Debug)]
pub struct ContainerStatus {
    pub name: String,
    pub image: String,
    pub status: StatusEnum,
    pub id: String,
}

/// A registered service together with the statuses of its containers and
/// the overall status derived from them.
pub struct ServiceStatus<'a> {
    pub service: &'a DCService,
    pub status: StatusEnum,
    pub containers_status: Vec<ContainerStatus>,
}

/// `cs` reports on the registered container `c`, given the containers
/// Docker listed: the status and id are those of the container the name
/// leads to, or `NotFound` and an empty id where it leads to none.
pub open spec fn reports_on(cs: ContainerStatus, c: Container, listed: Seq<DockerContainer>) -> bool {
    &&& cs.name@ == c.name@
    &&& cs.image@ == c.image@
    &&& match last_answering(listed, c.name@) {
        Some(d) => {
            &&& cs.status == status_of_text(text_or_empty(d.status))
            &&& cs.id@ == text_or_empty(d.id)
        },
        None => {
            &&& cs.status == StatusEnum::NotFound
            &&& cs.id@ == Seq::<char>::empty()
        },
    }
}

/// The statuses of a sequence of container reports.
pub open spec fn statuses(reports: Seq<ContainerStatus>) -> Seq<StatusEnum> {
    reports.map_values(|cs: ContainerStatus| cs.status)
}

/// A container in this status counts as running.
pub open spec fn is_running(s: StatusEnum) -> bool {
    s == StatusEnum::Up || s == StatusEnum::Healthy
}

/// The overall status of a service: the first container that is not
/// running decides (`Unhealthy` for an exited or unhealthy one, `Unknown`
/// for one that is missing or unknown); with all running, it is `Up`.
pub open spec fn overall_status(s: Seq<StatusEnum>) -> StatusEnum
    decreases s.len(),
{
    if s.len() == 0 {
        StatusEnum::Up
    } else {
        match s[0] {
            StatusEnum::Unhealthy | StatusEnum::Exited => StatusEnum::Unhealthy,
            StatusEnum::NotFound | StatusEnum::Unknown => StatusEnum::Unknown,
            StatusEnum::Up | StatusEnum::Healthy => overall_status(s.drop_first()),
        }
    }
}

/// One line per container: its name, `: `, and its status text.
pub open spec fn container_line(cs: ContainerStatus) -> Seq<char> {
    cs.name@ + ": "@ + status_text(cs.status)
}

/// The summary line of a service.
pub open spec fn summary_line(name: Seq<char>, status: StatusEnum, count: nat) -> Seq<char> {
    "Service: "@ + name + ", Status: "@ + status_text(status) + ", Containers: "@ + decimal(count)
}

impl<'a> ServiceStatus<'a> {
    /// The status of `service` before Docker is asked: `Unknown`, with no
    /// container reported.
    pub fn new(service: &'a DCService) -> (res: Self)
        ensures
            res.service == service,
            res.status == StatusEnum::Unknown,
            res.containers_status@.len() == 0,
    {
        ServiceStatus { service, status: StatusEnum::Unknown, containers_status: Vec::new() }
    }

    /// The status of `service` given the containers Docker listed.
    pub fn new_and_update(service: &'a DCService, docker_status: &Vec<DockerContainer>) -> (res: Self)
        ensures
            res.service == service,
            res.containers_status@.len() == service.containers@.len(),
            forall|i: int| 0 <= i < res.containers_status@.len() ==>
                reports_on(#[trigger] res.containers_status@[i], service.containers@[i], docker_status@),
            res.status == overall_status(statuses(res.containers_status@)),
    {
        let mut status = Self::new(service);
        status.update_status(docker_status);
        status
    }

    /// Reports on each container of the service, in the service's order,
    /// from the containers Docker listed.
    pub fn update_containers_from_docker(&mut self, docker_status: &Vec<DockerContainer>)
        ensures
            final(self).service == old(self).service,
            final(self).status == old(self).status,
            final(self).containers_status@.len() == old(self).service.containers@.len(),
            forall|i: int| 0 <= i < final(self).containers_status@.len() ==>
                reports_on(#[trigger] final(self).containers_status@[i], old(self).service.containers@[i], docker_status@),
    {
        self.containers_status.clear();
        let containers = &self.service.containers;
        let n = containers.len();
        let mut i: usize = 0;
        while i < n
            invariant
                containers == &self.service.containers,
                self.service == old(self).service,
                self.status == old(self).status,
                n == containers@.len(),
                i <= n,
                self.containers_status@.len() == i,
                forall|j: int| 0 <= j < i ==>
                    reports_on(#[trigger] self.containers_status@[j], containers@[j], docker_status@),
            decreases n - i,
        {
            let s_container = &containers[i];
            let cs = match find_container(docker_status, s_container.name.as_str()) {
                Some(container) => {
                    let text = clone_or_empty(&container.status);
                    ContainerStatus {
                        name: s_container.name.clone(),
                        image: s_container.image.clone(),
                        status: StatusEnum::from(text),
                        id: clone_or_empty(&container.id),
                    }
                },
                None => ContainerStatus {
                    name: s_container.name.clone(),
                    image: s_container.image.clone(),
                    status: StatusEnum::NotFound,
                    id: String::new(),
                },
            };
            let ghost before = self.containers_status@;
            self.containers_status.push(cs);
            proof {
                assert forall|j: int| 0 <= j <= i implies
                    reports_on(#[trigger] self.containers_status@[j], containers@[j], docker_status@) by {
                    if j < i {
                        assert(self.containers_status@[j] == before[j]);
                    }
                }
            }
            i += 1;
        }
    }

    /// Reports on each container from the containers Docker listed, then
    /// derives the overall status of the service.
    pub fn update_status(&mut self, docker_status: &Vec<DockerContainer>)
        ensures
            final(self).service == old(self).service,
            final(self).containers_status@.len() == old(self).service.containers@.len(),
            forall|i: int| 0 <= i < final(self).containers_status@.len() ==>
                reports_on(#[trigger] final(self).containers_status@[i], old(self).service.containers@[i], docker_status@),
            final(self).status == overall_status(statuses(final(self).containers_status@)),
    {
        self.update_containers_from_docker(docker_status);
        let n = self.containers_status.len();
        let mut i: usize = 0;
        assert(statuses(self.containers_status@).skip(0) =~= statuses(self.containers_status@));
        while i < n
            invariant
                self.service == old(self).service,
                self.containers_status@.len() == old(self).service.containers@.len(),
                forall|j: int| 0 <= j < self.containers_status@.len() ==>
                    reports_on(#[trigger] self.containers_status@[j], old(self).service.containers@[j], docker_status@),
                n == self.containers_status@.len(),
                i <= n,
                overall_status(statuses(self.containers_status@))
                    == overall_status(statuses(self.containers_status@).skip(i as int)),
            decreases n - i,
        {
            let ghost rest = statuses(self.containers_status@).skip(i as int);
            proof {
                assert(rest[0] == self.containers_status@[i as int].status);
                assert(rest.drop_first() =~= statuses(self.containers_status@).skip(i + 1));
            }
            match self.containers_status[i].status {
                StatusEnum::Unhealthy => {
                    self.status = StatusEnum::Unhealthy;
                    return;
                },
                StatusEnum::Exited => {
                    self.status = StatusEnum::Unhealthy;
                    return;
                },
                StatusEnum::Up | StatusEnum::Healthy => {},
                StatusEnum::NotFound => {
                    self.status = StatusEnum::Unknown;
                    return;
                },
                StatusEnum::Unknown => {
                    self.status = StatusEnum::Unknown;
                    return;
                },
            }
            i += 1;
        }
        assert(statuses(self.containers_status@).skip(n as int).len() == 0);
        self.status = StatusEnum::Up;
    }

    /// One line per container: `name: status`.
    pub fn pretty_print_containers(&self) -> (res: Vec<String>)
        ensures
            res@.len() == self.containers_status@.len(),
            forall|i: int| 0 <= i < res@.len() ==>
                #[trigger] res@[i]@ == container_line(self.containers_status@[i]),
    {
        let mut res: Vec<String> = Vec::new();
        let n = self.containers_status.len();
        let mut i: usize = 0;
        while i < n
            invariant
                n == self.containers_status@.len(),
                i <= n,
                res@.len() == i,
                forall|j: int| 0 <= j < i ==>
                    #[trigger] res@[j]@ == container_line(self.containers_status@[j]),
            decreases n - i,
        {
            let c = &self.containers_status[i];
            let mut line = c.name.clone();
            line.append(": ");
            line.append(c.status.as_str());
            res.push(line);
            i += 1;
        }
        res
    }

    /// `Service: <name>, Status: <status>, Containers: <count>`.
    pub fn pretty_print(&self) -> (res: String)
        ensures
            res@ == summary_line(self.service.name@, self.status, self.containers_status@.len()),
    {
        let mut line = String::from_str("Service: ");
        line.append(self.service.name.as_str());
        line.append(", Status: ");
        line.append(self.status.as_str());
        line.append(", Containers: ");
        let count = usize_to_decimal(self.containers_status.len());
        line.append(count.as_str());
        line
    }
}

/// A service is `Up` exactly when every one of its containers is running
/// (`Up` or `Healthy`); a service with no container is `Up`.
pub proof fn lemma_overall_up_iff_all_running(s: Seq<StatusEnum>)
    ensures
        (overall_status(s) == StatusEnum::Up) <==> (forall|i: int| 0 <= i < s.len() ==> is_running(#[trigger] s[i])),
    decreases s.len(),
{
    if s.len() > 0 {
        let rest = s.drop_first();
        lemma_overall_up_iff_all_running(rest);
        assert forall|i: int| 0 < i < s.len() implies s[i] == rest[i - 1] by {}
    }
}

/// The overall status of a service is always `Up`, `Unhealthy` or `Unknown`.
pub proof fn lemma_overall_status_range(s: Seq<StatusEnum>)
    ensures
        overall_status(s) == StatusEnum::Up || overall_status(s) == StatusEnum::Unhealthy
            || overall_status(s) == StatusEnum::Unknown,
    decreases s.len(),
{
    if s.len() > 0 {
        lemma_overall_status_range(s.drop_first());
    }
}

/// The first container that is not running decides the overall status:
/// `Unhealthy` when it exited or is unhealthy, `Unknown` otherwise.
pub proof fn lemma_first_not_running_decides(s: Seq<StatusEnum>, k: int)
    requires
        0 <= k < s.len(),
        !is_running(s[k]),
        forall|j: int| 0 <= j < k ==> is_running(#[trigger] s[j]),
    ensures
        overall_status(s) == (if s[k] == StatusEnum::Exited || s[k] == StatusEnum::Unhealthy {
            StatusEnum::Unhealthy
        } else {
            StatusEnum::Unknown
        }),
    decreases k,
{
    if k > 0 {
        assert(is_running(s[0]));
        assert forall|j: int| 0 <= j < k - 1 implies is_running(#[trigger] s.drop_first()[j]) by {
            assert(s.drop_first()[j] == s[j + 1]);
        }
        lemma_first_not_running_decides(s.drop_first(), k - 1);
    }
}

/// Docker lists `d` under the name `key`, or under `/` followed by `key`.
pub open spec fn listed_as(d: DockerContainer, key: Seq<char>) -> bool {
    &&& d.names is Some
    &&& exists|j: int| 0 <= j < d.names->0@.len()
        && (#[trigger] d.names->0@[j]@ == key || d.names->0@[j]@ == seq!['/'] + key)
}

/// Where to look for a registered container: a report takes its status
/// and id from the last listed container that Docker lists under the
/// container's name (with or without one leading `/`); where Docker lists
/// none so, the report says `NotFound` with an empty id.
pub proof fn lemma_report_source(cs: ContainerStatus, c: Container, listed: Seq<DockerContainer>)
    requires
        reports_on(cs, c, listed),
    ensures
        cs.name@ == c.name@,
        cs.image@ == c.image@,
        (forall|i: int| 0 <= i < listed.len() ==> !listed_as(#[trigger] listed[i], c.name@)) ==> {
            &&& cs.status == StatusEnum::NotFound
            &&& cs.id@ == Seq::<char>::empty()
        },
        (exists|i: int| 0 <= i < listed.len() && #[trigger] listed_as(listed[i], c.name@)) ==> exists|i: int| {
            &&& 0 <= i < listed.len()
            &&& #[trigger] listed_as(listed[i], c.name@)
            &&& (forall|j: int| i < j < listed.len() ==> !listed_as(#[trigger] listed[j], c.name@))
            &&& cs.status == status_of_text(text_or_empty(listed[i].status))
            &&& cs.id@ == text_or_empty(listed[i].id)
            &&& (listed[i].id matches Some(t) ==> cs.id@ == t@)
            &&& (listed[i].id is None ==> cs.id@.len() == 0)
            &&& (listed[i].status matches Some(t) ==> cs.status == status_of_text(t@))
            &&& (listed[i].status is None ==> cs.status == status_of_text(Seq::empty()))
        },
{
    let key = c.name@;
    assert forall|i: int| 0 <= i < listed.len() implies answers_to(#[trigger] listed[i], key) == listed_as(listed[i], key) by {
        lemma_answers_to_exactly(listed[i], key);
    }
    lemma_last_answering(listed, key);
    if exists|i: int| 0 <= i < listed.len() && #[trigger] listed_as(listed[i], key) {
        let i0 = choose|i: int| 0 <= i < listed.len() && #[trigger] listed_as(listed[i], key);
        assert(answers_to(listed[i0], key));
        let i = choose|i: int| 0 <= i < listed.len()
            && listed[i] == last_answering(listed, key)->0
            && #[trigger] answers_to(listed[i], key)
            && (forall|j: int| i < j < listed.len() ==> !answers_to(#[trigger] listed[j], key));
        assert(listed_as(listed[i], key));
        assert forall|j: int| i < j < listed.len() implies !listed_as(#[trigger] listed[j], key) by {
            assert(!answers_to(listed[j], key));
        }
    }
}

/// A service one of whose containers Docker does not list is never `Up`.
pub proof fn lemma_missing_container_not_up(
    reports: Seq<ContainerStatus>,
    containers: Seq<Container>,
    listed: Seq<DockerContainer>,
    i: int,
)
    requires
        reports.len() == containers.len(),
        forall|j: int| 0 <= j < reports.len() ==> reports_on(#[trigger] reports[j], containers[j], listed),
        0 <= i < containers.len(),
        last_answering(listed, containers[i].name@) is None,
    ensures
        reports[i].status == StatusEnum::NotFound,
        overall_status(statuses(reports)) != StatusEnum::Up,
{
    assert(reports_on(reports[i], containers[i], listed));
    lemma_overall_up_iff_all_running(statuses(reports));
    assert(statuses(reports)[i] == StatusEnum::NotFound);
}

/// Reading the display text of `Up` gives `Up` back.
proof fn lemma_read_up()
    ensures
        is_ascii_text(status_text(StatusEnum::Up)),
        classify(ascii_lowercase(status_text(StatusEnum::Up))) == StatusEnum::Up,
{
    reveal_strlit("Up");
    reveal_strlit("exited");
    reveal_strlit("healthy");
    reveal_strlit("not found");
    reveal_strlit("running");
    reveal_strlit("unhealthy");
    reveal_strlit("up");
    let t = ascii_lowercase("Up"@);
    assert(t =~= "up"@);
    assert(t.subrange(0, 2) =~= "up"@);
    assert(occurs_at(t, "up"@, 0));
    assert forall|i: int| !occurs_at(t, "healthy"@, i) by {
    }
    assert forall|i: int| !occurs_at(t, "running"@, i) by {
    }
    assert forall|i: int| !occurs_at(t, "exited"@, i) by {
    }
    assert forall|i: int| !occurs_at(t, "unhealthy"@, i) by {
    }
    assert forall|i: int| !occurs_at(t, "not found"@, i) by {
    }
}

/// Reading the display text of `Exited` gives `Exited` back.
proof fn lemma_read_exited()
    ensures
        is_ascii_text(status_text(StatusEnum::Exited)),
        classify(ascii_lowercase(status_text(StatusEnum::Exited))) == StatusEnum::Exited,
{
    reveal_strlit("Exited");
    reveal_strlit("exited");
    reveal_strlit("healthy");
    reveal_strlit("not found");
    reveal_strlit("running");
    reveal_strlit("unhealthy");
    reveal_strlit("up");
    let t = ascii_lowercase("Exited"@);
    assert(t =~= "exited"@);
    assert forall|i: int| !occurs_at(t, "up"@, i) by {
        if i == 0 { assert(t.subrange(0, 2)[0] != "up"@[0]); }
        if i == 1 { assert(t.subrange(1, 3)[0] != "up"@[0]); }
        if i == 2 { assert(t.subrange(2, 4)[0] != "up"@[0]); }
        if i == 3 { assert(t.subrange(3, 5)[0] != "up"@[0]); }
        if i == 4 { assert(t.subrange(4, 6)[0] != "up"@[0]); }
    }
    assert forall|i: int| !occurs_at(t, "healthy"@, i) by {
    }
    assert forall|i: int| !occurs_at(t, "running"@, i) by {
    }
    assert(t.subrange(0, 6) =~= "exited"@);
    assert(occurs_at(t, "exited"@, 0));
    assert forall|i: int| !occurs_at(t, "unhealthy"@, i) by {
    }
    assert forall|i: int| !occurs_at(t, "not found"@, i) by {
    }
}

/// Reading the display text of `Unhealthy` gives `Unhealthy` back.
proof fn lemma_read_unhealthy()
    ensures
        is_ascii_text(status_text(StatusEnum::Unhealthy)),
        classify(ascii_lowercase(status_text(StatusEnum::Unhealthy))) == StatusEnum::Unhealthy,
{
    reveal_strlit("Unhealthy");
    reveal_strlit("exited");
    reveal_strlit("healthy");
    reveal_strlit("not found");
    reveal_strlit("running");
    reveal_strlit("unhealthy");
    reveal_strlit("up");
    let t = ascii_lowercase("Unhealthy"@);
    assert(t =~= "unhealthy"@);
    assert forall|i: int| !occurs_at(t, "up"@, i) by {
        if i == 0 { assert(t.subrange(0, 2)[1] != "up"@[1]); }
        if i == 1 { assert(t.subrange(1, 3)[0] != "up"@[0]); }
        if i == 2 { assert(t.subrange(2, 4)[0] != "up"@[0]); }
        if i == 3 { assert(t.subrange(3, 5)[0] != "up"@[0]); }
        if i == 4 { assert(t.subrange(4, 6)[0] != "up"@[0]); }
        if i == 5 { assert(t.subrange(5, 7)[0] != "up"@[0]); }
        if i == 6 { assert(t.subrange(6, 8)[0] != "up"@[0]); }
        if i == 7 { assert(t.subrange(7, 9)[0] != "up"@[0]); }
    }
    assert(t.subrange(2, 9) =~= "healthy"@);
    assert(occurs_at(t, "healthy"@, 2));
    assert forall|i: int| !occurs_at(t, "running"@, i) by {
        if i == 0 { assert(t.subrange(0, 7)[0] != "running"@[0]); }
        if i == 1 { assert(t.subrange(1, 8)[0] != "running"@[0]); }
        if i == 2 { assert(t.subrange(2, 9)[0] != "running"@[0]); }
    }
    assert forall|i: int| !occurs_at(t, "exited"@, i) by {
        if i == 0 { assert(t.subrange(0, 6)[0] != "exited"@[0]); }
        if i == 1 { assert(t.subrange(1, 7)[0] != "exited"@[0]); }
        if i == 2 { assert(t.subrange(2, 8)[0] != "exited"@[0]); }
        if i == 3 { assert(t.subrange(3, 9)[1] != "exited"@[1]); }
    }
    assert(t.subrange(0, 9) =~= "unhealthy"@);
    assert(occurs_at(t, "unhealthy"@, 0));
    assert forall|i: int| !occurs_at(t, "not found"@, i) by {
        if i == 0 { assert(t.subrange(0, 9)[0] != "not found"@[0]); }
    }
}

/// Reading the display text of `NotFound` gives `NotFound` back.
proof fn lemma_read_notfound()
    ensures
        is_ascii_text(status_text(StatusEnum::NotFound)),
        classify(ascii_lowercase(status_text(StatusEnum::NotFound))) == StatusEnum::NotFound,
{
    reveal_strlit("Not Found");
    reveal_strlit("exited");
    reveal_strlit("healthy");
    reveal_strlit("not found");
    reveal_strlit("running");
    reveal_strlit("unhealthy");
    reveal_strlit("up");
    let t = ascii_lowercase("Not Found"@);
    assert(t =~= "not found"@);
    assert forall|i: int| !occurs_at(t, "up"@, i) by {
        if i == 0 { assert(t.subrange(0, 2)[0] != "up"@[0]); }
        if i == 1 { assert(t.subrange(1, 3)[0] != "up"@[0]); }
        if i == 2 { assert(t.subrange(2, 4)[0] != "up"@[0]); }
        if i == 3 { assert(t.subrange(3, 5)[0] != "up"@[0]); }
        if i == 4 { assert(t.subrange(4, 6)[0] != "up"@[0]); }
        if i == 5 { assert(t.subrange(5, 7)[0] != "up"@[0]); }
        if i == 6 { assert(t.subrange(6, 8)[1] != "up"@[1]); }
        if i == 7 { assert(t.subrange(7, 9)[0] != "up"@[0]); }
    }
    assert forall|i: int| !occurs_at(t, "healthy"@, i) by {
        if i == 0 { assert(t.subrange(0, 7)[0] != "healthy"@[0]); }
        if i == 1 { assert(t.subrange(1, 8)[0] != "healthy"@[0]); }
        if i == 2 { assert(t.subrange(2, 9)[0] != "healthy"@[0]); }
    }
    assert forall|i: int| !occurs_at(t, "running"@, i) by {
        if i == 0 { assert(t.subrange(0, 7)[0] != "running"@[0]); }
        if i == 1 { assert(t.subrange(1, 8)[0] != "running"@[0]); }
        if i == 2 { assert(t.subrange(2, 9)[0] != "running"@[0]); }
    }
    assert forall|i: int| !occurs_at(t, "exited"@, i) by {
        if i == 0 { assert(t.subrange(0, 6)[0] != "exited"@[0]); }
        if i == 1 { assert(t.subrange(1, 7)[0] != "exited"@[0]); }
        if i == 2 { assert(t.subrange(2, 8)[0] != "exited"@[0]); }
        if i == 3 { assert(t.subrange(3, 9)[0] != "exited"@[0]); }
    }
    assert forall|i: int| !occurs_at(t, "unhealthy"@, i) by {
        if i == 0 { assert(t.subrange(0, 9)[0] != "unhealthy"@[0]); }
    }
    assert(t.subrange(0, 9) =~= "not found"@);
    assert(occurs_at(t, "not found"@, 0));
}

/// Reading the display text of `Unknown` gives `Unknown` back.
proof fn lemma_read_unknown()
    ensures
        is_ascii_text(status_text(StatusEnum::Unknown)),
        classify(ascii_lowercase(status_text(StatusEnum::Unknown))) == StatusEnum::Unknown,
{
    reveal_strlit("Unknown");
    reveal_strlit("exited");
    reveal_strlit("healthy");
    reveal_strlit("not found");
    reveal_strlit("running");
    reveal_strlit("unhealthy");
    reveal_strlit("unknown");
    reveal_strlit("up");
    let t = ascii_lowercase("Unknown"@);
    assert(t =~= "unknown"@);
    assert forall|i: int| !occurs_at(t, "up"@, i) by {
        if i == 0 { assert(t.subrange(0, 2)[1] != "up"@[1]); }
        if i == 1 { assert(t.subrange(1, 3)[0] != "up"@[0]); }
        if i == 2 { assert(t.subrange(2, 4)[0] != "up"@[0]); }
        if i == 3 { assert(t.subrange(3, 5)[0] != "up"@[0]); }
        if i == 4 { assert(t.subrange(4, 6)[0] != "up"@[0]); }
        if i == 5 { assert(t.subrange(5, 7)[0] != "up"@[0]); }
    }
    assert forall|i: int| !occurs_at(t, "healthy"@, i) by {
        if i == 0 { assert(t.subrange(0, 7)[0] != "healthy"@[0]); }
    }
    assert forall|i: int| !occurs_at(t, "running"@, i) by {
        if i == 0 { assert(t.subrange(0, 7)[0] != "running"@[0]); }
    }
    assert forall|i: int| !occurs_at(t, "exited"@, i) by {
        if i == 0 { assert(t.subrange(0, 6)[0] != "exited"@[0]); }
        if i == 1 { assert(t.subrange(1, 7)[0] != "exited"@[0]); }
    }
    assert forall|i: int| !occurs_at(t, "unhealthy"@, i) by {
    }
    assert forall|i: int| !occurs_at(t, "not found"@, i) by {
    }
}

/// Reading the display text of `Healthy` gives `Healthy` back.
proof fn lemma_read_healthy()
    ensures
        is_ascii_text(status_text(StatusEnum::Healthy)),
        classify(ascii_lowercase(status_text(StatusEnum::Healthy))) == StatusEnum::Healthy,
{
    reveal_strlit("Healthy");
    reveal_strlit("exited");
    reveal_strlit("healthy");
    reveal_strlit("not found");
    reveal_strlit("running");
    reveal_strlit("unhealthy");
    reveal_strlit("up");
    let t = ascii_lowercase("Healthy"@);
    assert(t =~= "healthy"@);
    assert forall|i: int| !occurs_at(t, "up"@, i) by {
        if i == 0 { assert(t.subrange(0, 2)[0] != "up"@[0]); }
        if i == 1 { assert(t.subrange(1, 3)[0] != "up"@[0]); }
        if i == 2 { assert(t.subrange(2, 4)[0] != "up"@[0]); }
        if i == 3 { assert(t.subrange(3, 5)[0] != "up"@[0]); }
        if i == 4 { assert(t.subrange(4, 6)[0] != "up"@[0]); }
        if i == 5 { assert(t.subrange(5, 7)[0] != "up"@[0]); }
    }
    assert(t.subrange(0, 7) =~= "healthy"@);
    assert(occurs_at(t, "healthy"@, 0));
    assert forall|i: int| !occurs_at(t, "running"@, i) by {
        if i == 0 { assert(t.subrange(0, 7)[0] != "running"@[0]); }
    }
    assert forall|i: int| !occurs_at(t, "exited"@, i) by {
        if i == 0 { assert(t.subrange(0, 6)[0] != "exited"@[0]); }
        if i == 1 { assert(t.subrange(1, 7)[1] != "exited"@[1]); }
    }
    assert forall|i: int| !occurs_at(t, "unhealthy"@, i) by {
    }
    assert forall|i: int| !occurs_at(t, "not found"@, i) by {
    }
}

/// Reading a status's display text gives that status back.
pub proof fn lemma_status_text_read_back(v: StatusEnum)
    ensures
        is_ascii_text(status_text(v)),
        classify(ascii_lowercase(status_text(v))) == v,
{
    match v {
        StatusEnum::Up => lemma_read_up(),
        StatusEnum::Exited => lemma_read_exited(),
        StatusEnum::Unhealthy => lemma_read_unhealthy(),
        StatusEnum::NotFound => lemma_read_notfound(),
        StatusEnum::Unknown => lemma_read_unknown(),
        StatusEnum::Healthy => lemma_read_healthy(),
    }
}

/// The display texts of two statuses are equal only when the statuses are.
pub proof fn lemma_status_text_distinct(a: StatusEnum, b: StatusEnum)
    ensures
        (status_text(a) == status_text(b)) == (a == b),
{
    lemma_status_text_read_back(a);
    lemma_status_text_read_back(b);
}

/// A container's line is its name, then `: `, then a text that reads back
/// as the container's own status; two lines for containers of the same
/// name are equal exactly when their statuses are.
pub proof fn lemma_container_line_reads_back(cs: ContainerStatus, other: ContainerStatus)
    ensures
        container_line(cs).take(cs.name@.len() as int) == cs.name@,
        container_line(cs).subrange(cs.name@.len() as int, cs.name@.len() as int + 2) == seq![':', ' '],
        is_ascii_text(container_line(cs).skip(cs.name@.len() as int + 2)),
        classify(ascii_lowercase(container_line(cs).skip(cs.name@.len() as int + 2))) == cs.status,
        other.name@ == cs.name@ ==> ((container_line(cs) == container_line(other)) == (cs.status == other.status)),
{
    reveal_strlit(": ");
    let n = cs.name@.len() as int;
    let line = container_line(cs);
    assert(line.take(n) =~= cs.name@);
    assert(line.subrange(n, n + 2) =~= seq![':', ' ']);
    assert(line.skip(n + 2) =~= status_text(cs.status));
    lemma_status_text_read_back(cs.status);
    if other.name@ == cs.name@ {
        let oline = container_line(other);
        assert(oline.skip(n + 2) =~= status_text(other.status));
        lemma_status_text_distinct(cs.status, other.status);
    }
}

/// A service's summary line is `Service: `, its name, `, Status: `, a text
/// that reads back as its overall status, `, Containers: ` and the count in
/// decimal.
pub proof fn lemma_summary_line_parts(name: Seq<char>, status: StatusEnum, count: nat)
    ensures ({
        let line = summary_line(name, status, count);
        let p: int = 9 + name.len() as int + 10;
        let q: int = p + status_text(status).len();
        &&& line.take(9) == "Service: "@
        &&& line.subrange(9, 9 + name.len() as int) == name
        &&& line.subrange(9 + name.len() as int, p) == ", Status: "@
        &&& classify(ascii_lowercase(line.subrange(p, q))) == status
        &&& line.subrange(q, q + 14) == ", Containers: "@
        &&& line.skip(q + 14) == decimal(count)
    }),
{
    reveal_strlit("Service: ");
    reveal_strlit(", Status: ");
    reveal_strlit(", Containers: ");
    let line = summary_line(name, status, count);
    let p: int = 9 + name.len() as int + 10;
    let q: int = p + status_text(status).len();
    assert(line.take(9) =~= "Service: "@);
    assert(line.subrange(9, 9 + name.len() as int) =~= name);
    assert(line.subrange(9 + name.len() as int, p) =~= ", Status: "@);
    assert(line.subrange(p, q) =~= status_text(status));
    assert(line.subrange(q, q + 14) =~= ", Containers: "@);
    assert(line.skip(q + 14) =~= decimal(count));
    lemma_status_text_read_back(status);
}

impl From<String> for StatusEnum {
    /// Reads a Docker status text, ignoring case. For an ASCII text the
    /// case of letters does not matter, and the display text of a status
    /// reads back as that status.
    fn from(s: String) -> (res: StatusEnum)
        ensures
            is_ascii_text(s@) ==> res == classify(ascii_lowercase(s@)),
            forall|v: StatusEnum| s@ == status_text(v) ==> res == v,
    {
        let s_lower = to_lowercase(s.as_str());
        let res = StatusEnum::from_lowercase(s_lower.as_str());
        proof {
            assert forall|v: StatusEnum| s@ == status_text(v) implies res == v by {
                lemma_status_text_read_back(v);
            }
        }
        res
    }
}

impl vstd::std_specs::convert::FromSpecImpl<String> for StatusEnum {
    open spec fn obeys_from_spec() -> bool {
        true
    }

    open spec fn from_spec(v: String) -> StatusEnum {
        status_of_text(v@)
    }
}

} // verus!
