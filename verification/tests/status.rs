use polypus::ui::{container_mark, container_tone, service_mark, service_tone, Tone};
use polypus::config::{Container, DCService};
use polypus::docker::DockerContainer;
use polypus::{ContainerStatus, ServiceStatus, StatusEnum};

fn container(name: &str, image: &str) -> Container {
    Container { id: String::new(), name: name.to_string(), image: image.to_string() }
}

fn dc_service(containers: Vec<Container>) -> DCService {
    DCService {
        name: "blog".to_string(),
        config_path: "/srv/blog/docker-compose.yml".to_string(),
        containers,
        folder_is_config: false,
        kind: "docker-compose".to_string(),
    }
}

fn listed(id: &str, names: &[&str], status: &str) -> DockerContainer {
    DockerContainer {
        id: Some(id.to_string()),
        names: Some(names.iter().map(|s| s.to_string()).collect()),
        status: Some(status.to_string()),
    }
}

#[test]
fn from_docker_status_texts() {
    let cases = [
        ("Up 5 minutes", StatusEnum::Up),
        ("Up 2 hours (healthy)", StatusEnum::Healthy),
        ("Up 2 hours (unhealthy)", StatusEnum::Healthy),
        ("Exited (1) 3 minutes ago", StatusEnum::Exited),
        ("running", StatusEnum::Up),
        ("RUNNING", StatusEnum::Up),
        ("unhealthy", StatusEnum::Unhealthy),
        ("Healthy", StatusEnum::Healthy),
        ("Container Not Found", StatusEnum::NotFound),
        ("Created", StatusEnum::Unknown),
        ("Restarting (1) 5 seconds ago", StatusEnum::Unknown),
        ("", StatusEnum::Unknown),
    ];
    for (text, expected) in cases {
        assert_eq!(StatusEnum::from(text.to_string()), expected, "for {:?}", text);
    }
}

#[test]
fn from_lowercase_does_not_lower() {
    assert_eq!(StatusEnum::from_lowercase("UP"), StatusEnum::Unknown);
    assert_eq!(StatusEnum::from_lowercase("up"), StatusEnum::Up);
}

#[test]
fn status_display_texts() {
    assert_eq!(StatusEnum::Up.to_string(), "Up");
    assert_eq!(StatusEnum::Exited.to_string(), "Exited");
    assert_eq!(StatusEnum::Unhealthy.to_string(), "Unhealthy");
    assert_eq!(StatusEnum::NotFound.to_string(), "Not Found");
    assert_eq!(StatusEnum::Unknown.to_string(), "Unknown");
    assert_eq!(StatusEnum::Healthy.as_str(), "Healthy");
}

#[test]
fn new_status_is_unknown_and_empty() {
    let svc = dc_service(vec![container("web", "nginx")]);
    let st = ServiceStatus::new(&svc);
    assert_eq!(st.status, StatusEnum::Unknown);
    assert!(st.containers_status.is_empty());
    assert_eq!(st.service.name, "blog");
}

#[test]
fn update_matches_slash_prefixed_names() {
    let svc = dc_service(vec![container("web", "nginx"), container("db", "postgres")]);
    let docker = vec![
        listed("id-db", &["/db"], "Up 3 hours (healthy)"),
        listed("id-web", &["/web"], "Up 3 hours"),
        listed("id-other", &["/other"], "Exited (0)"),
    ];
    let st = ServiceStatus::new_and_update(&svc, &docker);
    assert_eq!(st.containers_status.len(), 2);
    let c0: &ContainerStatus = &st.containers_status[0];
    assert_eq!((c0.name.as_str(), c0.image.as_str(), c0.status, c0.id.as_str()), ("web", "nginx", StatusEnum::Up, "id-web"));
    let c1 = &st.containers_status[1];
    assert_eq!((c1.name.as_str(), c1.image.as_str(), c1.status, c1.id.as_str()), ("db", "postgres", StatusEnum::Healthy, "id-db"));
    assert_eq!(st.status, StatusEnum::Up);
}

#[test]
fn missing_container_is_not_found_and_service_unknown() {
    let svc = dc_service(vec![container("web", "nginx"), container("cache", "redis")]);
    let docker = vec![listed("id-web", &["/web"], "Up 1 minute")];
    let st = ServiceStatus::new_and_update(&svc, &docker);
    assert_eq!(st.containers_status[1].status, StatusEnum::NotFound);
    assert_eq!(st.containers_status[1].id, "");
    assert_eq!(st.status, StatusEnum::Unknown);
}

#[test]
fn exited_container_makes_service_unhealthy() {
    let svc = dc_service(vec![container("web", "nginx"), container("db", "postgres")]);
    let docker = vec![listed("a", &["/web"], "Up 1 minute"), listed("b", &["/db"], "Exited (137) 2 minutes ago")];
    let mut st = ServiceStatus::new(&svc);
    st.update_status(&docker);
    assert_eq!(st.containers_status[1].status, StatusEnum::Exited);
    assert_eq!(st.status, StatusEnum::Unhealthy);
}

#[test]
fn first_failing_container_decides() {
    let svc = dc_service(vec![container("a", ""), container("b", ""), container("c", "")]);
    // "b" is missing (Unknown overall) before "c" which exited.
    let docker = vec![listed("1", &["/a"], "Up"), listed("3", &["/c"], "Exited (1)")];
    let st = ServiceStatus::new_and_update(&svc, &docker);
    assert_eq!(st.status, StatusEnum::Unknown);
    // With "c" first, the exit decides.
    let svc2 = dc_service(vec![container("c", ""), container("b", "")]);
    let st2 = ServiceStatus::new_and_update(&svc2, &docker);
    assert_eq!(st2.status, StatusEnum::Unhealthy);
}

#[test]
fn unhealthy_only_status_makes_service_unhealthy() {
    let svc = dc_service(vec![container("a", "")]);
    let docker = vec![listed("1", &["/a"], "unhealthy")];
    let st = ServiceStatus::new_and_update(&svc, &docker);
    assert_eq!(st.status, StatusEnum::Unhealthy);
}

#[test]
fn service_without_containers_is_up() {
    let svc = dc_service(vec![]);
    let st = ServiceStatus::new_and_update(&svc, &vec![]);
    assert_eq!(st.status, StatusEnum::Up);
    assert!(st.containers_status.is_empty());
}

#[test]
fn last_listed_container_wins_and_unprefixed_names_match() {
    let svc = dc_service(vec![container("web", "nginx")]);
    let docker = vec![
        listed("old", &["/web"], "Exited (0)"),
        DockerContainer { id: None, names: None, status: Some("Up".to_string()) },
        listed("new", &["web"], "Up 2 seconds"),
    ];
    let st = ServiceStatus::new_and_update(&svc, &docker);
    assert_eq!(st.containers_status[0].id, "new");
    assert_eq!(st.containers_status[0].status, StatusEnum::Up);
}

#[test]
fn missing_fields_default_to_empty() {
    let svc = dc_service(vec![container("web", "nginx")]);
    let docker = vec![DockerContainer { id: None, names: Some(vec!["/web".to_string()]), status: None }];
    let st = ServiceStatus::new_and_update(&svc, &docker);
    assert_eq!(st.containers_status[0].id, "");
    assert_eq!(st.containers_status[0].status, StatusEnum::Unknown);
    assert_eq!(st.status, StatusEnum::Unknown);
}

#[test]
fn only_one_slash_is_stripped() {
    let svc = dc_service(vec![container("web", "nginx")]);
    let docker = vec![listed("x", &["//web"], "Up")];
    let st = ServiceStatus::new_and_update(&svc, &docker);
    assert_eq!(st.containers_status[0].status, StatusEnum::NotFound);
}

#[test]
fn pretty_print_lines() {
    let svc = dc_service(vec![container("web", "nginx"), container("db", "postgres")]);
    let docker = vec![listed("1", &["/web"], "Up 1 minute")];
    let st = ServiceStatus::new_and_update(&svc, &docker);
    assert_eq!(st.pretty_print_containers(), vec!["web: Up".to_string(), "db: Not Found".to_string()]);
    assert_eq!(st.pretty_print(), "Service: blog, Status: Unknown, Containers: 2");
}

#[test]
fn pretty_print_new_status() {
    let svc = dc_service(vec![container("web", "nginx")]);
    let st = ServiceStatus::new(&svc);
    assert!(st.pretty_print_containers().is_empty());
    assert_eq!(st.pretty_print(), "Service: blog, Status: Unknown, Containers: 0");
}

#[test]
fn marks_and_tones() {
    assert_eq!(service_mark(StatusEnum::Up), ("✅", Tone::Green));
    assert_eq!(service_mark(StatusEnum::Unhealthy), ("🛑", Tone::Red));
    assert_eq!(service_mark(StatusEnum::Unknown), ("⚠️", Tone::Yellow));
    assert_eq!(service_mark(StatusEnum::Exited), ("❌", Tone::Red));
    assert_eq!(service_mark(StatusEnum::Healthy), ("❓", Tone::Dim));
    assert_eq!(service_tone(StatusEnum::Healthy), Tone::Green);
    assert_eq!(service_tone(StatusEnum::NotFound), Tone::Dim);
    assert_eq!(container_mark(StatusEnum::Healthy), ("▶", Tone::Green));
    assert_eq!(container_mark(StatusEnum::Exited), ("■", Tone::Red));
    assert_eq!(container_mark(StatusEnum::Unknown), ("●", Tone::Dim));
    assert_eq!(container_tone(StatusEnum::Unhealthy), Tone::Red);
    assert_eq!(container_tone(StatusEnum::Unknown), Tone::Yellow);
    assert_eq!(container_tone(StatusEnum::NotFound), Tone::Dim);
}

#[test]
fn display_text_reads_back() {
    for v in [
        StatusEnum::Up,
        StatusEnum::Exited,
        StatusEnum::Unhealthy,
        StatusEnum::NotFound,
        StatusEnum::Unknown,
        StatusEnum::Healthy,
    ] {
        assert_eq!(StatusEnum::from(v.to_string()), v);
    }
}

#[test]
fn case_is_ignored_for_ascii() {
    assert_eq!(StatusEnum::from("EXITED (0)".to_string()), StatusEnum::from("exited (0)".to_string()));
    assert_eq!(StatusEnum::from("uP 1 MiNuTe".to_string()), StatusEnum::Up);
}
