use polypus::config::compose::{DockerCompose, Service};
use polypus::config::{ConfigStep, Container, DCService, PolypusConfig};

fn service(image: Option<&str>, container_name: Option<&str>) -> Service {
    Service {
        image: image.map(|s| s.to_string()),
        build: None,
        ports: vec![],
        environment: None,
        volumes: vec![],
        depends_on: vec![],
        command: None,
        container_name: container_name.map(|s| s.to_string()),
        restart: None,
        networks: vec![],
    }
}

#[test]
fn new_from_dc_one_container_per_service() {
    let compose = DockerCompose {
        version: None,
        services: vec![
            ("db".to_string(), service(Some("postgres:16"), Some("blog-db"))),
            ("app".to_string(), service(None, None)),
        ],
        networks: None,
        volumes: None,
    };
    let s = DCService::new_from_dc("blog".to_string(), "/srv/blog/docker-compose.yml".to_string(), &compose);
    assert_eq!(s.name, "blog");
    assert_eq!(s.config_path, "/srv/blog/docker-compose.yml");
    assert!(!s.folder_is_config);
    assert_eq!(s.kind, "docker-compose");
    let cs: Vec<(String, String, String)> =
        s.containers.iter().map(|c| (c.id.clone(), c.name.clone(), c.image.clone())).collect();
    assert_eq!(
        cs,
        vec![
            ("".to_string(), "blog-db".to_string(), "postgres:16".to_string()),
            ("".to_string(), "app".to_string(), "".to_string()),
        ]
    );
}

#[test]
fn new_from_dc_empty_compose() {
    let compose = DockerCompose { version: None, services: vec![], networks: None, volumes: None };
    let s = DCService::new_from_dc("x".to_string(), "p".to_string(), &compose);
    assert!(s.containers.is_empty());
}

#[test]
fn new_from_path_steps() {
    let (c, step) = PolypusConfig::new_from_path("/tmp/a.json".to_string(), false);
    assert_eq!(step, ConfigStep::WriteFile);
    assert_eq!(c.metadata, "Polypus Config");
    assert_eq!(c.path, "/tmp/a.json");
    assert!(c.registered.is_empty());
    let (c2, step2) = PolypusConfig::new_from_path("/tmp/b.json".to_string(), true);
    assert_eq!(step2, ConfigStep::LoadFile);
    assert_eq!(c2.path, "/tmp/b.json");
    assert!(c2.registered.is_empty());
}

#[test]
fn register_appends() {
    let (mut c, _) = PolypusConfig::new_from_path("/tmp/c.json".to_string(), false);
    let mk = |n: &str| DCService {
        name: n.to_string(),
        config_path: String::new(),
        containers: vec![Container { id: String::new(), name: "x".to_string(), image: String::new() }],
        folder_is_config: false,
        kind: "docker-compose".to_string(),
    };
    c.register(mk("one"));
    c.register(mk("two"));
    let names: Vec<&str> = c.registered.iter().map(|s| s.name.as_str()).collect();
    assert_eq!(names, vec!["one", "two"]);
    assert_eq!(c.path, "/tmp/c.json");
    assert_eq!(c.metadata, "Polypus Config");
}
