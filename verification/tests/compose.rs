use polypus::config::compose::{BuildConfig, DockerCompose, Environment, Network, Service, Volume};

fn service(image: Option<&str>, container_name: Option<&str>, depends_on: &[&str], ports: &[&str]) -> Service {
    Service {
        image: image.map(|s| s.to_string()),
        build: None,
        ports: ports.iter().map(|s| s.to_string()).collect(),
        environment: None,
        volumes: vec![],
        depends_on: depends_on.iter().map(|s| s.to_string()).collect(),
        command: None,
        container_name: container_name.map(|s| s.to_string()),
        restart: None,
        networks: vec![],
    }
}

fn sample() -> DockerCompose {
    DockerCompose {
        version: Some("3.8".to_string()),
        services: vec![
            ("db".to_string(), service(Some("postgres:16"), Some("app-db"), &[], &[])),
            ("api".to_string(), service(Some("api:latest"), None, &["db"], &["8080:8080"])),
            ("web".to_string(), service(None, None, &["api", "db"], &["80:80", "443:443"])),
        ],
        networks: Some(vec![("front".to_string(), Network { driver: Some("bridge".to_string()), external: None })]),
        volumes: Some(vec![("data".to_string(), Volume { driver: None, external: Some(true) })]),
    }
}

#[test]
fn service_names_in_order() {
    let c = sample();
    let names: Vec<String> = c.service_names().into_iter().cloned().collect();
    assert_eq!(names, vec!["db", "api", "web"]);
}

#[test]
fn service_names_empty_file() {
    let c = DockerCompose { version: None, services: vec![], networks: None, volumes: None };
    assert!(c.service_names().is_empty());
}

#[test]
fn get_service_found_and_missing() {
    let c = sample();
    let api = c.get_service("api").expect("api is there");
    assert_eq!(api.image.as_deref(), Some("api:latest"));
    assert!(c.get_service("cache").is_none());
    assert!(c.get_service("").is_none());
    assert!(c.get_service("ap").is_none());
}

#[test]
fn get_service_takes_first_entry_of_a_name() {
    let mut c = sample();
    c.services.push(("api".to_string(), service(Some("other"), None, &[], &[])));
    assert_eq!(c.get_service("api").unwrap().image.as_deref(), Some("api:latest"));
}

#[test]
fn get_dependents_lists_each_dependent() {
    let c = sample();
    let deps: Vec<String> = c.get_dependents("db").into_iter().cloned().collect();
    assert_eq!(deps, vec!["api", "web"]);
    let deps: Vec<String> = c.get_dependents("api").into_iter().cloned().collect();
    assert_eq!(deps, vec!["web"]);
    assert!(c.get_dependents("web").is_empty());
    assert!(c.get_dependents("nothing").is_empty());
}

#[test]
fn services_with_ports_filters() {
    let c = sample();
    let with: Vec<(String, usize)> = c
        .services_with_ports()
        .into_iter()
        .map(|(n, s)| (n.clone(), s.ports.len()))
        .collect();
    assert_eq!(with, vec![("api".to_string(), 1), ("web".to_string(), 2)]);
}

#[test]
fn uses_image_and_has_build() {
    let mut s = service(Some("nginx"), None, &[], &[]);
    assert!(s.uses_image());
    assert!(!s.has_build());
    s.image = None;
    s.build = Some(BuildConfig::Simple(".".to_string()));
    assert!(!s.uses_image());
    assert!(s.has_build());
    s.build = Some(BuildConfig::Detailed { context: "./app".to_string(), dockerfile: None, args: None });
    assert!(s.has_build());
}

fn env_of(s: &Service) -> Vec<(String, String)> {
    let mut v = s.get_env_map();
    v.sort();
    v
}

fn pair(k: &str, v: &str) -> (String, String) {
    (k.to_string(), v.to_string())
}

#[test]
fn env_map_none_is_empty() {
    let s = service(None, None, &[], &[]);
    assert!(s.get_env_map().is_empty());
}

#[test]
fn env_map_from_mapping_is_copied() {
    let mut s = service(None, None, &[], &[]);
    s.environment = Some(Environment::Mapping(vec![pair("A", "1"), pair("B", "x=y")]));
    assert_eq!(s.get_env_map(), vec![pair("A", "1"), pair("B", "x=y")]);
}

#[test]
fn env_map_from_list_splits_at_first_equals() {
    let mut s = service(None, None, &[], &[]);
    s.environment = Some(Environment::List(vec![
        "A=1".to_string(),
        "URL=postgres://u:p@h/db?x=1".to_string(),
        "NOVALUE".to_string(),
        "EMPTY=".to_string(),
        "=nokey".to_string(),
    ]));
    assert_eq!(
        env_of(&s),
        vec![pair("", "nokey"), pair("A", "1"), pair("EMPTY", ""), pair("URL", "postgres://u:p@h/db?x=1")]
    );
}

#[test]
fn env_map_later_item_wins() {
    let mut s = service(None, None, &[], &[]);
    s.environment = Some(Environment::List(vec!["A=1".to_string(), "B=2".to_string(), "A=3".to_string()]));
    assert_eq!(env_of(&s), vec![pair("A", "3"), pair("B", "2")]);
}

#[test]
fn env_map_non_ascii() {
    let mut s = service(None, None, &[], &[]);
    s.environment = Some(Environment::List(vec!["GRÜß=é=è".to_string()]));
    assert_eq!(env_of(&s), vec![pair("GRÜß", "é=è")]);
}

#[test]
fn env_list_and_mapping_agree() {
    let pairs = vec![pair("DB", "postgres://x"), pair("MODE", "a=b"), pair("EMPTY", "")];
    let mut listed = service(None, None, &[], &[]);
    listed.environment =
        Some(Environment::List(vec!["MODE=a=b".to_string(), "EMPTY=".to_string(), "DB=postgres://x".to_string()]));
    let mut mapped = service(None, None, &[], &[]);
    mapped.environment = Some(Environment::Mapping(pairs.clone()));
    let mut expected = pairs;
    expected.sort();
    assert_eq!(env_of(&listed), expected);
    assert_eq!(env_of(&mapped), expected);
}

#[test]
fn unique_names_give_no_duplicates() {
    let c = sample();
    let mut names: Vec<String> = c.service_names().into_iter().cloned().collect();
    names.dedup();
    assert_eq!(names.len(), 3);
    let deps: Vec<String> = c.get_dependents("db").into_iter().cloned().collect();
    assert_eq!(deps.len(), 2);
    assert_ne!(deps[0], deps[1]);
}
