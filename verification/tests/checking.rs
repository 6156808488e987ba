use cryptenv::check::check;
use cryptenv::check::Finding;
use cryptenv::config::Config;
use cryptenv::config::ProjectConfig;
use cryptenv::config::ProjectValue;
use cryptenv::store::Store;
use cryptenv::table::Table;

fn vars(pairs: &[(&str, &str)]) -> Table<String> {
    let mut table = Table::new();
    for (name, secret) in pairs {
        table.insert(name.to_string(), secret.to_string());
    }
    table
}

fn names(list: &[&str]) -> Vec<String> {
    list.iter().map(|s| s.to_string()).collect()
}

fn store_with(secrets: &[&str]) -> Store {
    let mut store = Store::new();
    for secret in secrets {
        store.add_sealed(secret.to_string(), "blob".to_string());
    }
    store
}

fn missing(project: &str, secret: &str, profile: Option<&str>) -> Finding {
    Finding::MissingSecret {
        project: project.to_string(),
        secret: secret.to_string(),
        origin: profile.map(String::from),
    }
}

fn config() -> Config {
    let mut profiles = Table::new();
    profiles.insert("base".to_string(), vars(&[("A", "a_from_base"), ("B", "b_from_base")]));
    profiles.insert("extra".to_string(), vars(&[("B", "b_from_extra"), ("C", "c_from_extra")]));
    let mut projects = Table::new();
    projects.insert(
        "one".to_string(),
        ProjectValue::Config(ProjectConfig { profiles: names(&["base", "extra"]), vars: vars(&[("A", "a_own")]) }),
    );
    projects.insert("two".to_string(), ProjectValue::Profiles(names(&["extra", "ghost"])));
    Config::new(vec![], profiles, projects)
}

#[test]
fn one_missing_secret_gives_exactly_one_finding() {
    let mut projects = Table::new();
    projects.insert(
        "svc".to_string(),
        ProjectValue::Config(ProjectConfig { profiles: vec![], vars: vars(&[("DB_URL", "db_secret")]) }),
    );
    let config = Config::new(vec![], Table::new(), projects);
    assert_eq!(check(&config, &Store::new()), vec![missing("svc", "db_secret", None)]);
    assert_eq!(check(&config, &store_with(&["db_secret"])), vec![]);
}

#[test]
fn a_store_that_satisfies_every_project_gives_no_finding() {
    let mut projects = Table::new();
    projects.insert(
        "one".to_string(),
        ProjectValue::Config(ProjectConfig { profiles: names(&["p"]), vars: vars(&[("A", "a")]) }),
    );
    let mut profiles = Table::new();
    profiles.insert("p".to_string(), vars(&[("A", "shadowed"), ("B", "b")]));
    let config = Config::new(vec![], profiles, projects);
    assert_eq!(check(&config, &store_with(&["a", "b"])), vec![]);
}

#[test]
fn findings_name_the_profile_that_a_binding_comes_from() {
    assert_eq!(
        check(&config(), &Store::new()),
        vec![
            missing("one", "a_own", None),
            missing("one", "b_from_base", Some("base")),
            missing("one", "c_from_extra", Some("extra")),
            missing("two", "b_from_extra", Some("extra")),
            missing("two", "c_from_extra", Some("extra")),
            Finding::MissingProfile { project: "two".to_string(), profile: "ghost".to_string() },
        ]
    );
}

#[test]
fn only_the_missing_secrets_are_found() {
    assert_eq!(
        check(&config(), &store_with(&["a_own", "b_from_base", "b_from_extra"])),
        vec![
            missing("one", "c_from_extra", Some("extra")),
            missing("two", "c_from_extra", Some("extra")),
            Finding::MissingProfile { project: "two".to_string(), profile: "ghost".to_string() },
        ]
    );
}

#[test]
fn shadowed_bindings_are_not_checked() {
    let found = check(&config(), &store_with(&["a_own", "b_from_base", "c_from_extra"]));
    assert_eq!(
        found,
        vec![
            missing("two", "b_from_extra", Some("extra")),
            Finding::MissingProfile { project: "two".to_string(), profile: "ghost".to_string() },
        ]
    );
}

#[test]
fn no_projects_no_findings() {
    assert_eq!(check(&Config::new(vec![], Table::new(), Table::new()), &Store::new()), vec![]);
}
