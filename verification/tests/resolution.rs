use cryptenv::config::Config;
use cryptenv::config::ProjectConfig;
use cryptenv::config::ProjectValue;
use cryptenv::project::Project;
use cryptenv::table::Table;

fn vars(pairs: &[(&str, &str)]) -> Table<String> {
    let mut table = Table::new();
    for (name, secret) in pairs {
        table.insert(name.to_string(), secret.to_string());
    }
    table
}

fn names(list: &[&str]) -> Vec<String> {
    list.iter().map(|s| s.to_string()).collect()
}

fn pairs(project: Project) -> Vec<(String, String)> {
    let table = project.into_inner();
    (0..table.len())
        .map(|i| (table.name_at(i).to_string(), table.value_at(i).clone()))
        .collect()
}

fn sample() -> Config {
    let mut profiles = Table::new();
    profiles.insert("base".to_string(), vars(&[("A", "Y"), ("B", "Z")]));
    profiles.insert("extra".to_string(), vars(&[("B", "W"), ("C", "V")]));
    let mut projects = Table::new();
    projects.insert(
        "P".to_string(),
        ProjectValue::Config(ProjectConfig { profiles: names(&["base", "extra"]), vars: vars(&[("A", "X")]) }),
    );
    projects.insert("bare".to_string(), ProjectValue::Profiles(names(&["extra", "base"])));
    projects.insert(
        "dangling".to_string(),
        ProjectValue::Config(ProjectConfig {
            profiles: names(&["nope", "base", "gone"]),
            vars: vars(&[("K", "S")]),
        }),
    );
    Config::new(names(&["/home/foo"]), profiles, projects)
}

#[test]
fn direct_bindings_win_and_earlier_profiles_win() {
    let project = Project::get_by_name("P", &sample()).expect("declared");
    assert_eq!(
        pairs(project),
        vec![
            ("A".to_string(), "X".to_string()),
            ("B".to_string(), "Z".to_string()),
            ("C".to_string(), "V".to_string()),
        ]
    );
}

#[test]
fn bare_profile_list_is_a_project_without_bindings() {
    let project = Project::get_by_name("bare", &sample()).expect("declared");
    assert_eq!(
        pairs(project),
        vec![
            ("B".to_string(), "W".to_string()),
            ("C".to_string(), "V".to_string()),
            ("A".to_string(), "Y".to_string()),
        ]
    );
}

#[test]
fn unknown_project_is_none() {
    assert!(Project::get_by_name("missing", &sample()).is_none());
    assert!(Project::from_project_config("p", &sample()).is_none());
}

#[test]
fn unknown_profiles_are_warnings_and_add_nothing() {
    let project = Project::get_by_name("dangling", &sample()).expect("declared");
    assert_eq!(project.warnings(), &names(&["nope", "gone"]));
    assert_eq!(project.keys(), names(&["K", "A", "B"]));
    assert_eq!(project.variables(), names(&["S", "Y", "Z"]));
    assert!(project.binds("A"));
    assert!(!project.binds("C"));
}

#[test]
fn known_profiles_give_no_warning() {
    let project = Project::get_by_name("P", &sample()).expect("declared");
    assert!(project.warnings().is_empty());
}

#[test]
fn default_project_is_empty() {
    let project = Project::default();
    assert!(project.keys().is_empty());
    assert!(project.warnings().is_empty());
}

#[test]
fn project_config_lookup_normalizes_both_forms() {
    let config = sample();
    let full = config.get_project_config("P").expect("declared");
    assert_eq!(full.profiles, names(&["base", "extra"]));
    assert_eq!(full.vars.get("A"), Some(&"X".to_string()));
    let bare = config.get_project_config("bare").expect("declared");
    assert_eq!(bare.profiles, names(&["extra", "base"]));
    assert_eq!(bare.vars.len(), 0);
    assert!(config.get_project_config("base").is_none());
}

#[test]
fn all_project_configs_come_in_declared_order() {
    let configs = sample().get_project_configs();
    assert_eq!(configs.len(), 3);
    assert_eq!(configs.name_at(0), "P");
    assert_eq!(configs.name_at(1), "bare");
    assert_eq!(configs.name_at(2), "dangling");
    assert_eq!(configs.value_at(1).vars.len(), 0);
    assert_eq!(configs.value_at(2).profiles, names(&["nope", "base", "gone"]));
}

#[test]
fn profiles_are_found_by_name() {
    let config = sample();
    let extra = config.get_profile("extra").expect("declared");
    assert_eq!(extra.get("C"), Some(&"V".to_string()));
    assert!(config.get_profile("P").is_none());
    assert_eq!(config.get_profiles().len(), 2);
}

#[test]
fn known_variable_names_come_once_each() {
    assert_eq!(sample().variable_names(), names(&["A", "K", "B", "C"]));
}

#[test]
fn table_insert_keeps_the_place_of_a_known_name() {
    let mut table = vars(&[("A", "1"), ("B", "2")]);
    table.insert("A".to_string(), "3".to_string());
    table.insert("C".to_string(), "4".to_string());
    assert_eq!(table.len(), 3);
    assert_eq!(table.name_at(0), "A");
    assert_eq!(table.value_at(0), "3");
    assert_eq!(table.find("C"), 2);
    assert_eq!(table.find("Z"), 3);
    assert!(table.contains("B"));
    assert_eq!(table.clone().get("B"), Some(&"2".to_string()));
}
