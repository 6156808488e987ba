use cryptenv::cipher::DecryptError;
use cryptenv::cipher::EncryptionKey;
use cryptenv::config::Config;
use cryptenv::config::ProjectConfig;
use cryptenv::config::ProjectValue;
use cryptenv::project::Format;
use cryptenv::project::Missing;
use cryptenv::project::Project;
use cryptenv::shell::push_assignment;
use cryptenv::shell::Shell;
use cryptenv::store::Store;
use cryptenv::store::StoreError;
use cryptenv::table::Table;

fn key() -> EncryptionKey {
    EncryptionKey::from_bytes(&[11u8; 32]).expect("32 bytes")
}

fn vars(pairs: &[(&str, &str)]) -> Table<String> {
    let mut table = Table::new();
    for (name, secret) in pairs {
        table.insert(name.to_string(), secret.to_string());
    }
    table
}

fn names(list: &[&str]) -> Vec<String> {
    list.iter().map(|s| s.to_string()).collect()
}

fn config() -> Config {
    let mut profiles = Table::new();
    profiles.insert("aws".to_string(), vars(&[("AWS_KEY", "aws_key"), ("REGION", "region")]));
    profiles.insert("unused".to_string(), vars(&[("SPARE", "spare")]));
    let mut projects = Table::new();
    projects.insert(
        "svc".to_string(),
        ProjectValue::Config(ProjectConfig { profiles: vec![], vars: vars(&[("DB_URL", "db_secret")]) }),
    );
    projects.insert(
        "web".to_string(),
        ProjectValue::Config(ProjectConfig {
            profiles: names(&["aws"]),
            vars: vars(&[("TOKEN", "token"), ("DB_URL", "web_db")]),
        }),
    );
    Config::new(names(&["/work"]), profiles, projects)
}

fn store() -> Store {
    let mut store = Store::new();
    store.add("db_secret".to_string(), "postgres://...", &mut key());
    store.add("token".to_string(), "t0k3n", &mut key());
    store.add("web_db".to_string(), "mysql://web", &mut key());
    store.add("aws_key".to_string(), "AKIA", &mut key());
    store
}

#[test]
fn statements_for_each_shell() {
    let mut zsh = String::from("# ");
    Shell::Zsh.push_export(&mut zsh, "A", "1");
    Shell::Zsh.push_unset(&mut zsh, "B");
    assert_eq!(zsh, "# export A=1\nunset B\n");
    let mut fish = String::new();
    Shell::Fish.push_export(&mut fish, "A", "1");
    Shell::Fish.push_unset(&mut fish, "B");
    assert_eq!(fish, "set -gx A 1;\nset -ge B;\n");
    let mut plain = String::new();
    push_assignment(&mut plain, "A", "x=y");
    assert_eq!(plain, "A=x=y\n");
}

#[test]
fn load_from_the_project_directory_sets_its_variables_and_unsets_the_others() {
    let config = config();
    let project = Project::get_from_cwd(&config, None, "/work/svc").expect("in a project");
    let mut used = key();
    let script = project.load(&config, &store(), Shell::Zsh, &mut used).expect("all secrets open");
    assert_eq!(
        script,
        "unset TOKEN\nunset AWS_KEY\nunset REGION\nunset SPARE\n\nexport DB_URL=postgres://...\n\n"
    );
    assert_eq!(used.as_bytes(), &[0u8; 32]);
}

#[test]
fn load_for_fish() {
    let config = config();
    let project = Project::get_by_name("svc", &config).expect("declared");
    let script = project.load(&config, &store(), Shell::Fish, &mut key()).expect("opens");
    assert_eq!(
        script,
        "set -ge TOKEN;\nset -ge AWS_KEY;\nset -ge REGION;\nset -ge SPARE;\n\nset -gx DB_URL postgres://...;\n\n"
    );
}

#[test]
fn outside_any_project_everything_is_unset() {
    let config = config();
    assert!(Project::get_from_cwd(&config, None, "/elsewhere").is_none());
    assert!(Project::get_from_cwd(&config, None, "/work/undeclared").is_none());
    let script = Project::default().load(&config, &store(), Shell::Zsh, &mut key()).expect("nothing to open");
    assert_eq!(script, "unset DB_URL\nunset TOKEN\nunset AWS_KEY\nunset REGION\nunset SPARE\n\n\n");
    assert_eq!(
        config.unset(Shell::Zsh, &Project::default()),
        "unset DB_URL\nunset TOKEN\nunset AWS_KEY\nunset REGION\nunset SPARE\n"
    );
}

#[test]
fn to_shell_writes_the_variables_in_order() {
    let mut store = store();
    store.add("region".to_string(), "eu-west-1", &mut key());
    let project = Project::get_by_name("web", &config()).expect("declared");
    assert_eq!(
        project.to_shell(&store, Shell::Zsh, &mut key()),
        Ok("export TOKEN=t0k3n\nexport DB_URL=mysql://web\nexport AWS_KEY=AKIA\nexport REGION=eu-west-1\n"
            .to_string())
    );
    assert_eq!(
        project.export(&store, &mut key()),
        Ok("TOKEN=t0k3n\nDB_URL=mysql://web\nAWS_KEY=AKIA\nREGION=eu-west-1\n".to_string())
    );
    assert_eq!(
        project.render(&store, &key(), Format::Export(Shell::Fish)),
        Ok("set -gx TOKEN t0k3n;\nset -gx DB_URL mysql://web;\nset -gx AWS_KEY AKIA;\nset -gx REGION eu-west-1;\n"
            .to_string())
    );
}

#[test]
fn the_first_secret_that_cannot_be_had_is_reported() {
    let project = Project::get_by_name("web", &config()).expect("declared");
    let mut used = key();
    assert_eq!(
        project.to_shell(&store(), Shell::Zsh, &mut used),
        Err(Missing { secret: "region".to_string(), error: StoreError::NotFound })
    );
    assert_eq!(used.as_bytes(), &[0u8; 32]);
    let mut other = EncryptionKey::from_bytes(&[12u8; 32]).expect("32 bytes");
    assert_eq!(
        project.load(&config(), &store(), Shell::Zsh, &mut other),
        Err(Missing { secret: "token".to_string(), error: StoreError::Decrypt(DecryptError::Crypto) })
    );
    assert_eq!(other.as_bytes(), &[0u8; 32]);
}

#[test]
fn a_named_project_takes_precedence_over_the_directory() {
    let config = config();
    let named = Project::get_current_or_named(Some("web"), &config, None, "/work/svc").expect("declared");
    assert_eq!(named.keys(), names(&["TOKEN", "DB_URL", "AWS_KEY", "REGION"]));
    let current = Project::get_current_or_named(None, &config, None, "/work/svc/src").expect("in svc");
    assert_eq!(current.keys(), names(&["DB_URL"]));
    assert!(Project::get_current_or_named(Some("nope"), &config, None, "/work/svc").is_none());
    assert!(Project::get_current_or_named(None, &config, None, "/work").is_none());
}
