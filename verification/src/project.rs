//! The variables of one project: its own bindings merged with those of the
//! profiles it refers to.

use vstd::prelude::*;
use crate::config::BindingView;
use crate::config::Config;
use crate::config::ConfigView;
use crate::config::VarsView;
use crate::cipher::EncryptionKey;
use crate::config::decided;
use crate::config::expanded_all;
use crate::config::optional_str;
use crate::config::is_expansion;
use crate::config::known_variables;
use crate::config::unset_text;
use crate::path::project_dir;
use crate::path::resolve_project_dir;
use crate::shell::assignment_line;
use crate::shell::export_line;
use crate::shell::push_assignment;
use crate::shell::Shell;
use crate::store::opened_secret;
use crate::store::Store;
use crate::store::StoreError;
use crate::store::StoreFailure;
use crate::table::has_name;
use crate::table::lookup;
use crate::table::names_of;
use crate::table::texts;
use crate::table::values_of;
use crate::table::Table;

verus! {

/// `vars`, followed by the bindings of `extra` whose variable is not bound
/// yet: what is bound stays as it is.
pub open spec fn merge_missing(vars: VarsView, extra: VarsView) -> VarsView
    decreases extra.len(),
{
    if extra.len() == 0 {
        vars
    } else {
        let before = merge_missing(vars, extra.drop_last());
        if has_name(before, extra.last().0) {
            before
        } else {
            before.push(extra.last())
        }
    }
}

/// `vars` after the profiles in `listed` were merged in, one after the other
/// in the order listed. A name that is no profile's adds nothing.
pub open spec fn merge_profiles(
    vars: VarsView,
    listed: Seq<Seq<char>>,
    profiles: Seq<(Seq<char>, VarsView)>,
) -> VarsView
    decreases listed.len(),
{
    if listed.len() == 0 {
        vars
    } else {
        let before = merge_profiles(vars, listed.drop_last(), profiles);
        match lookup(profiles, listed.last()) {
            Some(extra) => merge_missing(before, extra),
            None => before,
        }
    }
}

/// The variables of a project with the given bindings.
pub open spec fn resolved(binding: BindingView, profiles: Seq<(Seq<char>, VarsView)>) -> VarsView {
    merge_profiles(binding.vars, binding.profiles, profiles)
}

/// The variables of the project called `name`: none where no such project is
/// declared.
pub open spec fn resolve(config: ConfigView, name: Seq<char>) -> Option<VarsView> {
    match lookup(config.projects, name) {
        Some(binding) => Some(resolved(binding, config.profiles)),
        None => None,
    }
}

/// The names in `listed`, in order, that are no profile's.
pub open spec fn unknown_profiles(
    listed: Seq<Seq<char>>,
    profiles: Seq<(Seq<char>, VarsView)>,
) -> Seq<Seq<char>>
    decreases listed.len(),
{
    if listed.len() == 0 {
        Seq::empty()
    } else {
        let before = unknown_profiles(listed.drop_last(), profiles);
        if has_name(profiles, listed.last()) {
            before
        } else {
            before.push(listed.last())
        }
    }
}

/// The names that a project refers to and that are no profile's: none where no
/// such project is declared.
pub open spec fn unresolved(config: ConfigView, name: Seq<char>) -> Option<Seq<Seq<char>>> {
    match lookup(config.projects, name) {
        Some(binding) => Some(unknown_profiles(binding.profiles, config.profiles)),
        None => None,
    }
}

/// What a project is: its variables, each bound to the name of a secret, and
/// the names it refers to that are no profile's.
pub struct ProjectView {
    pub vars: VarsView,
    pub unknown: Seq<Seq<char>>,
}

/// The project called `name`: none where no such project is declared.
pub open spec fn declared_project(config: ConfigView, name: Seq<char>) -> Option<ProjectView> {
    match (resolve(config, name), unresolved(config, name)) {
        (Some(vars), Some(unknown)) => Some(ProjectView { vars, unknown }),
        _ => None,
    }
}

/// The project that the directory `cwd` lies in, given the expanded roots:
/// none where `cwd` lies in no project, or in one that is not declared.
pub open spec fn project_at(config: ConfigView, roots: Seq<Seq<char>>, cwd: Seq<char>) -> Option<
    ProjectView,
> {
    match project_dir(roots, cwd) {
        Some(name) => declared_project(config, name),
        None => None,
    }
}

/// What an optional project is.
pub open spec fn optional_project(project: Option<Project>) -> Option<ProjectView> {
    match project {
        Some(p) => Some(p@),
        None => None,
    }
}

/// How the variables of a project are written out.
#[derive(Clone, Copy, Debug, PartialEq, Eq, Structural)]
pub enum Format {
    /// One statement of the shell for each variable.
    Export(Shell),
    /// One line `name=value` for each variable.
    Assignment,
}

/// The line for one variable.
pub open spec fn variable_line(format: Format, name: Seq<char>, value: Seq<char>) -> Seq<char> {
    match format {
        Format::Export(shell) => export_line(shell, name, value),
        Format::Assignment => assignment_line(name, value),
    }
}

/// The secret that could not be had, and why.
#[derive(Debug, PartialEq, Eq)]
pub struct Missing {
    pub secret: String,
    pub error: StoreError,
}

/// What writing out `vars` gives: a line for each variable with the opened
/// value of its secret, in order; or the first secret that cannot be had.
pub open spec fn rendered(
    format: Format,
    vars: VarsView,
    store: VarsView,
    key: Seq<u8>,
) -> Result<Seq<char>, (Seq<char>, StoreFailure)>
    decreases vars.len(),
{
    if vars.len() == 0 {
        Ok(Seq::empty())
    } else {
        match rendered(format, vars.drop_last(), store, key) {
            Err(missing) => Err(missing),
            Ok(before) => match opened_secret(store, key, vars.last().1) {
                Ok(value) => Ok(before + variable_line(format, vars.last().0, value)),
                Err(error) => Err((vars.last().1, error)),
            },
        }
    }
}

/// `outcome` is what `expected` says, each text by its view.
pub open spec fn renders(
    outcome: Result<String, Missing>,
    expected: Result<Seq<char>, (Seq<char>, StoreFailure)>,
) -> bool {
    match outcome {
        Ok(text) => expected == Ok::<Seq<char>, (Seq<char>, StoreFailure)>(text@),
        Err(missing) => expected == Err::<Seq<char>, (Seq<char>, StoreFailure)>(
            (missing.secret@, missing.error@),
        ),
    }
}

/// What loading a project gives: the statements that remove the variables it
/// does not bind, an empty line, the statements that set its own, and an
/// empty line.
pub open spec fn loaded(
    shell: Shell,
    config: ConfigView,
    vars: VarsView,
    store: VarsView,
    key: Seq<u8>,
) -> Result<Seq<char>, (Seq<char>, StoreFailure)> {
    match rendered(Format::Export(shell), vars, store, key) {
        Err(missing) => Err(missing),
        Ok(exports) => Ok(
            unset_text(shell, known_variables(config), vars) + "\n"@ + exports + "\n"@,
        ),
    }
}

/// Adds to `vars` the bindings of `extra` whose variable is not bound yet.
pub fn add_missing(vars: &mut Table<String>, extra: &Table<String>)
    ensures
        final(vars)@ == merge_missing(old(vars)@, extra@),
{
    let n = extra.len();
    let mut i: usize = 0;
    assert(extra@.take(0) =~= Seq::empty());
    while i < n
        invariant
            i <= n,
            n == extra@.len(),
            vars@ == merge_missing(old(vars)@, extra@.take(i as int)),
        decreases n - i,
    {
        let name = extra.name_at(i);
        assert(extra@.take(i as int + 1).drop_last() =~= extra@.take(i as int));
        if !vars.contains(name) {
            vars.insert(String::from_str(name), extra.value_at(i).clone());
        }
        i += 1;
    }
    assert(extra@.take(n as int) =~= extra@);
}

/// The variables of one project, each bound to the name of a secret, and the
/// names it refers to that are no profile's.
#[derive(Debug)]
pub struct Project {
    vars: Table<String>,
    unknown: Vec<String>,
}

impl View for Project {
    type V = ProjectView;

    closed spec fn view(&self) -> ProjectView {
        ProjectView { vars: self.vars@, unknown: texts(self.unknown@) }
    }
}

impl Default for Project {
    fn default() -> (project: Self)
        ensures
            project@.vars == Seq::<(Seq<char>, Seq<char>)>::empty(),
            project@.unknown == Seq::<Seq<char>>::empty(),
    {
        let project = Project { vars: Table::new(), unknown: Vec::new() };
        assert(texts(project.unknown@) =~= Seq::<Seq<char>>::empty());
        project
    }
}

impl Project {
    /// The project called `name`, if one is declared.
    pub fn get_by_name(name: &str, config: &Config) -> (project: Option<Project>)
        ensures
            project is Some <==> has_name(config@.projects, name@),
            optional_project(project) == declared_project(config@, name@),
    {
        Self::from_project_config(name, config)
    }

    /// The project called `name`, if one is declared: its own bindings come
    /// first, then each profile it lists adds the variables that are not bound
    /// yet.
    pub fn from_project_config(name: &str, config: &Config) -> (project: Option<Project>)
        ensures
            project is Some <==> has_name(config@.projects, name@),
            optional_project(project) == declared_project(config@, name@),
    {
        let binding = match config.get_project_config(name) {
            Some(binding) => binding,
            None => {
                return None;
            },
        };
        let mut vars = binding.vars.clone();
        let mut unknown: Vec<String> = Vec::new();
        let listed = &binding.profiles;
        let n = listed.len();
        let mut i: usize = 0;
        assert(texts(listed@).take(0) =~= Seq::empty());
        assert(texts(unknown@) =~= Seq::<Seq<char>>::empty());
        while i < n
            invariant
                i <= n,
                n == listed@.len(),
                vars@ == merge_profiles(
                    binding@.vars,
                    texts(listed@).take(i as int),
                    config@.profiles,
                ),
                texts(unknown@) == unknown_profiles(
                    texts(listed@).take(i as int),
                    config@.profiles,
                ),
            decreases n - i,
        {
            assert(texts(listed@).take(i as int + 1).drop_last() =~= texts(listed@).take(
                i as int,
            ));
            assert(texts(listed@).take(i as int + 1).last() == listed@[i as int]@);
            match config.get_profile(listed[i].as_str()) {
                Some(extra) => {
                    add_missing(&mut vars, extra);
                },
                None => {
                    let ghost before = texts(unknown@);
                    unknown.push(listed[i].clone());
                    assert(texts(unknown@) =~= before.push(listed@[i as int]@));
                },
            }
            i += 1;
        }
        assert(texts(listed@).take(n as int) =~= texts(listed@));
        Some(Project { vars, unknown })
    }

    /// The name of the project that the directory `cwd` lies in: the
    /// component of `cwd` just below the first root that `cwd` lies in or is.
    /// A leading `~` of a root stands for `home`.
    pub fn get_project_dir(config: &Config, home: Option<&str>, cwd: &str) -> (name: Option<
        String,
    >)
        ensures
            exists|roots: Seq<Seq<char>>|
                is_expansion(config@.dirs, optional_str(home), roots) && crate::path::optional_text(
                    name,
                ) == project_dir(roots, cwd@),
            decided(config@.dirs, optional_str(home)) ==> crate::path::optional_text(name)
                == project_dir(expanded_all(config@.dirs, optional_str(home)), cwd@),
    {
        let roots = config.dirs(home);
        let name = resolve_project_dir(&roots, cwd);
        assert(is_expansion(config@.dirs, optional_str(home), texts(roots@))
            && crate::path::optional_text(name) == project_dir(texts(roots@), cwd@));
        name
    }

    /// The project that the directory `cwd` lies in.
    pub fn get_from_cwd(config: &Config, home: Option<&str>, cwd: &str) -> (project: Option<
        Project,
    >)
        ensures
            exists|roots: Seq<Seq<char>>|
                is_expansion(config@.dirs, optional_str(home), roots) && optional_project(project)
                    == project_at(config@, roots, cwd@),
            decided(config@.dirs, optional_str(home)) ==> optional_project(project) == project_at(
                config@,
                expanded_all(config@.dirs, optional_str(home)),
                cwd@,
            ),
    {
        let roots = config.dirs(home);
        let project = match resolve_project_dir(&roots, cwd) {
            Some(name) => Self::from_project_config(name.as_str(), config),
            None => None,
        };
        assert(is_expansion(config@.dirs, optional_str(home), texts(roots@)) && optional_project(project) == project_at(config@, texts(roots@), cwd@));
        project
    }

    /// The project called `name`, or, where no name is given, the project
    /// that the directory `cwd` lies in.
    pub fn get_current_or_named(
        name: Option<&str>,
        config: &Config,
        home: Option<&str>,
        cwd: &str,
    ) -> (project: Option<Project>)
        ensures
            name matches Some(n) ==> optional_project(project) == declared_project(config@, n@),
            name is None ==> exists|roots: Seq<Seq<char>>|
                is_expansion(config@.dirs, optional_str(home), roots) && optional_project(project)
                    == project_at(config@, roots, cwd@),
            name is None && decided(config@.dirs, optional_str(home)) ==> optional_project(project)
                == project_at(config@, expanded_all(config@.dirs, optional_str(home)), cwd@),
    {
        match name {
            Some(name) => Self::get_by_name(name, config),
            None => Self::get_from_cwd(config, home, cwd),
        }
    }

    /// Writes out the variables in `format`, each with the opened value of
    /// its secret, under a key that stays as it is. Each value is wiped once
    /// it is written.
    pub fn render(&self, store: &Store, key: &EncryptionKey, format: Format) -> (outcome: Result<
        String,
        Missing,
    >)
        ensures
            renders(outcome, rendered(format, self@.vars, store@, key@)),
    {
        let mut text = String::new();
        let n = self.vars.len();
        let mut i: usize = 0;
        assert(self@.vars.take(0) =~= Seq::empty());
        while i < n
            invariant
                i <= n,
                n == self@.vars.len(),
                self@.vars == self.vars@,
                rendered(format, self@.vars.take(i as int), store@, key@) == Ok::<
                    Seq<char>,
                    (Seq<char>, StoreFailure),
                >(text@),
            decreases n - i,
        {
            let name = self.vars.name_at(i);
            let secret = self.vars.value_at(i);
            assert(self@.vars.take(i as int + 1).drop_last() =~= self@.vars.take(i as int));
            assert(self@.vars.take(i as int + 1).last() == self@.vars[i as int]);
            let mut value = match store.open_secret(secret.as_str(), key) {
                Ok(value) => value,
                Err(error) => {
                    proof {
                        lemma_rendered_prefix(format, self@.vars, store@, key@, i as int + 1);
                    }
                    return Err(Missing { secret: secret.clone(), error });
                },
            };
            match format {
                Format::Export(shell) => shell.push_export(&mut text, name, value.value()),
                Format::Assignment => push_assignment(&mut text, name, value.value()),
            }
            value.wipe();
            i += 1;
        }
        assert(self@.vars.take(n as int) =~= self@.vars);
        Ok(text)
    }

    /// The statements of `shell` that set the variables, each to the opened
    /// value of its secret. The key is wiped whether the statements are
    /// returned or not.
    pub fn to_shell(&self, store: &Store, shell: Shell, key: &mut EncryptionKey) -> (outcome:
        Result<String, Missing>)
        ensures
            renders(outcome, rendered(Format::Export(shell), self@.vars, store@, old(key)@)),
            final(key).wiped(),
    {
        let outcome = self.render(store, key, Format::Export(shell));
        key.wipe();
        outcome
    }

    /// The lines `name=value` of the variables, each with the opened value of
    /// its secret. The key is wiped whether the lines are returned or not.
    pub fn export(&self, store: &Store, key: &mut EncryptionKey) -> (outcome: Result<
        String,
        Missing,
    >)
        ensures
            renders(outcome, rendered(Format::Assignment, self@.vars, store@, old(key)@)),
            final(key).wiped(),
    {
        let outcome = self.render(store, key, Format::Assignment);
        key.wipe();
        outcome
    }

    /// What is handed to the shell when the project is loaded: the statements
    /// that remove every declared variable that the project does not bind,
    /// then those that set its own. Nothing is returned unless every secret
    /// opened. The key is wiped whether the script is returned or not.
    pub fn load(&self, config: &Config, store: &Store, shell: Shell, key: &mut EncryptionKey) -> (outcome:
        Result<String, Missing>)
        ensures
            renders(outcome, loaded(shell, config@, self@.vars, store@, old(key)@)),
            final(key).wiped(),
    {
        let exports = match self.to_shell(store, shell, key) {
            Ok(exports) => exports,
            Err(missing) => {
                return Err(missing);
            },
        };
        let mut script = config.unset(shell, self);
        script.append("\n");
        script.append(exports.as_str());
        script.append("\n");
        Ok(script)
    }

    /// Tells whether the project binds the variable `name`.
    pub fn binds(&self, name: &str) -> (bound: bool)
        ensures
            bound == has_name(self@.vars, name@),
    {
        self.vars.contains(name)
    }

    /// The names of the variables, in order.
    pub fn keys(&self) -> (names: Vec<String>)
        ensures
            texts(names@) == names_of(self@.vars),
    {
        self.vars.names()
    }

    /// The names of the secrets that the variables are bound to, in order.
    pub fn variables(&self) -> (secrets: Vec<String>)
        ensures
            texts(secrets@) == values_of(self@.vars),
    {
        self.vars.values()
    }

    /// The names that the project refers to and that are no profile's, in the
    /// order listed.
    pub fn warnings(&self) -> (names: &Vec<String>)
        ensures
            texts(names@) == self@.unknown,
    {
        &self.unknown
    }

    /// The bindings themselves.
    pub fn into_inner(self) -> (vars: Table<String>)
        ensures
            vars@ == self@.vars,
    {
        self.vars
    }
}

/// The secret that the first of the `listed` profiles that binds `name` binds
/// it to.
pub open spec fn first_binding(
    listed: Seq<Seq<char>>,
    profiles: Seq<(Seq<char>, VarsView)>,
    name: Seq<char>,
) -> Option<Seq<char>>
    decreases listed.len(),
{
    if listed.len() == 0 {
        None
    } else {
        match first_binding(listed.drop_last(), profiles, name) {
            Some(secret) => Some(secret),
            None => match lookup(profiles, listed.last()) {
                Some(vars) => lookup(vars, name),
                None => None,
            },
        }
    }
}

/// After a merge a variable that was bound is bound as before, and any other
/// variable is bound as in what was merged in.
pub proof fn lemma_merge_missing_lookup(vars: VarsView, extra: VarsView, name: Seq<char>)
    ensures
        lookup(merge_missing(vars, extra), name) == if has_name(vars, name) {
            lookup(vars, name)
        } else {
            lookup(extra, name)
        },
    decreases extra.len(),
{
    if extra.len() > 0 {
        let rest = extra.drop_last();
        let before = merge_missing(vars, rest);
        lemma_merge_missing_lookup(vars, rest, name);
        assert(extra =~= rest.push(extra.last()));
        crate::table::lemma_lookup_push(rest, extra.last(), name);
        crate::table::lemma_lookup_push(before, extra.last(), name);
    }
}

/// Precedence: a variable that the project binds itself resolves to the
/// project's own secret; any other variable resolves to the secret of the
/// first listed profile that binds it; a variable that neither binds is not
/// bound.
pub proof fn lemma_resolution_precedence(
    vars: VarsView,
    listed: Seq<Seq<char>>,
    profiles: Seq<(Seq<char>, VarsView)>,
    name: Seq<char>,
)
    ensures
        lookup(merge_profiles(vars, listed, profiles), name) == match lookup(vars, name) {
            Some(secret) => Some(secret),
            None => first_binding(listed, profiles, name),
        },
    decreases listed.len(),
{
    if listed.len() > 0 {
        let before = merge_profiles(vars, listed.drop_last(), profiles);
        lemma_resolution_precedence(vars, listed.drop_last(), profiles, name);
        match lookup(profiles, listed.last()) {
            Some(extra) => {
                lemma_merge_missing_lookup(before, extra, name);
            },
            None => {},
        }
    }
}

/// Where writing out a part of the variables fails, writing out all of them
/// fails in the same way.
pub proof fn lemma_rendered_prefix(
    format: Format,
    vars: VarsView,
    store: VarsView,
    key: Seq<u8>,
    upto: int,
)
    requires
        0 <= upto <= vars.len(),
        rendered(format, vars.take(upto), store, key) is Err,
    ensures
        rendered(format, vars, store, key) == rendered(format, vars.take(upto), store, key),
    decreases vars.len() - upto,
{
    if upto < vars.len() {
        assert(vars.take(upto + 1).drop_last() =~= vars.take(upto));
        lemma_rendered_prefix(format, vars, store, key, upto + 1);
    } else {
        assert(vars.take(upto) =~= vars);
    }
}

} // verus!
