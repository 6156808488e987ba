//! The declared configuration: root directories, named profiles, and the
//! bindings of each project.

use vstd::prelude::*;
use crate::project::Project;
use crate::shell::unset_line;
use crate::shell::Shell;
use crate::table::copy_strings;
use crate::table::has_name;
use crate::table::lookup;
use crate::table::texts;
use crate::table::Table;
use crate::text::same_text;

verus! {

/// Bindings from variable names to secret names, in order.
pub type VarsView = Seq<(Seq<char>, Seq<char>)>;

/// What a project declares: the profiles it refers to, in the order listed,
/// and its own bindings from variable names to secret names.
pub struct BindingView {
    pub profiles: Seq<Seq<char>>,
    pub vars: VarsView,
}

/// What a configuration declares.
pub struct ConfigView {
    pub dirs: Seq<Seq<char>>,
    pub profiles: Seq<(Seq<char>, VarsView)>,
    pub projects: Seq<(Seq<char>, BindingView)>,
}

/// The bindings of one project: the profiles it refers to and its own
/// variables.
#[derive(Debug)]
pub struct ProjectConfig {
    pub profiles: Vec<String>,
    pub vars: Table<String>,
}

impl View for ProjectConfig {
    type V = BindingView;

    open spec fn view(&self) -> BindingView {
        BindingView { profiles: texts(self.profiles@), vars: self.vars@ }
    }
}

impl Clone for ProjectConfig {
    fn clone(&self) -> (copy: Self)
        ensures
            copy@ == self@,
    {
        ProjectConfig { profiles: copy_strings(&self.profiles), vars: self.vars.clone() }
    }
}

impl Default for ProjectConfig {
    fn default() -> (empty: Self)
        ensures
            empty@.profiles == Seq::<Seq<char>>::empty(),
            empty@.vars == Seq::<(Seq<char>, Seq<char>)>::empty(),
    {
        let empty = ProjectConfig { profiles: Vec::new(), vars: Table::new() };
        assert(texts(empty.profiles@) =~= Seq::<Seq<char>>::empty());
        empty
    }
}

/// The two forms in which a project is declared: with bindings of its own, or
/// as a bare list of profiles. The second stands for the first with no
/// bindings.
#[derive(Debug)]
pub enum ProjectValue {
    Config(ProjectConfig),
    Profiles(Vec<String>),
}

impl View for ProjectValue {
    type V = BindingView;

    open spec fn view(&self) -> BindingView {
        match self {
            ProjectValue::Config(config) => config@,
            ProjectValue::Profiles(profiles) => BindingView {
                profiles: texts(profiles@),
                vars: Seq::empty(),
            },
        }
    }
}

impl ProjectValue {
    /// The bindings in their one common form.
    pub fn normalized(&self) -> (config: ProjectConfig)
        ensures
            config@ == self@,
    {
        match self {
            ProjectValue::Config(config) => config.clone(),
            ProjectValue::Profiles(profiles) => {
                let mut config = ProjectConfig::default();
                config.profiles = copy_strings(profiles);
                config
            },
        }
    }
}

/// The text that an optional string slice holds.
pub open spec fn optional_str(value: Option<&str>) -> Option<Seq<char>> {
    match value {
        Some(text) => Some(text@),
        None => None,
    }
}

/// `input` is a `~` alone, or begins with `~/`.
pub open spec fn tilde_applies(input: Seq<char>) -> bool {
    input.len() > 0 && input[0] == '~' && (input.len() == 1 || input[1] == '/')
}

/// `input` begins with `~\`: whether the `~` is replaced depends on the
/// system.
pub open spec fn tilde_undecided(input: Seq<char>) -> bool {
    input.len() > 1 && input[0] == '~' && input[1] == '\\'
}

/// The directory `input` with a leading `~` replaced by the home directory,
/// where `input` is `~` alone or begins with `~/` and a home directory is
/// known; else `input` as it is.
pub open spec fn expanded(input: Seq<char>, home: Option<Seq<char>>) -> Seq<char> {
    if home is Some && tilde_applies(input) {
        home->0 + input.skip(1)
    } else {
        input
    }
}

/// `output` is what becomes of the directory `input` when a leading `~` is
/// replaced by the home directory: `expanded(input, home)`, but where the
/// input begins with `~\` the `~` may have been replaced as well.
pub open spec fn tilde_expansion(
    input: Seq<char>,
    home: Option<Seq<char>>,
    output: Seq<char>,
) -> bool {
    output == expanded(input, home) || (home is Some && tilde_undecided(input) && output
        == home->0 + input.skip(1))
}

/// `roots` holds an expansion of each of `dirs`, in order.
pub open spec fn is_expansion(
    dirs: Seq<Seq<char>>,
    home: Option<Seq<char>>,
    roots: Seq<Seq<char>>,
) -> bool {
    roots.len() == dirs.len() && forall|i: int|
        0 <= i < dirs.len() ==> tilde_expansion(#[trigger] dirs[i], home, roots[i])
}

/// Each of `dirs` expanded, where none of them leaves the outcome open.
pub open spec fn expanded_all(dirs: Seq<Seq<char>>, home: Option<Seq<char>>) -> Seq<Seq<char>> {
    Seq::new(dirs.len(), |i: int| expanded(dirs[i], home))
}

/// None of `dirs` begins with `~\`, or no home directory is known.
pub open spec fn decided(dirs: Seq<Seq<char>>, home: Option<Seq<char>>) -> bool {
    home is None || forall|i: int| 0 <= i < dirs.len() ==> !tilde_undecided(#[trigger] dirs[i])
}

/// `shellexpand::tilde_with_context`, with `home` as the home directory. The
/// contract restates the function: the input is returned unchanged unless it
/// begins with `~` followed by the end of the input or a separator, and a home
/// directory was given; then the `~` is replaced by it. Whether `\` counts as a
/// separator depends on the system, so for that case both outcomes are allowed.
#[verifier::external_body]
fn expand_tilde(input: &str, home: Option<&str>) -> (output: String)
    ensures
        tilde_expansion(input@, optional_str(home), output@),
{
    shellexpand::tilde_with_context(input, || home).into_owned()
}

/// `seen`, followed by `name` unless it holds that name already.
pub open spec fn with_new_name(seen: Seq<Seq<char>>, name: Seq<char>) -> Seq<Seq<char>> {
    if seen.contains(name) {
        seen
    } else {
        seen.push(name)
    }
}

/// `seen`, followed by the variable names of `vars` that were not seen before.
pub open spec fn with_names_of(seen: Seq<Seq<char>>, vars: VarsView) -> Seq<Seq<char>>
    decreases vars.len(),
{
    if vars.len() == 0 {
        seen
    } else {
        with_new_name(with_names_of(seen, vars.drop_last()), vars.last().0)
    }
}

/// `seen`, followed by the new variable names of each project's own bindings.
pub open spec fn with_project_names(
    seen: Seq<Seq<char>>,
    projects: Seq<(Seq<char>, BindingView)>,
) -> Seq<Seq<char>>
    decreases projects.len(),
{
    if projects.len() == 0 {
        seen
    } else {
        with_names_of(with_project_names(seen, projects.drop_last()), projects.last().1.vars)
    }
}

/// `seen`, followed by the new variable names of each profile.
pub open spec fn with_profile_names(
    seen: Seq<Seq<char>>,
    profiles: Seq<(Seq<char>, VarsView)>,
) -> Seq<Seq<char>>
    decreases profiles.len(),
{
    if profiles.len() == 0 {
        seen
    } else {
        with_names_of(with_profile_names(seen, profiles.drop_last()), profiles.last().1)
    }
}

/// Every variable name that the configuration declares anywhere, each once:
/// first those of the projects' own bindings, then those of the profiles.
pub open spec fn known_variables(config: ConfigView) -> Seq<Seq<char>> {
    with_profile_names(with_project_names(Seq::empty(), config.projects), config.profiles)
}

/// One statement that removes a variable for each of `names` that `current`
/// does not bind.
pub open spec fn unset_text(shell: Shell, names: Seq<Seq<char>>, current: VarsView) -> Seq<char>
    decreases names.len(),
{
    if names.len() == 0 {
        Seq::empty()
    } else {
        let before = unset_text(shell, names.drop_last(), current);
        if has_name(current, names.last()) {
            before
        } else {
            before + unset_line(shell, names.last())
        }
    }
}

/// Tells whether `names` holds `name`.
pub fn holds_name(names: &Vec<String>, name: &str) -> (found: bool)
    ensures
        found == texts(names@).contains(name@),
{
    let mut i: usize = 0;
    while i < names.len()
        invariant
            i <= names@.len(),
            forall|j: int| 0 <= j < i ==> texts(names@)[j] != name@,
        decreases names@.len() - i,
    {
        if same_text(names[i].as_str(), name) {
            assert(texts(names@)[i as int] == name@);
            return true;
        }
        i += 1;
    }
    false
}

/// Adds to `seen` the variable names of `vars` that it does not hold yet.
pub fn add_names_of(seen: &mut Vec<String>, vars: &Table<String>)
    ensures
        texts(final(seen)@) == with_names_of(texts(old(seen)@), vars@),
{
    let n = vars.len();
    let mut i: usize = 0;
    assert(vars@.take(0) =~= Seq::empty());
    while i < n
        invariant
            i <= n,
            n == vars@.len(),
            texts(seen@) == with_names_of(texts(old(seen)@), vars@.take(i as int)),
        decreases n - i,
    {
        let name = vars.name_at(i);
        assert(vars@.take(i as int + 1).drop_last() =~= vars@.take(i as int));
        if !holds_name(seen, name) {
            let ghost before = texts(seen@);
            seen.push(String::from_str(name));
            assert(texts(seen@) =~= before.push(name@));
        }
        i += 1;
    }
    assert(vars@.take(n as int) =~= vars@);
}

/// The declared configuration.
#[derive(Debug)]
pub struct Config {
    dirs: Vec<String>,
    profile: Table<Table<String>>,
    project: Table<ProjectValue>,
}

impl View for Config {
    type V = ConfigView;

    closed spec fn view(&self) -> ConfigView {
        ConfigView { dirs: texts(self.dirs@), profiles: self.profile@, projects: self.project@ }
    }
}

impl Config {
    /// A configuration of the given roots, profiles and projects.
    pub fn new(dirs: Vec<String>, profile: Table<Table<String>>, project: Table<ProjectValue>) -> (config:
        Self)
        ensures
            config@.dirs == texts(dirs@),
            config@.profiles == profile@,
            config@.projects == project@,
    {
        Config { dirs, profile, project }
    }

    /// The root directories in their declared order, each with a leading `~`
    /// replaced by `home`.
    pub fn dirs(&self, home: Option<&str>) -> (roots: Vec<String>)
        ensures
            is_expansion(self@.dirs, optional_str(home), texts(roots@)),
            decided(self@.dirs, optional_str(home)) ==> texts(roots@) == expanded_all(
                self@.dirs,
                optional_str(home),
            ),
    {
        let mut roots: Vec<String> = Vec::new();
        let mut i: usize = 0;
        while i < self.dirs.len()
            invariant
                i <= self.dirs@.len(),
                roots@.len() == i,
                self@.dirs == texts(self.dirs@),
                forall|j: int|
                    0 <= j < i ==> tilde_expansion(
                        #[trigger] self@.dirs[j],
                        optional_str(home),
                        roots@[j]@,
                    ),
            decreases self.dirs@.len() - i,
        {
            let root = expand_tilde(self.dirs[i].as_str(), home);
            roots.push(root);
            i += 1;
        }
        proof {
            assert forall|j: int| 0 <= j < self@.dirs.len() implies tilde_expansion(
                #[trigger] self@.dirs[j],
                optional_str(home),
                texts(roots@)[j],
            ) by {}
            if decided(self@.dirs, optional_str(home)) {
                assert forall|j: int| 0 <= j < self@.dirs.len() implies texts(roots@)[j]
                    == expanded(self@.dirs[j], optional_str(home)) by {
                    assert(tilde_expansion(self@.dirs[j], optional_str(home), roots@[j]@));
                }
                assert(texts(roots@) =~= expanded_all(self@.dirs, optional_str(home)));
            }
        }
        roots
    }

    /// The bindings of the profile called `name`.
    pub fn get_profile(&self, name: &str) -> (profile: Option<&Table<String>>)
        ensures
            profile is Some <==> has_name(self@.profiles, name@),
            profile matches Some(vars) ==> lookup(self@.profiles, name@) == Some(vars@),
    {
        self.profile.get(name)
    }

    /// The bindings of the project called `name`, in their one common form.
    pub fn get_project_config(&self, name: &str) -> (config: Option<ProjectConfig>)
        ensures
            config is Some <==> has_name(self@.projects, name@),
            config matches Some(binding) ==> lookup(self@.projects, name@) == Some(binding@),
    {
        match self.project.get(name) {
            Some(value) => Some(value.normalized()),
            None => None,
        }
    }

    /// All profiles.
    pub fn get_profiles(&self) -> (profiles: &Table<Table<String>>)
        ensures
            profiles@ == self@.profiles,
    {
        &self.profile
    }

    /// The bindings of every declared project, in their one common form and in
    /// the declared order.
    pub fn get_project_configs(&self) -> (configs: Table<ProjectConfig>)
        ensures
            configs@ == self@.projects,
    {
        let mut configs: Table<ProjectConfig> = Table::new();
        let n = self.project.len();
        let mut i: usize = 0;
        while i < n
            invariant
                i <= n,
                n == self.project@.len(),
                crate::table::distinct_names(self.project@),
                configs@ == self.project@.take(i as int),
            decreases n - i,
        {
            let name = self.project.name_at(i);
            let config = self.project.value_at(i).normalized();
            proof {
                let before = self.project@.take(i as int);
                crate::table::lemma_position_is(before, name@, i as int);
                assert(before.push((name@, config@)) =~= self.project@.take(i as int + 1));
            }
            configs.insert(String::from_str(name), config);
            i += 1;
        }
        assert(self.project@.take(n as int) =~= self.project@);
        configs
    }

    /// Every variable name that the configuration declares anywhere, each
    /// once.
    pub fn variable_names(&self) -> (names: Vec<String>)
        ensures
            texts(names@) == known_variables(self@),
    {
        let mut names: Vec<String> = Vec::new();
        assert(texts(names@) =~= Seq::<Seq<char>>::empty());
        let projects = self.project.len();
        let mut i: usize = 0;
        assert(self.project@.take(0) =~= Seq::empty());
        while i < projects
            invariant
                i <= projects,
                projects == self.project@.len(),
                texts(names@) == with_project_names(Seq::empty(), self.project@.take(i as int)),
            decreases projects - i,
        {
            assert(self.project@.take(i as int + 1).drop_last() =~= self.project@.take(i as int));
            match self.project.value_at(i) {
                ProjectValue::Config(config) => {
                    add_names_of(&mut names, &config.vars);
                },
                ProjectValue::Profiles(_) => {
                    assert(with_names_of(texts(names@), Seq::empty()) == texts(names@));
                },
            }
            i += 1;
        }
        assert(self.project@.take(projects as int) =~= self.project@);
        let profiles = self.profile.len();
        let mut k: usize = 0;
        assert(self.profile@.take(0) =~= Seq::empty());
        while k < profiles
            invariant
                k <= profiles,
                profiles == self.profile@.len(),
                texts(names@) == with_profile_names(
                    with_project_names(Seq::empty(), self.project@),
                    self.profile@.take(k as int),
                ),
            decreases profiles - k,
        {
            assert(self.profile@.take(k as int + 1).drop_last() =~= self.profile@.take(k as int));
            add_names_of(&mut names, self.profile.value_at(k));
            k += 1;
        }
        assert(self.profile@.take(profiles as int) =~= self.profile@);
        names
    }

    /// The statements that remove every variable that the configuration
    /// declares anywhere and that `current` does not bind.
    pub fn unset(&self, shell: Shell, current: &Project) -> (script: String)
        ensures
            script@ == unset_text(shell, known_variables(self@), current@.vars),
    {
        let names = self.variable_names();
        let mut script = String::new();
        let mut i: usize = 0;
        assert(texts(names@).take(0) =~= Seq::empty());
        while i < names.len()
            invariant
                i <= names@.len(),
                script@ == unset_text(shell, texts(names@).take(i as int), current@.vars),
            decreases names@.len() - i,
        {
            assert(texts(names@).take(i as int + 1).drop_last() =~= texts(names@).take(i as int));
            if !current.binds(names[i].as_str()) {
                shell.push_unset(&mut script, names[i].as_str());
            }
            i += 1;
        }
        assert(texts(names@).take(names@.len() as int) =~= texts(names@));
        script
    }
}

} // verus!
