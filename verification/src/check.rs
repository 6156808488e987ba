//! The consistency check: every secret that a project's variables resolve to
//! must be in the store, and every profile that a project lists must exist.

use vstd::prelude::*;
use crate::config::BindingView;
use crate::config::Config;
use crate::config::ConfigView;
use crate::config::ProjectConfig;
use crate::config::VarsView;
use crate::project::merge_missing;
use crate::project::merge_profiles;
use crate::store::Store;
use crate::table::has_name;
use crate::table::lookup;
use crate::table::texts;
use crate::table::Table;

verus! {

/// One thing that the check found wrong.
#[derive(Debug, PartialEq, Eq)]
pub enum Finding {
    /// A variable of `project` resolves to `secret`, which the store does not
    /// hold. `origin` names the profile that the binding comes from, where it
    /// is not the project's own.
    MissingSecret { project: String, secret: String, origin: Option<String> },
    /// `project` lists `profile`, which is not declared.
    MissingProfile { project: String, profile: String },
}

/// A finding, each text by its view.
pub enum FindingView {
    MissingSecret { project: Seq<char>, secret: Seq<char>, origin: Option<Seq<char>> },
    MissingProfile { project: Seq<char>, profile: Seq<char> },
}

impl View for Finding {
    type V = FindingView;

    open spec fn view(&self) -> FindingView {
        match self {
            Finding::MissingSecret { project, secret, origin } => FindingView::MissingSecret {
                project: project@,
                secret: secret@,
                origin: match origin {
                    Some(name) => Some(name@),
                    None => None,
                },
            },
            Finding::MissingProfile { project, profile } => FindingView::MissingProfile {
                project: project@,
                profile: profile@,
            },
        }
    }
}

/// The findings of a vector, each by its view.
pub open spec fn findings_view(findings: Seq<Finding>) -> Seq<FindingView> {
    Seq::new(findings.len(), |i: int| findings[i]@)
}

/// The findings for the bindings `extra` that come on top of what is `bound`:
/// one for each binding that is taken over, so whose variable is not bound
/// yet, and whose secret the store does not hold.
pub open spec fn binding_findings(
    project: Seq<char>,
    profile: Option<Seq<char>>,
    bound: VarsView,
    extra: VarsView,
    store: VarsView,
) -> Seq<FindingView>
    decreases extra.len(),
{
    if extra.len() == 0 {
        Seq::empty()
    } else {
        let before = binding_findings(project, profile, bound, extra.drop_last(), store);
        let merged = merge_missing(bound, extra.drop_last());
        if !has_name(merged, extra.last().0) && !has_name(store, extra.last().1) {
            before.push(
                FindingView::MissingSecret { project, secret: extra.last().1, origin: profile },
            )
        } else {
            before
        }
    }
}

/// The findings for a project's own bindings: one for each whose secret the
/// store does not hold.
pub open spec fn own_findings(project: Seq<char>, vars: VarsView, store: VarsView) -> Seq<
    FindingView,
>
    decreases vars.len(),
{
    if vars.len() == 0 {
        Seq::empty()
    } else {
        let before = own_findings(project, vars.drop_last(), store);
        if !has_name(store, vars.last().1) {
            before.push(
                FindingView::MissingSecret { project, secret: vars.last().1, origin: None },
            )
        } else {
            before
        }
    }
}

/// The findings for the profiles that a project lists, in the order listed:
/// for a name that is no profile's, that; for a profile, the findings for its
/// bindings on top of what came before.
pub open spec fn listed_findings(
    project: Seq<char>,
    bound: VarsView,
    listed: Seq<Seq<char>>,
    profiles: Seq<(Seq<char>, VarsView)>,
    store: VarsView,
) -> Seq<FindingView>
    decreases listed.len(),
{
    if listed.len() == 0 {
        Seq::empty()
    } else {
        let before = listed_findings(project, bound, listed.drop_last(), profiles, store);
        let merged = merge_profiles(bound, listed.drop_last(), profiles);
        match lookup(profiles, listed.last()) {
            None => before.push(
                FindingView::MissingProfile { project, profile: listed.last() },
            ),
            Some(extra) => before + binding_findings(
                project,
                Some(listed.last()),
                merged,
                extra,
                store,
            ),
        }
    }
}

/// The findings for one project: for its own bindings, then for the profiles
/// it lists.
pub open spec fn project_findings(
    project: Seq<char>,
    binding: BindingView,
    profiles: Seq<(Seq<char>, VarsView)>,
    store: VarsView,
) -> Seq<FindingView> {
    own_findings(project, binding.vars, store) + listed_findings(
        project,
        binding.vars,
        binding.profiles,
        profiles,
        store,
    )
}

/// The findings for the given projects, in order.
pub open spec fn all_findings(
    projects: Seq<(Seq<char>, BindingView)>,
    profiles: Seq<(Seq<char>, VarsView)>,
    store: VarsView,
) -> Seq<FindingView>
    decreases projects.len(),
{
    if projects.len() == 0 {
        Seq::empty()
    } else {
        all_findings(projects.drop_last(), profiles, store) + project_findings(
            projects.last().0,
            projects.last().1,
            profiles,
            store,
        )
    }
}

/// The findings for every declared project of `config` against `store`.
pub open spec fn check_findings(config: ConfigView, store: VarsView) -> Seq<FindingView> {
    all_findings(config.projects, config.profiles, store)
}

/// The store holds the secret of every binding of `vars` from the place `from`
/// on.
pub open spec fn secrets_held(vars: VarsView, from: int, store: VarsView) -> bool {
    forall|k: int| from <= k < vars.len() ==> has_name(store, (#[trigger] vars[k]).1)
}

/// Nothing is wrong with a project: every profile it lists is declared, and
/// the store holds the secret of every variable it resolves to.
pub open spec fn project_satisfied(
    binding: BindingView,
    profiles: Seq<(Seq<char>, VarsView)>,
    store: VarsView,
) -> bool {
    &&& forall|j: int|
        0 <= j < binding.profiles.len() ==> has_name(profiles, #[trigger] binding.profiles[j])
    &&& secrets_held(crate::project::resolved(binding, profiles), 0, store)
}

/// Nothing is wrong with any declared project.
pub open spec fn satisfied(config: ConfigView, store: VarsView) -> bool {
    forall|i: int|
        0 <= i < config.projects.len() ==> project_satisfied(
            (#[trigger] config.projects[i]).1,
            config.profiles,
            store,
        )
}

/// A merge keeps what was bound, in its place.
pub proof fn lemma_merge_missing_extends(bound: VarsView, extra: VarsView)
    ensures
        merge_missing(bound, extra).len() >= bound.len(),
        forall|k: int| 0 <= k < bound.len() ==> merge_missing(bound, extra)[k] == bound[k],
    decreases extra.len(),
{
    if extra.len() > 0 {
        lemma_merge_missing_extends(bound, extra.drop_last());
    }
}

/// Merging profiles keeps what was bound, in its place.
pub proof fn lemma_merge_profiles_extends(
    bound: VarsView,
    listed: Seq<Seq<char>>,
    profiles: Seq<(Seq<char>, VarsView)>,
)
    ensures
        merge_profiles(bound, listed, profiles).len() >= bound.len(),
        forall|k: int|
            0 <= k < bound.len() ==> merge_profiles(bound, listed, profiles)[k] == bound[k],
    decreases listed.len(),
{
    if listed.len() > 0 {
        lemma_merge_profiles_extends(bound, listed.drop_last(), profiles);
        match lookup(profiles, listed.last()) {
            Some(extra) => {
                lemma_merge_missing_extends(
                    merge_profiles(bound, listed.drop_last(), profiles),
                    extra,
                );
            },
            None => {},
        }
    }
}

/// A project's own bindings give no finding exactly where the store holds
/// all their secrets.
pub proof fn lemma_own_findings(project: Seq<char>, vars: VarsView, store: VarsView)
    ensures
        own_findings(project, vars, store).len() == 0 <==> secrets_held(vars, 0, store),
    decreases vars.len(),
{
    if vars.len() > 0 {
        let rest = vars.drop_last();
        lemma_own_findings(project, rest, store);
        if secrets_held(vars, 0, store) {
            assert forall|k: int| 0 <= k < rest.len() implies has_name(
                store,
                (#[trigger] rest[k]).1,
            ) by {
                assert(rest[k] == vars[k]);
            }
            assert(has_name(store, vars[vars.len() - 1].1));
        }
        if own_findings(project, vars, store).len() == 0 {
            assert forall|k: int| 0 <= k < vars.len() implies has_name(
                store,
                (#[trigger] vars[k]).1,
            ) by {
                if k < rest.len() {
                    assert(rest[k] == vars[k]);
                }
            }
        }
    }
}

/// Merging a profile in gives no finding exactly where the store holds the
/// secrets of the bindings that were taken over.
pub proof fn lemma_binding_findings(
    project: Seq<char>,
    profile: Option<Seq<char>>,
    bound: VarsView,
    extra: VarsView,
    store: VarsView,
)
    ensures
        binding_findings(project, profile, bound, extra, store).len() == 0 <==> secrets_held(
            merge_missing(bound, extra),
            bound.len() as int,
            store,
        ),
    decreases extra.len(),
{
    if extra.len() > 0 {
        let rest = extra.drop_last();
        let before = merge_missing(bound, rest);
        let after = merge_missing(bound, extra);
        lemma_binding_findings(project, profile, bound, rest, store);
        lemma_merge_missing_extends(bound, rest);
        if !has_name(before, extra.last().0) {
            assert(after == before.push(extra.last()));
            if secrets_held(after, bound.len() as int, store) {
                assert forall|k: int| bound.len() <= k < before.len() implies has_name(
                    store,
                    (#[trigger] before[k]).1,
                ) by {
                    assert(after[k] == before[k]);
                }
                assert(has_name(store, after[before.len() as int].1));
            }
            if binding_findings(project, profile, bound, extra, store).len() == 0 {
                assert forall|k: int| bound.len() <= k < after.len() implies has_name(
                    store,
                    (#[trigger] after[k]).1,
                ) by {
                    if k < before.len() {
                        assert(after[k] == before[k]);
                    }
                }
            }
        }
    }
}

/// The profiles that a project lists give no finding exactly where each of
/// them is declared and the store holds the secrets of the bindings that
/// were taken over from them.
pub proof fn lemma_listed_findings(
    project: Seq<char>,
    bound: VarsView,
    listed: Seq<Seq<char>>,
    profiles: Seq<(Seq<char>, VarsView)>,
    store: VarsView,
)
    ensures
        listed_findings(project, bound, listed, profiles, store).len() == 0 <==> (forall|j: int|
            0 <= j < listed.len() ==> has_name(profiles, #[trigger] listed[j])) && secrets_held(
            merge_profiles(bound, listed, profiles),
            bound.len() as int,
            store,
        ),
    decreases listed.len(),
{
    if listed.len() > 0 {
        let rest = listed.drop_last();
        let before = merge_profiles(bound, rest, profiles);
        let after = merge_profiles(bound, listed, profiles);
        lemma_listed_findings(project, bound, rest, profiles, store);
        lemma_merge_profiles_extends(bound, rest, profiles);
        let all_rest = forall|j: int| 0 <= j < rest.len() ==> has_name(profiles, #[trigger] rest[j]);
        let all = forall|j: int| 0 <= j < listed.len() ==> has_name(profiles, #[trigger] listed[j]);
        assert(all ==> all_rest) by {
            if all {
                assert forall|j: int| 0 <= j < rest.len() implies has_name(
                    profiles,
                    #[trigger] rest[j],
                ) by {
                    assert(rest[j] == listed[j]);
                }
            }
        }
        assert(all_rest && has_name(profiles, listed.last()) ==> all) by {
            if all_rest && has_name(profiles, listed.last()) {
                assert forall|j: int| 0 <= j < listed.len() implies has_name(
                    profiles,
                    #[trigger] listed[j],
                ) by {
                    if j < rest.len() {
                        assert(rest[j] == listed[j]);
                    }
                }
            }
        }
        assert(all ==> has_name(profiles, listed[listed.len() - 1]));
        match lookup(profiles, listed.last()) {
            Some(extra) => {
                lemma_binding_findings(project, Some(listed.last()), before, extra, store);
                lemma_merge_missing_extends(before, extra);
                if secrets_held(after, bound.len() as int, store) {
                    assert forall|k: int| bound.len() <= k < before.len() implies has_name(
                        store,
                        (#[trigger] before[k]).1,
                    ) by {
                        assert(after[k] == before[k]);
                    }
                }
                if secrets_held(before, bound.len() as int, store) && secrets_held(
                    after,
                    before.len() as int,
                    store,
                ) {
                    assert forall|k: int| bound.len() <= k < after.len() implies has_name(
                        store,
                        (#[trigger] after[k]).1,
                    ) by {
                        if k < before.len() {
                            assert(after[k] == before[k]);
                        }
                    }
                }
            },
            None => {},
        }
    }
}

/// A project gives no finding exactly where nothing is wrong with it.
pub proof fn lemma_project_findings(
    project: Seq<char>,
    binding: BindingView,
    profiles: Seq<(Seq<char>, VarsView)>,
    store: VarsView,
)
    ensures
        project_findings(project, binding, profiles, store).len() == 0 <==> project_satisfied(
            binding,
            profiles,
            store,
        ),
{
    let merged = merge_profiles(binding.vars, binding.profiles, profiles);
    lemma_own_findings(project, binding.vars, store);
    lemma_listed_findings(project, binding.vars, binding.profiles, profiles, store);
    lemma_merge_profiles_extends(binding.vars, binding.profiles, profiles);
    if secrets_held(merged, 0, store) {
        assert forall|k: int| 0 <= k < binding.vars.len() implies has_name(
            store,
            (#[trigger] binding.vars[k]).1,
        ) by {
            assert(merged[k] == binding.vars[k]);
        }
    }
    if secrets_held(binding.vars, 0, store) && secrets_held(
        merged,
        binding.vars.len() as int,
        store,
    ) {
        assert forall|k: int| 0 <= k < merged.len() implies has_name(
            store,
            (#[trigger] merged[k]).1,
        ) by {
            if k < binding.vars.len() {
                assert(merged[k] == binding.vars[k]);
            }
        }
    }
}

/// The projects give no finding exactly where nothing is wrong with any of
/// them.
pub proof fn lemma_all_findings(
    projects: Seq<(Seq<char>, BindingView)>,
    profiles: Seq<(Seq<char>, VarsView)>,
    store: VarsView,
)
    ensures
        all_findings(projects, profiles, store).len() == 0 <==> forall|i: int|
            0 <= i < projects.len() ==> project_satisfied(
                (#[trigger] projects[i]).1,
                profiles,
                store,
            ),
    decreases projects.len(),
{
    if projects.len() > 0 {
        let rest = projects.drop_last();
        lemma_all_findings(rest, profiles, store);
        lemma_project_findings(projects.last().0, projects.last().1, profiles, store);
        let all_rest = forall|i: int|
            0 <= i < rest.len() ==> project_satisfied((#[trigger] rest[i]).1, profiles, store);
        let all = forall|i: int|
            0 <= i < projects.len() ==> project_satisfied(
                (#[trigger] projects[i]).1,
                profiles,
                store,
            );
        assert(all ==> all_rest && project_satisfied(projects.last().1, profiles, store)) by {
            if all {
                assert forall|i: int| 0 <= i < rest.len() implies project_satisfied(
                    (#[trigger] rest[i]).1,
                    profiles,
                    store,
                ) by {
                    assert(rest[i] == projects[i]);
                }
                assert(project_satisfied(projects[projects.len() - 1].1, profiles, store));
            }
        }
        assert(all_rest && project_satisfied(projects.last().1, profiles, store) ==> all) by {
            if all_rest && project_satisfied(projects.last().1, profiles, store) {
                assert forall|i: int| 0 <= i < projects.len() implies project_satisfied(
                    (#[trigger] projects[i]).1,
                    profiles,
                    store,
                ) by {
                    if i < rest.len() {
                        assert(rest[i] == projects[i]);
                    }
                }
            }
        }
    }
}

/// The check finds nothing exactly where nothing is wrong: every project
/// lists declared profiles only, and the store holds the secret of every
/// variable that a project resolves to.
pub proof fn lemma_no_findings_iff_satisfied(config: ConfigView, store: VarsView)
    ensures
        check_findings(config, store).len() == 0 <==> satisfied(config, store),
{
    lemma_all_findings(config.projects, config.profiles, store);
}

/// Adds to `findings` what is found wrong with a project's own bindings.
fn check_own(findings: &mut Vec<Finding>, project: &str, vars: &Table<String>, store: &Store)
    ensures
        findings_view(final(findings)@) == findings_view(old(findings)@) + own_findings(
            project@,
            vars@,
            store@,
        ),
{
    let n = vars.len();
    let mut i: usize = 0;
    assert(vars@.take(0) =~= Seq::empty());
    assert(findings_view(findings@) =~= findings_view(old(findings)@) + Seq::empty());
    while i < n
        invariant
            i <= n,
            n == vars@.len(),
            findings_view(findings@) == findings_view(old(findings)@) + own_findings(
                project@,
                vars@.take(i as int),
                store@,
            ),
        decreases n - i,
    {
        let secret = vars.value_at(i);
        assert(vars@.take(i as int + 1).drop_last() =~= vars@.take(i as int));
        assert(vars@.take(i as int + 1).last() == vars@[i as int]);
        if !store.contains(secret.as_str()) {
            let ghost before = findings_view(findings@);
            let finding = Finding::MissingSecret {
                project: String::from_str(project),
                secret: secret.clone(),
                origin: None,
            };
            findings.push(finding);
            assert(findings_view(findings@) =~= before.push(finding@));
        }
        i += 1;
    }
    assert(vars@.take(n as int) =~= vars@);
}

/// Merges the profile `extra` into `bound` and adds to `findings` what is
/// found wrong with the bindings that are taken over.
fn check_bindings(
    findings: &mut Vec<Finding>,
    bound: &mut Table<String>,
    project: &str,
    profile: &str,
    extra: &Table<String>,
    store: &Store,
)
    ensures
        final(bound)@ == merge_missing(old(bound)@, extra@),
        findings_view(final(findings)@) == findings_view(old(findings)@) + binding_findings(
            project@,
            Some(profile@),
            old(bound)@,
            extra@,
            store@,
        ),
{
    let n = extra.len();
    let mut i: usize = 0;
    assert(extra@.take(0) =~= Seq::empty());
    assert(findings_view(findings@) =~= findings_view(old(findings)@) + Seq::empty());
    while i < n
        invariant
            i <= n,
            n == extra@.len(),
            bound@ == merge_missing(old(bound)@, extra@.take(i as int)),
            findings_view(findings@) == findings_view(old(findings)@) + binding_findings(
                project@,
                Some(profile@),
                old(bound)@,
                extra@.take(i as int),
                store@,
            ),
        decreases n - i,
    {
        let name = extra.name_at(i);
        let secret = extra.value_at(i);
        assert(extra@.take(i as int + 1).drop_last() =~= extra@.take(i as int));
        assert(extra@.take(i as int + 1).last() == extra@[i as int]);
        if !bound.contains(name) {
            if !store.contains(secret.as_str()) {
                let ghost before = findings_view(findings@);
                let finding = Finding::MissingSecret {
                    project: String::from_str(project),
                    secret: secret.clone(),
                    origin: Some(String::from_str(profile)),
                };
                findings.push(finding);
                assert(findings_view(findings@) =~= before.push(finding@));
            }
            bound.insert(String::from_str(name), secret.clone());
        }
        i += 1;
    }
    assert(extra@.take(n as int) =~= extra@);
}

/// Adds to `findings` what is found wrong with one project.
fn check_project(
    findings: &mut Vec<Finding>,
    project: &str,
    binding: &ProjectConfig,
    config: &Config,
    store: &Store,
)
    ensures
        findings_view(final(findings)@) == findings_view(old(findings)@) + project_findings(
            project@,
            binding@,
            config@.profiles,
            store@,
        ),
{
    check_own(findings, project, &binding.vars, store);
    let mut bound = binding.vars.clone();
    let ghost own = findings_view(findings@);
    let ghost start = bound@;
    let listed = &binding.profiles;
    let n = listed.len();
    let mut i: usize = 0;
    assert(texts(listed@).take(0) =~= Seq::empty());
    assert(findings_view(findings@) =~= own + Seq::empty());
    while i < n
        invariant
            i <= n,
            n == listed@.len(),
            bound@ == merge_profiles(start, texts(listed@).take(i as int), config@.profiles),
            findings_view(findings@) == own + listed_findings(
                project@,
                start,
                texts(listed@).take(i as int),
                config@.profiles,
                store@,
            ),
        decreases n - i,
    {
        assert(texts(listed@).take(i as int + 1).drop_last() =~= texts(listed@).take(i as int));
        assert(texts(listed@).take(i as int + 1).last() == listed@[i as int]@);
        let ghost before = findings_view(findings@);
        match config.get_profile(listed[i].as_str()) {
            Some(extra) => {
                check_bindings(findings, &mut bound, project, listed[i].as_str(), extra, store);
                assert(findings_view(findings@) =~= own + (listed_findings(
                    project@,
                    start,
                    texts(listed@).take(i as int),
                    config@.profiles,
                    store@,
                ) + binding_findings(
                    project@,
                    Some(listed@[i as int]@),
                    merge_profiles(start, texts(listed@).take(i as int), config@.profiles),
                    extra@,
                    store@,
                )));
            },
            None => {
                let finding = Finding::MissingProfile {
                    project: String::from_str(project),
                    profile: listed[i].clone(),
                };
                findings.push(finding);
                assert(findings_view(findings@) =~= before.push(finding@));
                assert(findings_view(findings@) =~= own + listed_findings(
                    project@,
                    start,
                    texts(listed@).take(i as int),
                    config@.profiles,
                    store@,
                ).push(finding@));
            },
        }
        i += 1;
    }
    assert(texts(listed@).take(n as int) =~= texts(listed@));
    assert(findings_view(findings@) =~= findings_view(old(findings)@) + project_findings(
        project@,
        binding@,
        config@.profiles,
        store@,
    ));
}

/// Checks every declared project of `config` against `store`: the findings,
/// in the order of the projects. Neither is changed.
pub fn check(config: &Config, store: &Store) -> (findings: Vec<Finding>)
    ensures
        findings_view(findings@) == check_findings(config@, store@),
{
    let projects = config.get_project_configs();
    let mut findings: Vec<Finding> = Vec::new();
    let n = projects.len();
    let mut i: usize = 0;
    assert(projects@.take(0) =~= Seq::empty());
    assert(findings_view(findings@) =~= Seq::empty());
    while i < n
        invariant
            i <= n,
            n == projects@.len(),
            projects@ == config@.projects,
            findings_view(findings@) == all_findings(
                projects@.take(i as int),
                config@.profiles,
                store@,
            ),
        decreases n - i,
    {
        assert(projects@.take(i as int + 1).drop_last() =~= projects@.take(i as int));
        assert(projects@.take(i as int + 1).last() == projects@[i as int]);
        check_project(&mut findings, projects.name_at(i), projects.value_at(i), config, store);
        i += 1;
    }
    assert(projects@.take(n as int) =~= projects@);
    findings
}

} // verus!
