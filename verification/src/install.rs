//! Building the system from source with `sbpm`: the core packages, and the
//! packages and metapackages that the user selected.
use vstd::prelude::*;
use crate::boot::{
    push_system_mounts, system_mount_steps,
};
use crate::config::{
    join_path, path_join,
};
use crate::plan::{
    all_pass, concat, concat3, context_message, final_result, law_unstoppable_plan_completes,
    lemma_straight_run, owned, passes, progress_after, push_run, push_say, push_step, run_view,
    say_view, settle, step_view, steps_view, straight_from, Action, ActionView, Check, CheckView,
    CommandSpec, CommandView, Outcome, OutcomeView, Progress, Step, StepView,
};
use crate::text::{
    str_views, views,
};

verus! {

/// Where the package repository lives.
pub open spec fn repo_path() -> Seq<char> {
    "/usr/src/swell/packages"@
}

/// What builds the target system, and which extra packages go into it.
pub struct Installer {
    pub root_mount: String,
    pub selected_packages: Vec<String>,
}

/// The packages of the core system, in the order they are built.
pub open spec fn core_package_names() -> Seq<Seq<char>> {
    seq![
        "linux-api-headers"@,
        "glibc"@,
        "gcc"@,
        "binutils"@,
        "dash"@,
        "coreutils"@,
        "make"@,
        "sed"@,
        "grep"@,
        "gawk"@,
        "file"@,
        "diffutils"@,
        "findutils"@,
        "patch"@,
    ]
}

/// The packages of the core system, in the order they are built.
pub fn core_packages() -> (r: Vec<&'static str>)
    ensures
        str_views(r@) == core_package_names(),
{
    let r = vec![
        "linux-api-headers",
        "glibc",
        "gcc",
        "binutils",
        "dash",
        "coreutils",
        "make",
        "sed",
        "grep",
        "gawk",
        "file",
        "diffutils",
        "findutils",
        "patch",
    ];
    assert(str_views(r@) =~= core_package_names());
    r
}

/// `sbpm -S <args>` with `SWELL_ROOT` set to `root`.
pub open spec fn sbpm_view(root: Seq<char>, args: Seq<Seq<char>>) -> CommandView {
    CommandView { program: "sbpm"@, args: seq!["-S"@] + args, env: seq![("SWELL_ROOT"@, root)] }
}

/// `sbpm -S <args>` with `SWELL_ROOT` set to `root`.
pub fn sbpm_command(root: &str, args: &[&str]) -> (c: CommandSpec)
    ensures
        c@ == sbpm_view(root@, str_views(args@)),
{
    let mut all: Vec<String> = Vec::new();
    all.push(owned("-S"));
    let mut i: usize = 0;
    while i < args.len()
        invariant
            i <= args@.len(),
            views(all@) == seq!["-S"@] + str_views(args@.subrange(0, i as int)),
        decreases args@.len() - i,
    {
        let x = owned(args[i]);
        let ghost before = all@;
        all.push(x);
        assert(views(all@) =~= views(before).push(x@));
        assert(str_views(args@.subrange(0, i + 1)) =~= str_views(args@.subrange(0, i as int)).push(
            args@[i as int]@,
        ));
        i += 1;
    }
    assert(args@.subrange(0, i as int) =~= args@);
    let env = vec![(owned("SWELL_ROOT"), owned(root))];
    let c = CommandSpec { program: owned("sbpm"), args: all, env };
    assert(c@.env =~= seq![("SWELL_ROOT"@, root@)]);
    assert(c@.args =~= seq!["-S"@] + str_views(args@));
    c
}

/// The two steps that build the core package `pkg` into `root`: announce
/// it, then build it from source, required to succeed.
pub open spec fn core_package_steps(root: Seq<char>, pkg: Seq<char>) -> Seq<StepView> {
    seq![
        say_view("  Building: "@ + pkg),
        step_view(
            ActionView::Run(sbpm_view(root, seq![pkg, "--source-only"@])),
            CheckView::MustSucceed {
                context: "failed to run sbpm"@,
                failure: "failed to build core package: "@ + pkg,
            },
        ),
    ]
}

/// The steps that build each of `pkgs` in turn.
pub open spec fn core_packages_steps(root: Seq<char>, pkgs: Seq<Seq<char>>) -> Seq<StepView>
    decreases pkgs.len(),
{
    if pkgs.len() == 0 {
        Seq::empty()
    } else {
        core_packages_steps(root, pkgs.drop_last()) + core_package_steps(root, pkgs.last())
    }
}

/// Building the core system into `root`: announce it, build each core
/// package, stopping at the first that fails, then install `runit` (whatever
/// that gives) and report it.
pub open spec fn core_build_plan(root: Seq<char>) -> Seq<StepView> {
    seq![say_view("Building core system packages..."@)] + core_packages_steps(
        root,
        core_package_names(),
    ) + seq![
        say_view("  Building: runit"@),
        run_view("sbpm"@, seq!["-S"@, "runit"@], CheckView::Ignore),
        say_view("Core system build complete."@),
    ]
}

/// Copying the built system in place: announce it and bind-mount `/dev`,
/// `/proc`, `/sys` and `/run` into `root`, whatever these give.
pub open spec fn copy_plan(root: Seq<char>) -> Seq<StepView> {
    seq![say_view("Copying built system to root..."@)] + system_mount_steps(root)
}

/// The directory that makes `name` a metapackage.
pub open spec fn metapackage_dir(name: Seq<char>) -> Seq<char> {
    path_join(path_join(repo_path(), "meta"@), name)
}

impl Installer {
    /// An installer for the system mounted at `root_mount`, with no extra
    /// packages.
    pub fn new(root_mount: &str) -> (r: Installer)
        ensures
            r.root_mount@ == root_mount@,
            r.selected_packages@.len() == 0,
    {
        Installer { root_mount: owned(root_mount), selected_packages: Vec::new() }
    }

    /// The plan that builds the core system into the installer's root.
    pub fn build_core_system(&self) -> (plan: Vec<Step>)
        ensures
            steps_view(plan@) == core_build_plan(self.root_mount@),
    {
        let root = self.root_mount.as_str();
        let mut steps: Vec<Step> = Vec::new();
        push_say(&mut steps, owned("Building core system packages..."));
        let pkgs = core_packages();
        let mut i: usize = 0;
        while i < pkgs.len()
            invariant
                i <= pkgs@.len(),
                str_views(pkgs@) == core_package_names(),
                root@ == self.root_mount@,
                steps_view(steps@) == seq![say_view("Building core system packages..."@)]
                    + core_packages_steps(root@, str_views(pkgs@).subrange(0, i as int)),
            decreases pkgs@.len() - i,
        {
            let pkg = pkgs[i];
            let ghost before = str_views(pkgs@).subrange(0, i as int);
            let ghost upto = str_views(pkgs@).subrange(0, i + 1);
            assert(upto.drop_last() =~= before);
            assert(upto.last() == pkg@);
            let ghost s0 = steps_view(steps@);
            push_say(&mut steps, concat("  Building: ", pkg));
            let args = [pkg, "--source-only"];
            assert(str_views(args@) =~= seq![pkg@, "--source-only"@]);
            push_step(
                &mut steps,
                Action::Run(sbpm_command(root, &args)),
                Check::MustSucceed {
                    context: owned("failed to run sbpm"),
                    failure: concat("failed to build core package: ", pkg),
                },
            );
            assert(steps_view(steps@) =~= s0 + core_package_steps(root@, pkg@));
            i += 1;
        }
        assert(str_views(pkgs@).subrange(0, i as int) =~= core_package_names());
        let ghost s1 = steps_view(steps@);
        push_say(&mut steps, owned("  Building: runit"));
        let runit = ["-S", "runit"];
        assert(str_views(runit@) =~= seq!["-S"@, "runit"@]);
        push_run(&mut steps, "sbpm", &runit, Check::Ignore);
        push_say(&mut steps, owned("Core system build complete."));
        assert(steps_view(steps@) =~= core_build_plan(root@));
        steps
    }

    /// The plan that makes the system directories visible in the
    /// installer's root.
    pub fn copy_to_root(&self) -> (plan: Vec<Step>)
        ensures
            steps_view(plan@) == copy_plan(self.root_mount@),
    {
        let mut steps: Vec<Step> = Vec::new();
        push_say(&mut steps, owned("Copying built system to root..."));
        push_system_mounts(&mut steps, self.root_mount.as_str());
        assert(steps_view(steps@) =~= copy_plan(self.root_mount@));
        steps
    }

    /// Whether `name` is a metapackage: the question to ask of the file
    /// system, whether its directory exists in the repository.
    pub fn is_metapackage(&self, name: &str) -> (a: Action)
        ensures
            a@ == ActionView::IsDirectory(metapackage_dir(name@)),
    {
        let meta = join_path("/usr/src/swell/packages", "meta");
        Action::IsDirectory(join_path(meta.as_str(), name))
    }
}

/// Where a build of the selected packages stands. `Probe(i)` asks whether
/// package `i` is a metapackage; `Announce(i, m)` announces it (`m`: it is
/// one); `Build(i, m)` builds it; `Warn(i, m)` reports that its build had
/// issues; `Closing` reports the end; `Over` holds the result.
pub enum BuildStage {
    Start,
    Probe(nat),
    Announce(nat, bool),
    Build(nat, bool),
    Warn(nat, bool),
    Closing,
    Over(Result<(), Seq<char>>),
}

/// The line that announces the build of `pkg`.
pub open spec fn package_headline(pkg: Seq<char>, meta: bool) -> Seq<char> {
    if meta {
        "  Resolving metapackage: "@ + pkg
    } else {
        "  Building: "@ + pkg
    }
}

/// What a failure to start the build of `pkg` is reported with.
pub open spec fn package_error_context(pkg: Seq<char>, meta: bool) -> Seq<char> {
    if meta {
        "failed to install "@ + pkg
    } else {
        "failed to build "@ + pkg
    }
}

/// The line that reports that the build of `pkg` had issues.
pub open spec fn package_warning(pkg: Seq<char>, meta: bool) -> Seq<char> {
    if meta {
        "  Warning: "@ + pkg + " install had issues"@
    } else {
        "  Warning: "@ + pkg + " build had issues"@
    }
}

/// The action that a build of `pkgs` into `root` waits on at `st`, if any.
pub open spec fn selected_action(root: Seq<char>, pkgs: Seq<Seq<char>>, st: BuildStage) -> Option<
    ActionView,
> {
    match st {
        BuildStage::Start => if pkgs.len() == 0 {
            Some(ActionView::Say("No additional packages selected."@))
        } else {
            Some(ActionView::Say("Building selected packages..."@))
        },
        BuildStage::Probe(i) => Some(ActionView::IsDirectory(metapackage_dir(pkgs[i as int]))),
        BuildStage::Announce(i, m) => Some(ActionView::Say(package_headline(pkgs[i as int], m))),
        BuildStage::Build(i, _) => Some(ActionView::Run(sbpm_view(root, seq![pkgs[i as int]]))),
        BuildStage::Warn(i, m) => Some(ActionView::Say(package_warning(pkgs[i as int], m))),
        BuildStage::Closing => Some(ActionView::Say("Package build complete."@)),
        BuildStage::Over(_) => None,
    }
}

/// What follows the package at `i`: the next package, or the closing line.
pub open spec fn after_package(pkgs: Seq<Seq<char>>, i: nat) -> BuildStage {
    if i + 1 < pkgs.len() {
        BuildStage::Probe(i + 1)
    } else {
        BuildStage::Closing
    }
}

/// What the outcome `out` of the action at `st` leads to. A package is a
/// metapackage where the question about its directory was answered `true`. A
/// build that cannot be started stops everything with its error; one that
/// fails is only reported.
pub open spec fn selected_next(pkgs: Seq<Seq<char>>, st: BuildStage, out: OutcomeView) -> BuildStage {
    match st {
        BuildStage::Start => if pkgs.len() == 0 {
            BuildStage::Over(Ok(()))
        } else {
            BuildStage::Probe(0)
        },
        BuildStage::Probe(i) => BuildStage::Announce(i, out == OutcomeView::Finished(true)),
        BuildStage::Announce(i, m) => BuildStage::Build(i, m),
        BuildStage::Build(i, m) => match out {
            OutcomeView::Failed(e) => BuildStage::Over(
                Err(context_message(package_error_context(pkgs[i as int], m), e)),
            ),
            OutcomeView::Finished(ok) => if ok {
                after_package(pkgs, i)
            } else {
                BuildStage::Warn(i, m)
            },
        },
        BuildStage::Warn(i, _) => after_package(pkgs, i),
        BuildStage::Closing => BuildStage::Over(Ok(())),
        BuildStage::Over(r) => BuildStage::Over(r),
    }
}

/// Where a build of `pkgs` stands after the outcomes `outs`, in order.
pub open spec fn selected_stage(pkgs: Seq<Seq<char>>, outs: Seq<OutcomeView>) -> BuildStage
    decreases outs.len(),
{
    if outs.len() == 0 {
        BuildStage::Start
    } else {
        selected_next(pkgs, selected_stage(pkgs, outs.drop_last()), outs.last())
    }
}

/// The result of a build that stands at `st` and waits on nothing.
pub open spec fn selected_result(st: BuildStage) -> Result<(), Seq<char>> {
    match st {
        BuildStage::Over(r) => r,
        _ => Ok(()),
    }
}

/// [`BuildStage`] with machine indices and an owned message.
enum Stage {
    Start,
    Probe(usize),
    Announce(usize, bool),
    Build(usize, bool),
    Warn(usize, bool),
    Closing,
    Over(Option<String>),
}

spec fn stage_view(s: Stage) -> BuildStage {
    match s {
        Stage::Start => BuildStage::Start,
        Stage::Probe(i) => BuildStage::Probe(i as nat),
        Stage::Announce(i, m) => BuildStage::Announce(i as nat, m),
        Stage::Build(i, m) => BuildStage::Build(i as nat, m),
        Stage::Warn(i, m) => BuildStage::Warn(i as nat, m),
        Stage::Closing => BuildStage::Closing,
        Stage::Over(None) => BuildStage::Over(Ok(())),
        Stage::Over(Some(e)) => BuildStage::Over(Err(e@)),
    }
}

spec fn stage_in_bounds(s: Stage, n: nat) -> bool {
    match s {
        Stage::Probe(i) => i < n,
        Stage::Announce(i, _) => i < n,
        Stage::Build(i, _) => i < n,
        Stage::Warn(i, _) => i < n,
        _ => true,
    }
}

/// A build of the selected packages: it hands out one action at a time and
/// takes back its outcome.
pub struct SelectedBuild {
    root: String,
    packages: Vec<String>,
    stage: Stage,
    outcomes: Ghost<Seq<OutcomeView>>,
}

impl SelectedBuild {
    /// The root the packages are built into.
    pub closed spec fn root(&self) -> Seq<char> {
        self.root@
    }

    /// The packages to build, in order.
    pub closed spec fn packages(&self) -> Seq<Seq<char>> {
        views(self.packages@)
    }

    /// The outcomes handed back so far.
    pub closed spec fn history(&self) -> Seq<OutcomeView> {
        self.outcomes@
    }

    /// Where the build stands.
    pub open spec fn stage(&self) -> BuildStage {
        selected_stage(self.packages(), self.history())
    }

    /// The build's internal state agrees with its packages and history.
    pub closed spec fn wf(&self) -> bool {
        &&& stage_view(self.stage) == self.stage()
        &&& stage_in_bounds(self.stage, self.packages@.len())
    }

    /// The action that the build waits on, or `None` where it is over.
    pub fn next_action(&self) -> (a: Option<Action>)
        requires
            self.wf(),
        ensures
            match a {
                Some(x) => selected_action(self.root(), self.packages(), self.stage()) == Some(x@),
                None => selected_action(self.root(), self.packages(), self.stage()) is None,
            },
    {
        assert(views(self.packages@).len() == self.packages@.len());
        match &self.stage {
            Stage::Start => if self.packages.len() == 0 {
                Some(Action::Say(owned("No additional packages selected.")))
            } else {
                Some(Action::Say(owned("Building selected packages...")))
            },
            Stage::Probe(i) => {
                assert(views(self.packages@)[*i as int] == self.packages@[*i as int]@);
                let meta = join_path("/usr/src/swell/packages", "meta");
                Some(Action::IsDirectory(join_path(meta.as_str(), self.packages[*i].as_str())))
            },
            Stage::Announce(i, m) => {
                assert(views(self.packages@)[*i as int] == self.packages@[*i as int]@);
                let pkg = self.packages[*i].as_str();
                if *m {
                    Some(Action::Say(concat("  Resolving metapackage: ", pkg)))
                } else {
                    Some(Action::Say(concat("  Building: ", pkg)))
                }
            },
            Stage::Build(i, _) => {
                assert(views(self.packages@)[*i as int] == self.packages@[*i as int]@);
                let args = [self.packages[*i].as_str()];
                assert(str_views(args@) =~= seq![self.packages@[*i as int]@]);
                Some(Action::Run(sbpm_command(self.root.as_str(), &args)))
            },
            Stage::Warn(i, m) => {
                assert(views(self.packages@)[*i as int] == self.packages@[*i as int]@);
                let pkg = self.packages[*i].as_str();
                if *m {
                    Some(Action::Say(concat3("  Warning: ", pkg, " install had issues")))
                } else {
                    Some(Action::Say(concat3("  Warning: ", pkg, " build had issues")))
                }
            },
            Stage::Closing => Some(Action::Say(owned("Package build complete."))),
            Stage::Over(_) => None,
        }
    }

    /// Hands back the outcome of the action that the build waits on.
    pub fn advance(&mut self, outcome: Outcome)
        requires
            old(self).wf(),
            selected_action(old(self).root(), old(self).packages(), old(self).stage()) is Some,
        ensures
            final(self).wf(),
            final(self).root() == old(self).root(),
            final(self).packages() == old(self).packages(),
            final(self).history() == old(self).history().push(outcome@),
    {
        let ghost h = self.outcomes@;
        let ghost h2 = h.push(outcome@);
        assert(h2.drop_last() =~= h);
        assert(views(self.packages@).len() == self.packages@.len());
        let n = self.packages.len();
        let next = match &self.stage {
            Stage::Start => if n == 0 {
                Stage::Over(None)
            } else {
                Stage::Probe(0)
            },
            Stage::Probe(i) => {
                let meta = match &outcome {
                    Outcome::Finished(b) => *b,
                    Outcome::Failed(_) => false,
                };
                Stage::Announce(*i, meta)
            },
            Stage::Announce(i, m) => Stage::Build(*i, *m),
            Stage::Build(i, m) => match &outcome {
                Outcome::Failed(e) => {
                    assert(views(self.packages@)[*i as int] == self.packages@[*i as int]@);
                    let pkg = self.packages[*i].as_str();
                    let mut msg = if *m {
                        concat("failed to install ", pkg)
                    } else {
                        concat("failed to build ", pkg)
                    };
                    msg.append(": ");
                    msg.append(e.as_str());
                    Stage::Over(Some(msg))
                },
                Outcome::Finished(ok) => if *ok {
                    if *i + 1 < n {
                        Stage::Probe(*i + 1)
                    } else {
                        Stage::Closing
                    }
                } else {
                    Stage::Warn(*i, *m)
                },
            },
            Stage::Warn(i, _) => if *i + 1 < n {
                Stage::Probe(*i + 1)
            } else {
                Stage::Closing
            },
            Stage::Closing => Stage::Over(None),
            Stage::Over(_) => Stage::Over(None),
        };
        self.stage = next;
        self.outcomes = Ghost(h2);
    }

    /// The result of a build that is over.
    pub fn finish(self) -> (r: Result<(), String>)
        requires
            self.wf(),
            selected_action(self.root(), self.packages(), self.stage()) is None,
        ensures
            crate::plan::result_view(r) == selected_result(self.stage()),
    {
        match self.stage {
            Stage::Over(Some(e)) => Err(e),
            _ => Ok(()),
        }
    }
}

/// Owned copies of the strings of `v`.
fn copy_strings(v: &Vec<String>) -> (r: Vec<String>)
    ensures
        views(r@) == views(v@),
{
    let mut r: Vec<String> = Vec::new();
    let mut i: usize = 0;
    while i < v.len()
        invariant
            i <= v@.len(),
            r@ == v@.subrange(0, i as int),
        decreases v@.len() - i,
    {
        r.push(v[i].clone());
        i += 1;
        assert(r@ =~= v@.subrange(0, i as int));
    }
    assert(r@ =~= v@);
    r
}

impl Installer {
    /// A build of the selected packages into the installer's root, not yet
    /// begun. For each package it asks whether the package is a metapackage,
    /// announces it accordingly and builds it with `sbpm`; a build that fails
    /// is reported and the next package follows; a build that cannot be
    /// started ends the whole with an error.
    pub fn build_selected_packages(&self) -> (b: SelectedBuild)
        ensures
            b.wf(),
            b.root() == self.root_mount@,
            b.packages() == views(self.selected_packages@),
            b.history() == Seq::<OutcomeView>::empty(),
    {
        SelectedBuild {
            root: self.root_mount.clone(),
            packages: copy_strings(&self.selected_packages),
            stage: Stage::Start,
            outcomes: Ghost(Seq::empty()),
        }
    }
}

/// The shape of the steps that build `pkgs`: for each package, a line and
/// then its build, which must succeed.
proof fn lemma_core_packages_steps_shape(root: Seq<char>, pkgs: Seq<Seq<char>>)
    ensures
        core_packages_steps(root, pkgs).len() == 2 * pkgs.len(),
        forall|k: int|
            0 <= k < pkgs.len() ==> (#[trigger] core_packages_steps(root, pkgs)[2 * k]).check
                is Ignore,
        forall|k: int|
            0 <= k < pkgs.len() ==> (#[trigger] core_packages_steps(root, pkgs)[2 * k + 1]).check
                == (CheckView::MustSucceed {
                context: "failed to run sbpm"@,
                failure: "failed to build core package: "@ + pkgs[k],
            }),
    decreases pkgs.len(),
{
    if pkgs.len() > 0 {
        let prev = pkgs.drop_last();
        lemma_core_packages_steps_shape(root, prev);
        let s = core_packages_steps(root, pkgs);
        let sp = core_packages_steps(root, prev);
        let n = prev.len() as int;
        assert forall|k: int| 0 <= k < pkgs.len() implies (#[trigger] s[2 * k]).check is Ignore by {
            if k < n {
                assert(s[2 * k] == sp[2 * k]);
            }
        }
        assert forall|k: int| 0 <= k < pkgs.len() implies (#[trigger] s[2 * k + 1]).check == (
        CheckView::MustSucceed {
            context: "failed to run sbpm"@,
            failure: "failed to build core package: "@ + pkgs[k],
        }) by {
            if k < n {
                assert(s[2 * k + 1] == sp[2 * k + 1]);
                assert(prev[k] == pkgs[k]);
            }
        }
    }
}

/// The shape of the core build plan: step `2 + 2k` builds core package `k`
/// and must succeed; no other step can stop the build.
proof fn lemma_core_build_plan_shape(root: Seq<char>)
    ensures
        core_build_plan(root).len() == 32,
        straight_from(core_build_plan(root), 0),
        forall|i: int|
            0 <= i < 32 && (i < 2 || i % 2 == 1 || i >= 30) ==> (#[trigger] core_build_plan(
                root,
            )[i]).check is Ignore,
        forall|k: int|
            0 <= k < 14 ==> (#[trigger] core_build_plan(root)[2 + 2 * k]).check == (
            CheckView::MustSucceed {
                context: "failed to run sbpm"@,
                failure: "failed to build core package: "@ + core_package_names()[k],
            }),
{
    let names = core_package_names();
    let p = core_build_plan(root);
    let c = core_packages_steps(root, names);
    lemma_core_packages_steps_shape(root, names);
    assert(names.len() == 14);
    assert forall|i: int|
        0 <= i < 32 && (i < 2 || i % 2 == 1 || i >= 30) implies (#[trigger] p[i]).check
        is Ignore by {
        if 1 <= i < 29 {
            assert(p[i] == c[i - 1]);
            assert(c[2 * ((i - 1) / 2)].check is Ignore);
        }
    }
    assert forall|k: int| 0 <= k < 14 implies (#[trigger] p[2 + 2 * k]).check == (
    CheckView::MustSucceed {
        context: "failed to run sbpm"@,
        failure: "failed to build core package: "@ + names[k],
    }) by {
        assert(p[2 + 2 * k] == c[2 * k + 1]);
    }
    assert forall|i: int| 0 <= i < p.len() implies !(#[trigger] p[i].check is SkipOnSuccess) by {
        if 2 <= i < 30 && i % 2 == 0 {
            assert(p[2 + 2 * ((i - 2) / 2)].check is MustSucceed);
        }
    }
}

/// Every core package before the `k`-th was built successfully.
pub open spec fn core_builds_succeeded(outs: Seq<OutcomeView>, k: int) -> bool {
    forall|j: int| 0 <= j < k ==> #[trigger] outs[2 + 2 * j] == OutcomeView::Finished(true)
}

/// Building the core system ends successfully exactly when the build of every
/// core package exited successfully, whatever `runit` gave; and the first
/// core package whose build fails stops everything with "failed to build
/// core package: " and its name.
pub proof fn law_core_build_needs_every_package(root: Seq<char>, outs: Seq<OutcomeView>)
    requires
        outs.len() == core_build_plan(root).len(),
    ensures
        final_result(progress_after(core_build_plan(root), outs)) == Ok::<(), Seq<char>>(())
            <==> core_builds_succeeded(outs, 14),
        forall|k: int|
            0 <= k < 14 && core_builds_succeeded(outs, k) && #[trigger] outs[2 + 2 * k]
                == OutcomeView::Finished(false) ==> progress_after(core_build_plan(root), outs)
                == Progress::Stopped(
                Err("failed to build core package: "@ + core_package_names()[k]),
            ),
{
    let p = core_build_plan(root);
    lemma_core_build_plan_shape(root);
    lemma_straight_run(p, 0, outs);
    if core_builds_succeeded(outs, 14) {
        assert forall|i: int| 0 <= i < outs.len() implies passes(
            p[0 + i].check,
            #[trigger] outs[i],
        ) by {
            if 2 <= i < 30 && i % 2 == 0 {
                let k = (i - 2) / 2;
                assert(outs[2 + 2 * k] == OutcomeView::Finished(true));
            } else {
                assert(p[i].check is Ignore);
            }
        }
    } else {
        let k = choose|k: int|
            0 <= k < 14 && !(#[trigger] outs[2 + 2 * k] == OutcomeView::Finished(true));
        assert(!passes(p[2 + 2 * k].check, outs[2 + 2 * k]));
        assert(!all_pass(p, 0, outs));
    }
    if !all_pass(p, 0, outs) {
        let i = choose|i: int|
            #![trigger outs[i]]
            0 <= i < outs.len() && all_pass(p, 0, outs.subrange(0, i)) && !passes(
                p[0 + i].check,
                outs[i],
            ) && progress_after(p, outs) == settle(p[0 + i].check, outs[i], (0 + i) as nat);
        if !(2 <= i < 30 && i % 2 == 0) {
            assert(p[i].check is Ignore);
        }
        let ki = (i - 2) / 2;
        assert(i == 2 + 2 * ki);
        assert forall|k: int|
            0 <= k < 14 && core_builds_succeeded(outs, k) && #[trigger] outs[2 + 2 * k]
                == OutcomeView::Finished(false) implies progress_after(p, outs)
            == Progress::Stopped(Err("failed to build core package: "@ + core_package_names()[k]))
        by {
            if ki < k {
                assert(outs[2 + 2 * ki] == OutcomeView::Finished(true));
            } else if k < ki {
                assert(outs.subrange(0, i)[2 + 2 * k] == outs[2 + 2 * k]);
                assert(passes(p[0 + (2 + 2 * k)].check, outs.subrange(0, i)[2 + 2 * k]));
            }
        }
    }
}

/// The package indices of a stage are indices of `pkgs`.
pub open spec fn stage_within(pkgs: Seq<Seq<char>>, st: BuildStage) -> bool {
    match st {
        BuildStage::Probe(i) => i < pkgs.len(),
        BuildStage::Announce(i, _) => i < pkgs.len(),
        BuildStage::Build(i, _) => i < pkgs.len(),
        BuildStage::Warn(i, _) => i < pkgs.len(),
        _ => true,
    }
}

/// A build of the selected packages ends with an error only where the build
/// of one of them could not be started, and the error names that package
/// and holds the reason: "failed to install <pkg>: <reason>" for a
/// metapackage, "failed to build <pkg>: <reason>" for another package.
pub proof fn law_selected_errors_come_from_unstartable_builds(
    pkgs: Seq<Seq<char>>,
    outs: Seq<OutcomeView>,
)
    ensures
        stage_within(pkgs, selected_stage(pkgs, outs)),
        forall|m: Seq<char>|
            selected_stage(pkgs, outs) == BuildStage::Over(Err(m)) ==> exists|k: int, i: int, meta: bool|
                #![trigger outs[k], package_error_context(pkgs[i], meta)]
                0 <= k < outs.len() && 0 <= i < pkgs.len() && outs[k] is Failed && m
                    == context_message(package_error_context(pkgs[i], meta), outs[k]->Failed_0),
    decreases outs.len(),
{
    if outs.len() > 0 {
        let prev = outs.drop_last();
        law_selected_errors_come_from_unstartable_builds(pkgs, prev);
        let st = selected_stage(pkgs, prev);
        assert forall|m: Seq<char>|
            selected_stage(pkgs, outs) == BuildStage::Over(Err(m)) implies exists|k: int, i: int, meta: bool|
                #![trigger outs[k], package_error_context(pkgs[i], meta)]
                0 <= k < outs.len() && 0 <= i < pkgs.len() && outs[k] is Failed && m
                    == context_message(package_error_context(pkgs[i], meta), outs[k]->Failed_0) by {
            match st {
                BuildStage::Over(r) => {
                    let (k, i, meta) = choose|k: int, i: int, meta: bool|
                        #![trigger prev[k], package_error_context(pkgs[i], meta)]
                        0 <= k < prev.len() && 0 <= i < pkgs.len() && prev[k] is Failed && m
                            == context_message(
                            package_error_context(pkgs[i], meta),
                            prev[k]->Failed_0,
                        );
                    assert(outs[k] == prev[k]);
                },
                BuildStage::Build(i, meta) => {
                    let k = outs.len() - 1;
                    assert(outs.last() == outs[k]);
                    assert(outs[k] is Failed);
                    assert(package_error_context(pkgs[i as int], meta) == package_error_context(
                        pkgs[i as int],
                        meta,
                    ));
                },
                _ => {},
            }
        }
    }
}

/// A package whose build fails does not stop the build of the selection:
/// the failure is reported with a warning, and then the next package
/// follows, or the closing line after the last.
pub proof fn law_selected_failed_build_warns_and_goes_on(
    pkgs: Seq<Seq<char>>,
    i: nat,
    meta: bool,
    shown: OutcomeView,
)
    requires
        i < pkgs.len(),
    ensures
        selected_next(pkgs, BuildStage::Build(i, meta), OutcomeView::Finished(false))
            == BuildStage::Warn(i, meta),
        selected_action(pkgs[i as int], pkgs, BuildStage::Warn(i, meta)) == Some(
            ActionView::Say(package_warning(pkgs[i as int], meta)),
        ),
        selected_next(pkgs, BuildStage::Warn(i, meta), shown) == after_package(pkgs, i),
        after_package(pkgs, i) == if i + 1 < pkgs.len() {
            BuildStage::Probe(i + 1)
        } else {
            BuildStage::Closing
        },
{
}

/// With nothing selected, the build only says so and ends successfully.
pub proof fn law_empty_selection_only_says_so(said: OutcomeView)
    ensures
        selected_action(Seq::empty(), Seq::empty(), BuildStage::Start) == Some(
            ActionView::Say("No additional packages selected."@),
        ),
        selected_stage(Seq::empty(), seq![said]) == BuildStage::Over(Ok(())),
{
    let outs = seq![said];
    assert(outs.len() == 1);
    assert(outs.drop_last() =~= Seq::<OutcomeView>::empty());
    assert(outs.last() == said);
    assert(selected_stage(Seq::<Seq<char>>::empty(), outs.drop_last()) == BuildStage::Start);
}

/// Making the system directories visible in the root never makes the
/// installer stop with an error, whatever the bind mounts give.
pub proof fn law_copy_to_root_never_fails(root: Seq<char>, outs: Seq<OutcomeView>)
    ensures
        final_result(progress_after(copy_plan(root), outs)) == Ok::<(), Seq<char>>(()),
{
    let p = copy_plan(root);
    let m = system_mount_steps(root);
    assert forall|i: int| 0 <= i < p.len() implies (#[trigger] p[i].check is Ignore
        || p[i].check is SkipOnSuccess) by {
        if i > 0 {
            assert(p[i] == m[i - 1]);
        }
    }
    law_unstoppable_plan_completes(p, outs);
}

/// `n` outcomes that are all successes.
pub open spec fn all_succeeded(n: nat) -> Seq<OutcomeView> {
    Seq::new(n, |k: int| OutcomeView::Finished(true))
}

/// A package build that succeeds moves the selection on: to asking about
/// the next package where there is one, else to the closing line.
pub proof fn law_selected_success_moves_on(pkgs: Seq<Seq<char>>, i: nat, meta: bool)
    requires
        i < pkgs.len(),
    ensures
        selected_next(pkgs, BuildStage::Build(i, meta), OutcomeView::Finished(true)) == if i + 1
            < pkgs.len() {
            BuildStage::Probe(i + 1)
        } else {
            BuildStage::Closing
        },
{
}

proof fn lemma_all_succeeded_step(pkgs: Seq<Seq<char>>, n: nat)
    ensures
        selected_stage(pkgs, all_succeeded(n + 1)) == selected_next(
            pkgs,
            selected_stage(pkgs, all_succeeded(n)),
            OutcomeView::Finished(true),
        ),
{
    assert(all_succeeded(n + 1).drop_last() =~= all_succeeded(n));
    assert(all_succeeded(n + 1).last() == OutcomeView::Finished(true));
}

proof fn lemma_all_succeeded_probe(pkgs: Seq<Seq<char>>, i: nat)
    requires
        i < pkgs.len(),
    ensures
        selected_stage(pkgs, all_succeeded(3 * i + 1)) == BuildStage::Probe(i),
    decreases i,
{
    if i == 0 {
        lemma_all_succeeded_step(pkgs, 0);
        assert(all_succeeded(0) =~= Seq::<OutcomeView>::empty());
    } else {
        let j = (i - 1) as nat;
        lemma_all_succeeded_probe(pkgs, j);
        lemma_all_succeeded_step(pkgs, 3 * j + 1);
        lemma_all_succeeded_step(pkgs, 3 * j + 2);
        lemma_all_succeeded_step(pkgs, 3 * j + 3);
        assert(3 * j + 4 == 3 * i + 1);
    }
}

/// Where every question is answered "yes" and every action succeeds, the
/// build of the selection hands out `sbpm -S <pkg>` with `SWELL_ROOT` set
/// to the root for every selected package, in order (the `i`-th after
/// `3 * i + 3` outcomes), and then ends successfully after the closing line.
pub proof fn law_selected_builds_every_package(root: Seq<char>, pkgs: Seq<Seq<char>>)
    requires
        pkgs.len() > 0,
    ensures
        forall|i: nat|
            i < pkgs.len() ==> selected_stage(pkgs, #[trigger] all_succeeded(3 * i + 3))
                == BuildStage::Build(i, true),
        forall|i: nat|
            i < pkgs.len() ==> selected_action(
                root,
                pkgs,
                selected_stage(pkgs, #[trigger] all_succeeded(3 * i + 3)),
            ) == Some(
                ActionView::Run(
                    CommandView {
                        program: "sbpm"@,
                        args: seq!["-S"@, pkgs[i as int]],
                        env: seq![("SWELL_ROOT"@, root)],
                    },
                ),
            ),
        selected_stage(pkgs, all_succeeded(3 * pkgs.len() + 2)) == BuildStage::Over(Ok(())),
{
    assert forall|i: nat| i < pkgs.len() implies selected_stage(
        pkgs,
        #[trigger] all_succeeded(3 * i + 3),
    ) == BuildStage::Build(i, true) by {
        lemma_all_succeeded_probe(pkgs, i);
        lemma_all_succeeded_step(pkgs, 3 * i + 1);
        lemma_all_succeeded_step(pkgs, 3 * i + 2);
    }
    assert forall|i: nat| i < pkgs.len() implies selected_action(
        root,
        pkgs,
        selected_stage(pkgs, #[trigger] all_succeeded(3 * i + 3)),
    ) == Some(
        ActionView::Run(
            CommandView {
                program: "sbpm"@,
                args: seq!["-S"@, pkgs[i as int]],
                env: seq![("SWELL_ROOT"@, root)],
            },
        ),
    ) by {
        assert(selected_stage(pkgs, all_succeeded(3 * i + 3)) == BuildStage::Build(i, true));
        assert(seq!["-S"@] + seq![pkgs[i as int]] =~= seq!["-S"@, pkgs[i as int]]);
    }
    let last = (pkgs.len() - 1) as nat;
    assert(selected_stage(pkgs, all_succeeded(3 * last + 3)) == BuildStage::Build(last, true));
    lemma_all_succeeded_step(pkgs, 3 * last + 3);
    lemma_all_succeeded_step(pkgs, 3 * last + 4);
    assert(3 * last + 5 == 3 * pkgs.len() + 2);
}

/// Copying the system in place announces it, then creates `<root>/<d>` and
/// bind-mounts `/<d>` onto it for each of `dev`, `proc`, `sys` and `run`, in
/// that order, and does nothing else.
pub proof fn law_copy_to_root_mounts_system_dirs(root: Seq<char>)
    ensures
        copy_plan(root).len() == 9,
        copy_plan(root)[0].action == ActionView::Say("Copying built system to root..."@),
        forall|k: int|
            0 <= k < 4 ==> (#[trigger] copy_plan(root)[1 + 2 * k]).action
                == ActionView::CreateDirAll(root + "/"@ + crate::boot::system_dir(k)),
        forall|k: int|
            0 <= k < 4 ==> (#[trigger] copy_plan(root)[2 + 2 * k]).action == ActionView::Run(
                CommandView {
                    program: "mount"@,
                    args: seq![
                        "--bind"@,
                        "/"@ + crate::boot::system_dir(k),
                        root + "/"@ + crate::boot::system_dir(k),
                    ],
                    env: Seq::empty(),
                },
            ),
{
    crate::boot::law_system_mounts(root);
    let p = copy_plan(root);
    let m = system_mount_steps(root);
    assert forall|i: int| 1 <= i < 9 implies #[trigger] p[i] == m[i - 1] by {}
}

/// The core system is built from these packages, in this order, each from
/// source with `sbpm -S <pkg> --source-only` and `SWELL_ROOT` set to the
/// root, and then `runit` with plain `sbpm -S runit`.
pub proof fn law_core_packages_built(root: Seq<char>)
    ensures
        ({
            let names = seq![
                "linux-api-headers"@,
                "glibc"@,
                "gcc"@,
                "binutils"@,
                "dash"@,
                "coreutils"@,
                "make"@,
                "sed"@,
                "grep"@,
                "gawk"@,
                "file"@,
                "diffutils"@,
                "findutils"@,
                "patch"@,
            ];
            forall|k: int|
                0 <= k < 14 ==> (#[trigger] core_build_plan(root)[2 + 2 * k]).action
                    == ActionView::Run(
                    CommandView {
                        program: "sbpm"@,
                        args: seq!["-S"@, names[k], "--source-only"@],
                        env: seq![("SWELL_ROOT"@, root)],
                    },
                )
        }),
        core_build_plan(root).len() == 32,
        core_build_plan(root)[30].action == ActionView::Run(
            CommandView { program: "sbpm"@, args: seq!["-S"@, "runit"@], env: Seq::empty() },
        ),
{
    let names = core_package_names();
    let p = core_build_plan(root);
    let c = core_packages_steps(root, names);
    lemma_core_packages_steps_actions(root, names);
    assert forall|k: int| 0 <= k < 14 implies (#[trigger] p[2 + 2 * k]).action == ActionView::Run(
        CommandView {
            program: "sbpm"@,
            args: seq!["-S"@, names[k], "--source-only"@],
            env: seq![("SWELL_ROOT"@, root)],
        },
    ) by {
        assert(p[2 + 2 * k] == c[2 * k + 1]);
        assert(seq!["-S"@] + seq![names[k], "--source-only"@] =~= seq![
            "-S"@,
            names[k],
            "--source-only"@,
        ]);
    }
    lemma_core_build_plan_shape(root);
}

proof fn lemma_core_packages_steps_actions(root: Seq<char>, pkgs: Seq<Seq<char>>)
    ensures
        core_packages_steps(root, pkgs).len() == 2 * pkgs.len(),
        forall|k: int|
            0 <= k < pkgs.len() ==> (#[trigger] core_packages_steps(root, pkgs)[2 * k + 1]).action
                == ActionView::Run(sbpm_view(root, seq![pkgs[k], "--source-only"@])),
    decreases pkgs.len(),
{
    if pkgs.len() > 0 {
        let prev = pkgs.drop_last();
        lemma_core_packages_steps_actions(root, prev);
        let s = core_packages_steps(root, pkgs);
        let sp = core_packages_steps(root, prev);
        assert forall|k: int| 0 <= k < pkgs.len() implies (#[trigger] s[2 * k + 1]).action
            == ActionView::Run(sbpm_view(root, seq![pkgs[k], "--source-only"@])) by {
            if k < prev.len() {
                assert(s[2 * k + 1] == sp[2 * k + 1]);
                assert(prev[k] == pkgs[k]);
            }
        }
    }
}

} // verus!
