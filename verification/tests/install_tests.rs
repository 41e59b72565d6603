use swell_installer::install::{core_packages, sbpm_command, Installer};
use swell_installer::plan::{command, Action, Check, CommandSpec, Outcome, PlanRun, Step};

fn drive(plan: Vec<Step>, outcomes: Vec<Outcome>) -> (Vec<Action>, Result<(), String>) {
    let mut run = PlanRun::new(plan);
    let mut seen = Vec::new();
    let mut outs = outcomes.into_iter();
    while let Some(a) = run.next_action() {
        seen.push(a.clone());
        let o = outs.next().expect("an outcome for every action");
        run.advance(o);
    }
    (seen, run.finish())
}

fn drive_selected(inst: &Installer, outcomes: Vec<Outcome>) -> (Vec<Action>, Result<(), String>) {
    let mut b = inst.build_selected_packages();
    let mut seen = Vec::new();
    let mut outs = outcomes.into_iter();
    while let Some(a) = b.next_action() {
        seen.push(a.clone());
        let o = outs.next().expect("an outcome for every action");
        b.advance(o);
    }
    (seen, b.finish())
}

fn ok() -> Outcome {
    Outcome::Finished(true)
}

fn say(t: &str) -> Action {
    Action::Say(t.to_string())
}

fn sbpm(root: &str, args: &[&str]) -> Action {
    let mut all = vec!["-S".to_string()];
    all.extend(args.iter().map(|a| a.to_string()));
    Action::Run(CommandSpec { program: "sbpm".into(), args: all, env: vec![("SWELL_ROOT".into(), root.into())] })
}

#[test]
fn new_installer_has_no_packages() {
    let i = Installer::new("/mnt/swell");
    assert_eq!(i.root_mount, "/mnt/swell");
    assert!(i.selected_packages.is_empty());
}

#[test]
fn sbpm_sets_swell_root() {
    assert_eq!(Action::Run(sbpm_command("/r", &["gcc", "--source-only"])), sbpm("/r", &["gcc", "--source-only"]));
}

#[test]
fn core_plan_builds_every_package_in_order() {
    let plan = Installer::new("/mnt").build_core_system();
    assert_eq!(plan.len(), 32);
    assert_eq!(plan[0].action, say("Building core system packages..."));
    let pkgs = core_packages();
    assert_eq!(pkgs.len(), 14);
    assert_eq!(pkgs[0], "linux-api-headers");
    assert_eq!(pkgs[13], "patch");
    for (k, p) in pkgs.iter().enumerate() {
        assert_eq!(plan[1 + 2 * k].action, say(&format!("  Building: {}", p)));
        assert_eq!(
            plan[2 + 2 * k],
            Step {
                action: sbpm("/mnt", &[p, "--source-only"]),
                check: Check::MustSucceed { context: "failed to run sbpm".into(), failure: format!("failed to build core package: {}", p) },
            }
        );
    }
    assert_eq!(plan[29].action, say("  Building: runit"));
    assert_eq!(plan[30], Step { action: Action::Run(command("sbpm", &["-S", "runit"])), check: Check::Ignore });
    assert_eq!(plan[31].action, say("Core system build complete."));
}

#[test]
fn core_build_stops_at_the_first_failing_package() {
    let mut outs: Vec<Outcome> = (0..6).map(|_| ok()).collect();
    outs.push(Outcome::Finished(false));
    let (seen, r) = drive(Installer::new("/mnt").build_core_system(), outs);
    assert_eq!(seen.len(), 7);
    assert_eq!(r, Err("failed to build core package: gcc".to_string()));
    let (_, r) = drive(Installer::new("/mnt").build_core_system(), vec![ok(), ok(), Outcome::Failed("no sbpm".into())]);
    assert_eq!(r, Err("failed to run sbpm: no sbpm".to_string()));
    let mut outs: Vec<Outcome> = (0..30).map(|_| ok()).collect();
    outs.push(Outcome::Failed("runit".into()));
    outs.push(ok());
    let (_, r) = drive(Installer::new("/mnt").build_core_system(), outs);
    assert_eq!(r, Ok(()));
}

#[test]
fn copy_to_root_never_fails() {
    let plan = Installer::new("/mnt").copy_to_root();
    assert_eq!(plan.len(), 9);
    assert_eq!(plan[0].action, say("Copying built system to root..."));
    assert_eq!(plan[5].action, Action::CreateDirAll("/mnt/sys".into()));
    let (_, r) = drive(Installer::new("/mnt").copy_to_root(), (0..9).map(|_| Outcome::Failed("x".into())).collect());
    assert_eq!(r, Ok(()));
}

#[test]
fn metapackage_question() {
    let i = Installer::new("/mnt");
    assert_eq!(i.is_metapackage("gnome"), Action::IsDirectory("/usr/src/swell/packages/meta/gnome".into()));
}

#[test]
fn empty_selection_only_says_so() {
    let (seen, r) = drive_selected(&Installer::new("/mnt"), vec![ok()]);
    assert_eq!(seen, vec![say("No additional packages selected.")]);
    assert_eq!(r, Ok(()));
}

#[test]
fn selection_is_built_with_warnings() {
    let inst = Installer { root_mount: "/mnt".into(), selected_packages: vec!["gnome".into(), "vim".into()] };
    let outs = vec![ok(), ok(), ok(), Outcome::Finished(false), ok(), Outcome::Finished(false), ok(), Outcome::Finished(false), ok(), ok()];
    let (seen, r) = drive_selected(&inst, outs);
    assert_eq!(
        seen,
        vec![
            say("Building selected packages..."),
            Action::IsDirectory("/usr/src/swell/packages/meta/gnome".into()),
            say("  Resolving metapackage: gnome"),
            sbpm("/mnt", &["gnome"]),
            say("  Warning: gnome install had issues"),
            Action::IsDirectory("/usr/src/swell/packages/meta/vim".into()),
            say("  Building: vim"),
            sbpm("/mnt", &["vim"]),
            say("  Warning: vim build had issues"),
            say("Package build complete."),
        ]
    );
    assert_eq!(r, Ok(()));
}

#[test]
fn selection_stops_when_a_build_cannot_start() {
    let inst = Installer { root_mount: "/mnt".into(), selected_packages: vec!["gnome".into(), "vim".into()] };
    let (seen, r) = drive_selected(&inst, vec![ok(), ok(), ok(), Outcome::Failed("no sbpm".into())]);
    assert_eq!(seen.len(), 4);
    assert_eq!(r, Err("failed to install gnome: no sbpm".to_string()));
    let (_, r) = drive_selected(&inst, vec![ok(), Outcome::Finished(false), ok(), Outcome::Failed("gone".into())]);
    assert_eq!(r, Err("failed to build gnome: gone".to_string()));
}
