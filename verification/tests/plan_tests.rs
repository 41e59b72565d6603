use swell_installer::plan::{
    command, Action, Check, CommandSpec, Outcome, PlanRun, Step,
};

fn drive(plan: Vec<Step>, outcomes: Vec<Outcome>) -> (Vec<Action>, Result<(), String>) {
    let mut run = PlanRun::new(plan);
    let mut seen = Vec::new();
    let mut outs = outcomes.into_iter();
    while let Some(a) = run.next_action() {
        seen.push(a.clone());
        let o = outs.next().expect("an outcome for every action");
        run.advance(o);
    }
    (seen, run.finish())
}

fn say(t: &str) -> Step {
    Step { action: Action::Say(t.to_string()), check: Check::Ignore }
}

fn run(program: &str, check: Check) -> Step {
    Step { action: Action::Run(command(program, &[])), check }
}

#[test]
fn command_has_no_environment_of_its_own() {
    let c = command("mount", &["--bind", "/dev", "/mnt/dev"]);
    assert_eq!(
        c,
        CommandSpec {
            program: "mount".to_string(),
            args: vec!["--bind".to_string(), "/dev".to_string(), "/mnt/dev".to_string()],
            env: vec![],
        }
    );
}

#[test]
fn empty_plan_completes_at_once() {
    let (seen, r) = drive(vec![], vec![]);
    assert!(seen.is_empty());
    assert_eq!(r, Ok(()));
}

#[test]
fn must_start_stops_with_context_and_error() {
    let plan = vec![
        Step {
            action: Action::WriteFile { path: "/x".into(), contents: "y".into() },
            check: Check::MustStart("failed to write x".into()),
        },
        say("never"),
    ];
    let (seen, r) = drive(plan, vec![Outcome::Failed("Permission denied".into())]);
    assert_eq!(seen.len(), 1);
    assert_eq!(r, Err("failed to write x: Permission denied".to_string()));
}

#[test]
fn must_start_lets_an_unsuccessful_exit_pass() {
    let plan = vec![run("p", Check::MustStart("ctx".into())), say("after")];
    let (seen, r) = drive(plan, vec![Outcome::Finished(false), Outcome::Finished(true)]);
    assert_eq!(seen.len(), 2);
    assert_eq!(r, Ok(()));
}

#[test]
fn must_succeed_stops_with_failure_message() {
    let check = || Check::MustSucceed { context: "failed to run p".into(), failure: "p failed".into() };
    let (seen, r) = drive(vec![run("p", check()), say("after")], vec![Outcome::Finished(false)]);
    assert_eq!(seen.len(), 1);
    assert_eq!(r, Err("p failed".to_string()));
    let (_, r) = drive(vec![run("p", check()), say("after")], vec![Outcome::Failed("No such file".into())]);
    assert_eq!(r, Err("failed to run p: No such file".to_string()));
    let (seen, r) = drive(
        vec![run("p", check()), say("after")],
        vec![Outcome::Finished(true), Outcome::Finished(true)],
    );
    assert_eq!(seen.len(), 2);
    assert_eq!(r, Ok(()));
}

#[test]
fn essential_stops_with_empty_message() {
    let (seen, r) = drive(vec![run("p", Check::Essential), say("after")], vec![Outcome::Failed("e".into())]);
    assert_eq!(seen.len(), 1);
    assert_eq!(r, Err(String::new()));
    let (_, r) = drive(vec![run("p", Check::Essential)], vec![Outcome::Finished(false)]);
    assert_eq!(r, Err(String::new()));
}

#[test]
fn skip_on_success_leaves_steps_out() {
    let plan = || vec![run("a", Check::SkipOnSuccess(2)), say("b"), say("c"), say("d")];
    let (seen, r) = drive(plan(), vec![Outcome::Finished(true), Outcome::Finished(true)]);
    assert_eq!(seen.len(), 2);
    assert_eq!(seen[1], Action::Say("d".into()));
    assert_eq!(r, Ok(()));
    let (seen, _) = drive(plan(), vec![Outcome::Finished(false); 4]);
    assert_eq!(seen.len(), 4);
    let (seen, _) = drive(plan(), vec![Outcome::Failed("x".into()), Outcome::Finished(true), Outcome::Finished(true), Outcome::Finished(true)]);
    assert_eq!(seen.len(), 4);
}

#[test]
fn skip_past_the_end_completes() {
    let plan = vec![run("a", Check::SkipOnSuccess(usize::MAX)), say("b")];
    let (seen, r) = drive(plan, vec![Outcome::Finished(true)]);
    assert_eq!(seen.len(), 1);
    assert_eq!(r, Ok(()));
}

#[test]
fn unstoppable_plan_completes_whatever_happens() {
    let plan = vec![run("a", Check::Ignore), run("b", Check::SkipOnSuccess(1)), say("c")];
    let (_, r) = drive(plan, vec![Outcome::Failed("x".into()), Outcome::Finished(false), Outcome::Failed("y".into())]);
    assert_eq!(r, Ok(()));
}

#[test]
fn straight_plan_stops_at_first_failing_step() {
    let plan = vec![
        run("a", Check::MustSucceed { context: "ca".into(), failure: "fa".into() }),
        run("b", Check::MustSucceed { context: "cb".into(), failure: "fb".into() }),
    ];
    let (seen, r) = drive(plan, vec![Outcome::Finished(true), Outcome::Finished(false)]);
    assert_eq!(seen.len(), 2);
    assert_eq!(r, Err("fb".to_string()));
}
