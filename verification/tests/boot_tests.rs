use swell_installer::boot::{detect_efi, install_grub};
use swell_installer::plan::{command, Action, Check, Outcome, PlanRun, Step};

fn drive(plan: Vec<Step>, outcomes: Vec<Outcome>) -> (Vec<Action>, Result<(), String>) {
    let mut run = PlanRun::new(plan);
    let mut seen = Vec::new();
    let mut outs = outcomes.into_iter();
    while let Some(a) = run.next_action() {
        seen.push(a.clone());
        let o = outs.next().expect("an outcome for every action");
        run.advance(o);
    }
    (seen, run.finish())
}

#[test]
fn efi_is_detected_by_the_firmware_directory() {
    assert_eq!(detect_efi(), Action::PathExists("/sys/firmware/efi".into()));
}

#[test]
fn grub_plan_steps() {
    let plan = install_grub("/mnt/swell", "/dev/sda");
    assert_eq!(plan.len(), 12);
    assert_eq!(plan[0].action, Action::Say("Installing GRUB...".into()));
    assert_eq!(plan[1], Step { action: Action::CreateDirAll("/mnt/swell/dev".into()), check: Check::Ignore });
    assert_eq!(plan[2], Step { action: Action::Run(command("mount", &["--bind", "/dev", "/mnt/swell/dev"])), check: Check::Ignore });
    assert_eq!(plan[8].action, Action::Run(command("mount", &["--bind", "/run", "/mnt/swell/run"])));
    assert_eq!(
        plan[9],
        Step {
            action: Action::Run(command("chroot", &["/mnt/swell", "grub-install", "--target=x86_64-efi", "--efi-directory=/boot/efi", "--bootloader-id=SwellOS", "--recheck"])),
            check: Check::MustSucceed { context: "failed to run grub-install".into(), failure: "grub-install failed".into() },
        }
    );
    assert_eq!(plan[10].action, Action::Run(command("chroot", &["/mnt/swell", "grub-mkconfig", "-o", "/boot/grub/grub.cfg"])));
    assert_eq!(plan[11].action, Action::Say("GRUB installed successfully.".into()));
}

#[test]
fn grub_succeeds_when_both_grub_steps_do() {
    let mut outs: Vec<Outcome> = (0..9).map(|_| Outcome::Failed("bind".into())).collect();
    outs.push(Outcome::Finished(true));
    outs.push(Outcome::Finished(true));
    outs.push(Outcome::Finished(true));
    let (_, r) = drive(install_grub("/mnt", "/dev/sda"), outs);
    assert_eq!(r, Ok(()));
}

#[test]
fn grub_errors() {
    let base = || -> Vec<Outcome> { (0..9).map(|_| Outcome::Finished(true)).collect() };
    let mut outs = base();
    outs.push(Outcome::Failed("not found".into()));
    let (seen, r) = drive(install_grub("/mnt", "/dev/sda"), outs);
    assert_eq!(seen.len(), 10);
    assert_eq!(r, Err("failed to run grub-install: not found".to_string()));
    let mut outs = base();
    outs.push(Outcome::Finished(false));
    let (_, r) = drive(install_grub("/mnt", "/dev/sda"), outs);
    assert_eq!(r, Err("grub-install failed".to_string()));
    let mut outs = base();
    outs.push(Outcome::Finished(true));
    outs.push(Outcome::Finished(false));
    let (_, r) = drive(install_grub("/mnt", "/dev/sda"), outs);
    assert_eq!(r, Err("grub-mkconfig failed".to_string()));
    let mut outs = base();
    outs.push(Outcome::Finished(true));
    outs.push(Outcome::Failed("gone".into()));
    let (_, r) = drive(install_grub("/mnt", "/dev/sda"), outs);
    assert_eq!(r, Err("failed to run grub-mkconfig: gone".to_string()));
}
