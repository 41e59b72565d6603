use swell_installer::config::{
    chpasswd_command, configure_fstab, configure_network, create_user, etc_file, fstab_contents,
    hosts_contents, join_path, set_hostname, set_root_password, set_timezone,
};
use swell_installer::plan::{command, Action, Check, Outcome, PlanRun, Step};

fn drive(plan: Vec<Step>, outcomes: Vec<Outcome>) -> (Vec<Action>, Result<(), String>) {
    let mut run = PlanRun::new(plan);
    let mut seen = Vec::new();
    let mut outs = outcomes.into_iter();
    while let Some(a) = run.next_action() {
        seen.push(a.clone());
        let o = outs.next().expect("an outcome for every action");
        run.advance(o);
    }
    (seen, run.finish())
}

fn ok() -> Outcome {
    Outcome::Finished(true)
}

#[test]
fn join_path_matches_path_join() {
    for (base, part) in [("/mnt/swell", "etc"), ("/mnt/swell/", "etc"), ("", "etc"), ("/mnt", "/abs"), ("a", ""), ("/", "x")] {
        let expected = std::path::Path::new(base).join(part).to_string_lossy().to_string();
        assert_eq!(join_path(base, part), expected, "{:?} {:?}", base, part);
    }
    assert_eq!(etc_file("/mnt/swell", "hostname"), "/mnt/swell/etc/hostname");
}

#[test]
fn hostname_plan_writes_both_files() {
    let plan = set_hostname("/mnt/swell", "box");
    assert_eq!(
        plan[0],
        Step {
            action: Action::WriteFile { path: "/mnt/swell/etc/hostname".into(), contents: "box\n".into() },
            check: Check::MustStart("failed to write hostname".into()),
        }
    );
    assert_eq!(
        plan[1].action,
        Action::WriteFile {
            path: "/mnt/swell/etc/hosts".into(),
            contents: "127.0.0.1   localhost\n::1         localhost\n127.0.1.1   box.localdomain box\n".into(),
        }
    );
    assert_eq!(plan[2].action, Action::Say("  Hostname set to: box".into()));
    assert_eq!(hosts_contents("h"), "127.0.0.1   localhost\n::1         localhost\n127.0.1.1   h.localdomain h\n");
}

#[test]
fn hostname_errors() {
    let (_, r) = drive(set_hostname("/r", "h"), vec![Outcome::Failed("read-only".into())]);
    assert_eq!(r, Err("failed to write hostname: read-only".to_string()));
    let (_, r) = drive(set_hostname("/r", "h"), vec![ok(), Outcome::Failed("full".into())]);
    assert_eq!(r, Err("failed to write hosts: full".to_string()));
    let (_, r) = drive(set_hostname("/r", "h"), vec![ok(), ok(), ok()]);
    assert_eq!(r, Ok(()));
}

#[test]
fn root_password_plan() {
    assert_eq!(chpasswd_command("root", "pw"), "echo 'root:pw' | chpasswd");
    let plan = set_root_password("/mnt", "secret");
    assert_eq!(plan[0].action, Action::Run(command("chroot", &["/mnt", "sh", "-c", "echo 'root:secret' | chpasswd"])));
    let (_, r) = drive(set_root_password("/mnt", "x"), vec![Outcome::Finished(false)]);
    assert_eq!(r, Err("failed to set root password".to_string()));
    let (_, r) = drive(set_root_password("/mnt", "x"), vec![Outcome::Failed("no chroot".into())]);
    assert_eq!(r, Err("failed to set root password: no chroot".to_string()));
    let (seen, r) = drive(set_root_password("/mnt", "x"), vec![ok(), ok()]);
    assert_eq!(seen[1], Action::Say("  Root password set.".into()));
    assert_eq!(r, Ok(()));
}

#[test]
fn user_plan_and_errors() {
    let plan = create_user("/mnt", "ann", "pw", &["wheel", "audio"]);
    assert_eq!(plan[0].action, Action::Run(command("chroot", &["/mnt", "useradd", "-m", "-G", "wheel,audio", "ann"])));
    assert_eq!(plan[1].action, Action::Run(command("chroot", &["/mnt", "sh", "-c", "echo 'ann:pw' | chpasswd"])));
    assert_eq!(plan[2].action, Action::Say("  User created: ann".into()));
    let (_, r) = drive(create_user("/mnt", "ann", "pw", &["wheel"]), vec![Outcome::Finished(false)]);
    assert_eq!(r, Err("failed to create user: ann".to_string()));
    let (_, r) = drive(create_user("/mnt", "ann", "pw", &["wheel"]), vec![Outcome::Failed("e".into())]);
    assert_eq!(r, Err("failed to create user: e".to_string()));
    let (_, r) = drive(create_user("/mnt", "ann", "pw", &["wheel"]), vec![ok(), Outcome::Finished(false)]);
    assert_eq!(r, Err("failed to set password for ann".to_string()));
    let (_, r) = drive(create_user("/mnt", "ann", "pw", &["wheel"]), vec![ok(), Outcome::Failed("e".into())]);
    assert_eq!(r, Err("failed to set user password: e".to_string()));
    let (_, r) = drive(create_user("/mnt", "ann", "pw", &["wheel"]), vec![ok(), ok(), ok()]);
    assert_eq!(r, Ok(()));
}

#[test]
fn timezone_plan_and_errors() {
    let plan = set_timezone("/mnt", "Europe/Warsaw");
    assert_eq!(plan[0], Step { action: Action::RemoveFile("/mnt/etc/localtime".into()), check: Check::Ignore });
    assert_eq!(plan[1].action, Action::Run(command("cp", &["/usr/share/zoneinfo/Europe/Warsaw", "/mnt/etc/localtime"])));
    assert_eq!(plan[2], Step { action: Action::WriteFile { path: "/mnt/etc/timezone".into(), contents: "Europe/Warsaw\n".into() }, check: Check::Ignore });
    let (_, r) = drive(set_timezone("/mnt", "Mars/Base"), vec![Outcome::Failed("x".into()), Outcome::Finished(false)]);
    assert_eq!(r, Err("timezone Mars/Base not found".to_string()));
    let (_, r) = drive(set_timezone("/mnt", "UTC"), vec![ok(), Outcome::Failed("no cp".into())]);
    assert_eq!(r, Err("failed to set timezone: no cp".to_string()));
    let (_, r) = drive(set_timezone("/mnt", "UTC"), vec![ok(), ok(), Outcome::Failed("ro".into()), ok()]);
    assert_eq!(r, Ok(()));
}

#[test]
fn network_plan_skips_setup_when_service_exists() {
    let plan = configure_network("/mnt");
    assert_eq!(plan.len(), 9);
    assert_eq!(plan[0], Step { action: Action::PathExists("/mnt/etc/sv/dhcpcd".into()), check: Check::SkipOnSuccess(3) });
    assert_eq!(plan[2].action, Action::WriteFile { path: "/mnt/etc/sv/dhcpcd/run".into(), contents: "#!/bin/sh\nexec dhcpcd -n\n".into() });
    assert_eq!(plan[6].action, Action::Symlink { original: "/mnt/etc/sv/dhcpcd".into(), link: "/mnt/var/service/dhcpcd".into() });
    let (seen, r) = drive(configure_network("/mnt"), vec![ok(); 6]);
    assert_eq!(seen.len(), 6);
    assert_eq!(seen[1], Action::CreateDirAll("/mnt/var/service".into()));
    assert_eq!(r, Ok(()));
    let (seen, r) = drive(configure_network("/mnt"), vec![Outcome::Finished(false); 9]);
    assert_eq!(seen.len(), 9);
    assert_eq!(r, Ok(()));
    let (_, r) = drive(configure_network("/mnt"), vec![Outcome::Finished(false), ok(), Outcome::Failed("ro".into())]);
    assert_eq!(r, Err("failed to create dhcpcd run script: ro".to_string()));
}

#[test]
fn fstab_with_and_without_efi() {
    let without = fstab_contents("/dev/sda2", None, "ext4");
    assert_eq!(
        without,
        "# /etc/fstab: static file system information\n/dev/sda2  /  ext4  defaults  0  1\nproc  /proc  proc  nosuid,noexec,nodev  0  0\nsys   /sys   sysfs nosuid,noexec,nodev  0  0\ndev   /dev   devtmpfs  nosuid  0  0\ntmpfs /run  tmpfs  nosuid,nodev  0  0\n"
    );
    let with = fstab_contents("/dev/sda2", Some("/dev/sda1"), "btrfs");
    assert!(with.contains("/dev/sda1  /boot/efi  vfat  defaults  0  2\n"));
    assert_eq!(with.lines().count(), without.lines().count() + 1);
    let plan = configure_fstab("/mnt", "/dev/sda2", None, "ext4");
    assert_eq!(plan[0].action, Action::WriteFile { path: "/mnt/etc/fstab".into(), contents: without });
    let (_, r) = drive(plan, vec![Outcome::Failed("ro".into())]);
    assert_eq!(r, Err("failed to write fstab: ro".to_string()));
}
