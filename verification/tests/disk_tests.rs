use swell_installer::disk::{
    disk_from_line, format_partition, get_partitions, guided_partition, is_root, list_disks,
    list_disks_command, mount_partition, parse_disk_listing, parse_partition_listing,
    partitions_command, run_cfdisk, uid_command, unmount_all, Disk,
};
use swell_installer::plan::{command, Action, Check, Outcome, PlanRun, Step};

fn drive(plan: Vec<Step>, outcomes: Vec<Outcome>) -> (Vec<Action>, Result<(), String>) {
    let mut run = PlanRun::new(plan);
    let mut seen = Vec::new();
    let mut outs = outcomes.into_iter();
    while let Some(a) = run.next_action() {
        seen.push(a.clone());
        let o = outs.next().expect("an outcome for every action");
        run.advance(o);
    }
    (seen, run.finish())
}

fn disk(path: &str, name: &str, size: &str, model: &str) -> Disk {
    Disk { name: name.into(), size: size.into(), model: model.into(), path: path.into() }
}

#[test]
fn lsblk_commands() {
    assert_eq!(list_disks_command(), command("lsblk", &["-d", "-o", "NAME,SIZE,MODEL", "-p", "-n", "-l"]));
    assert_eq!(partitions_command("/dev/sda"), command("lsblk", &["-o", "NAME", "-p", "-n", "-l", "/dev/sda"]));
    assert_eq!(uid_command(), command("id", &["-u"]));
    assert_eq!(run_cfdisk("/dev/sdb"), command("cfdisk", &["/dev/sdb"]));
}

#[test]
fn disk_listing_is_parsed_line_by_line() {
    let text = "/dev/sda 465.8G Samsung SSD 860  \n/dev/nvme0n1 1T\nbogus\n/dev/sdb 8G \n";
    assert_eq!(
        parse_disk_listing(text),
        vec![
            disk("/dev/sda", "sda", "465.8G", "Samsung SSD 860"),
            disk("/dev/nvme0n1", "nvme0n1", "1T", ""),
            disk("/dev/sdb", "sdb", "8G", ""),
        ]
    );
}

#[test]
fn padded_columns_give_an_empty_size() {
    assert_eq!(
        disk_from_line("/dev/sda   465.8G Samsung"),
        Some(disk("/dev/sda", "sda", "", "465.8G Samsung"))
    );
    assert_eq!(disk_from_line("/dev/sda"), None);
    assert_eq!(disk_from_line(""), None);
}

#[test]
fn list_disks_decodes_output_and_handles_no_output() {
    assert_eq!(list_disks(None), vec![]);
    let out = b"/dev/sda 8G Kingston\n";
    assert_eq!(list_disks(Some(&out[..])), vec![disk("/dev/sda", "sda", "8G", "Kingston")]);
}

#[test]
fn invalid_utf8_is_replaced_not_kept() {
    let out = b"/dev/sda 8G Mod\xffel\n";
    assert_eq!(list_disks(Some(&out[..])), vec![disk("/dev/sda", "sda", "8G", "Mod\u{fffd}el")]);
    assert_eq!(get_partitions("/dev/sda", Some(&b"/dev/sda\xfe1\n"[..])), vec!["/dev/sda\u{fffd}1".to_string()]);
}

#[test]
fn partitions_leave_out_the_disk_and_empty_lines() {
    let text = "/dev/sda\n  /dev/sda1  \n\n   \n/dev/sda2\n";
    assert_eq!(parse_partition_listing("/dev/sda", text), vec!["/dev/sda1", "/dev/sda2"]);
    assert_eq!(get_partitions("/dev/sda", None), Vec::<String>::new());
    assert_eq!(get_partitions("/dev/sda", Some(&b"/dev/sda\n/dev/sda1\n"[..])), vec!["/dev/sda1"]);
}

#[test]
fn partitions_are_trimmed_names_other_than_the_disk() {
    let parts = parse_partition_listing("/dev/vda", "/dev/vda\r\n /dev/vda1\r\n\t/dev/vda2 \n/dev/vda\n");
    assert_eq!(parts, vec!["/dev/vda1", "/dev/vda2"]);
    for p in &parts {
        assert!(!p.is_empty());
        assert_ne!(p, "/dev/vda");
        assert_eq!(p.trim(), p);
    }
}

#[test]
fn disk_entries_are_well_formed_on_example() {
    for d in parse_disk_listing("/dev/sda 1G  x \n/dev/mapper/a b\n") {
        assert_eq!(d.name, d.path.rsplit('/').next().unwrap());
        assert!(!d.path.contains(char::is_whitespace));
        assert_eq!(d.model.trim(), d.model);
    }
}

#[test]
fn root_is_uid_zero() {
    assert!(is_root(Some(&b"0\n"[..])));
    assert!(is_root(Some(&b"  0  "[..])));
    assert!(!is_root(Some(&b"1000\n"[..])));
    assert!(!is_root(Some(&b"00\n"[..])));
    assert!(!is_root(None));
}

#[test]
fn disk_label_shows_model_when_known() {
    assert_eq!(disk("/dev/sda", "sda", "8G", "").label(), "/dev/sda (8G)");
    assert_eq!(disk("/dev/sda", "sda", "8G", "Kingston").label(), "/dev/sda (8G - Kingston)");
}

#[test]
fn format_plans_per_file_system() {
    let mkfs = |p: &str, f: &str| vec![Step { action: Action::Run(command(p, &[f, "/dev/sda2"])), check: Check::Essential }];
    assert_eq!(format_partition("/dev/sda2", "ext4"), Some(mkfs("mkfs.ext4", "-F")));
    assert_eq!(format_partition("/dev/sda2", "btrfs"), Some(mkfs("mkfs.btrfs", "-f")));
    assert_eq!(format_partition("/dev/sda2", "vfat"), Some(mkfs("mkfs.fat", "-F32")));
    assert_eq!(format_partition("/dev/sda2", "xfs"), None);
    assert_eq!(format_partition("/dev/sda2", "EXT4"), None);
}

#[test]
fn formatting_succeeds_only_when_mkfs_does() {
    let (_, r) = drive(format_partition("/dev/sda2", "ext4").unwrap(), vec![Outcome::Finished(true)]);
    assert!(r.is_ok());
    let (_, r) = drive(format_partition("/dev/sda2", "ext4").unwrap(), vec![Outcome::Finished(false)]);
    assert!(r.is_err());
    let (_, r) = drive(format_partition("/dev/sda2", "ext4").unwrap(), vec![Outcome::Failed("no mkfs".into())]);
    assert!(r.is_err());
}

#[test]
fn mount_plan_and_its_result() {
    let plan = mount_partition("/dev/sda2", "/mnt/swell");
    assert_eq!(plan[0], Step { action: Action::CreateDirAll("/mnt/swell".into()), check: Check::Ignore });
    assert_eq!(plan[1], Step { action: Action::Run(command("mount", &["/dev/sda2", "/mnt/swell"])), check: Check::Essential });
    let (_, r) = drive(mount_partition("a", "b"), vec![Outcome::Failed("x".into()), Outcome::Finished(true)]);
    assert!(r.is_ok());
    let (_, r) = drive(mount_partition("a", "b"), vec![Outcome::Finished(true), Outcome::Finished(false)]);
    assert!(r.is_err());
}

#[test]
fn unmount_never_fails() {
    let plan = unmount_all("/mnt/swell");
    assert_eq!(plan, vec![Step { action: Action::Run(command("umount", &["-R", "/mnt/swell"])), check: Check::Ignore }]);
    let (_, r) = drive(plan, vec![Outcome::Failed("busy".into())]);
    assert_eq!(r, Ok(()));
}

#[test]
fn guided_plan_steps() {
    let plan = guided_partition("/dev/sda");
    assert_eq!(plan.len(), 8);
    assert_eq!(plan[0], Step { action: Action::Run(command("sgdisk", &["-Z", "/dev/sda"])), check: Check::SkipOnSuccess(1) });
    assert_eq!(plan[1].action, Action::Run(command("dd", &["if=/dev/zero", "of=", "/dev/sda", "bs=1M", "count=1"])));
    assert_eq!(plan[2], Step { action: Action::Run(command("sgdisk", &["-o", "/dev/sda"])), check: Check::Essential });
    assert_eq!(plan[3].action, Action::Run(command("sgdisk", &["-n", "1:0:+512M", "-t", "1:ef00", "/dev/sda"])));
    assert_eq!(plan[4].action, Action::Run(command("sgdisk", &["-n", "2:0:0", "-t", "2:8300", "/dev/sda"])));
    assert_eq!(plan[5].action, Action::Pause(500));
    assert_eq!(plan[6], Step { action: Action::Run(command("partprobe", &["/dev/sda"])), check: Check::Ignore });
    assert_eq!(plan[7].action, Action::Pause(500));
}

#[test]
fn guided_skips_zeroing_after_a_good_wipe() {
    let ok = || Outcome::Finished(true);
    let (seen, r) = drive(guided_partition("/dev/sda"), vec![ok(), ok(), ok(), ok(), ok(), Outcome::Failed("x".into()), ok()]);
    assert_eq!(seen.len(), 7);
    assert!(!seen.iter().any(|a| matches!(a, Action::Run(c) if c.program == "dd")));
    assert_eq!(r, Ok(()));
}

#[test]
fn guided_zeroes_after_a_failed_wipe() {
    let ok = || Outcome::Finished(true);
    let (seen, r) = drive(guided_partition("/dev/sda"), vec![Outcome::Failed("no sgdisk".into()), Outcome::Finished(false), ok(), ok(), ok(), ok(), ok(), ok()]);
    assert_eq!(seen.len(), 8);
    assert_eq!(seen[1], Action::Run(command("dd", &["if=/dev/zero", "of=", "/dev/sda", "bs=1M", "count=1"])));
    assert_eq!(r, Ok(()));
}

#[test]
fn guided_fails_when_a_partition_is_not_made() {
    let ok = || Outcome::Finished(true);
    let (seen, r) = drive(guided_partition("/dev/sda"), vec![ok(), ok(), Outcome::Finished(false)]);
    assert_eq!(seen.len(), 3);
    assert!(r.is_err());
}
