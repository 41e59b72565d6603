use swell_installer::disk::Disk;
use swell_installer::root_mount;
use swell_installer::wizard::{
    disk_menu, efi_mount_dir, efi_partition, filesystem_options, metapackage_name,
    metapackage_options, partitioning_options, root_partition, selected_metapackages,
    selection_summary, user_groups,
};

fn strings(v: &[&str]) -> Vec<String> {
    v.iter().map(|s| s.to_string()).collect()
}

#[test]
fn menus() {
    assert_eq!(partitioning_options(), vec!["Guided (use entire disk)", "Manual (launch cfdisk)"]);
    assert_eq!(filesystem_options(), vec!["ext4", "btrfs"]);
    assert_eq!(user_groups(), vec!["wheel"]);
    assert_eq!(metapackage_options().len(), 11);
    assert_eq!(root_mount(), "/mnt/swell");
}

#[test]
fn metapackage_names_are_first_words() {
    let names: Vec<String> = metapackage_options().iter().map(|l| metapackage_name(l)).collect();
    assert_eq!(
        names,
        strings(&["kde-plasma", "gnome", "xfce4", "hyprland", "i3", "windowmaker", "swell-dev", "swell-browser", "swell-gaming", "swell-multimedia", "swell-office"])
    );
    for n in &names {
        assert!(!n.contains(char::is_whitespace));
    }
}

#[test]
fn selected_metapackages_follow_the_selection() {
    assert_eq!(selected_metapackages(&[1, 4, 10]), strings(&["gnome", "i3", "swell-office"]));
    assert_eq!(selected_metapackages(&[]), Vec::<String>::new());
}

#[test]
fn summary_of_selection() {
    assert_eq!(selection_summary(&vec![]), "none (CLI only)");
    assert_eq!(selection_summary(&strings(&["gnome"])), "gnome");
    assert_eq!(selection_summary(&strings(&["gnome", "i3"])), "gnome, i3");
}

#[test]
fn partitions_chosen_for_root_and_efi() {
    let two = strings(&["/dev/sda1", "/dev/sda2"]);
    assert_eq!(root_partition(&two), Some("/dev/sda2".to_string()));
    assert_eq!(efi_partition(&two, true), Some("/dev/sda1".to_string()));
    assert_eq!(efi_partition(&two, false), None);
    let one = strings(&["/dev/sda1"]);
    assert_eq!(root_partition(&one), Some("/dev/sda1".to_string()));
    assert_eq!(efi_partition(&one, true), None);
    assert_eq!(root_partition(&vec![]), None);
    let three = strings(&["/dev/sda1", "/dev/sda2", "/dev/sda3"]);
    assert_eq!(root_partition(&three), Some("/dev/sda3".to_string()));
    assert_ne!(efi_partition(&three, true), root_partition(&three));
}

#[test]
fn disk_menu_labels() {
    let disks = vec![
        Disk { name: "sda".into(), size: "8G".into(), model: "".into(), path: "/dev/sda".into() },
        Disk { name: "sdb".into(), size: "1T".into(), model: "WD".into(), path: "/dev/sdb".into() },
    ];
    assert_eq!(disk_menu(&disks), strings(&["/dev/sda (8G)", "/dev/sdb (1T - WD)"]));
}

#[test]
fn efi_directory_under_root() {
    assert_eq!(efi_mount_dir("/mnt/swell"), "/mnt/swell/boot/efi");
}
