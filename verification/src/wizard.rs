//! The choices that the interactive installer offers and what it makes of
//! the answers: menus, the partitions it installs to, the metapackages
//! selected.
use vstd::prelude::*;
use crate::disk::{
    disk_label, disk_views, Disk,
};
use crate::plan::{
    concat, owned,
};
use crate::text::{
    first_word, first_word_of, join, join_strings, str_views, views,
};

verus! {

/// The menu of partitioning methods; the first is guided partitioning.
pub fn partitioning_options() -> (r: Vec<&'static str>)
    ensures
        str_views(r@) == seq!["Guided (use entire disk)"@, "Manual (launch cfdisk)"@],
{
    let r = vec!["Guided (use entire disk)", "Manual (launch cfdisk)"];
    assert(str_views(r@) =~= seq!["Guided (use entire disk)"@, "Manual (launch cfdisk)"@]);
    r
}

/// The file systems the root partition can get.
pub fn filesystem_options() -> (r: Vec<&'static str>)
    ensures
        str_views(r@) == seq!["ext4"@, "btrfs"@],
{
    let r = vec!["ext4", "btrfs"];
    assert(str_views(r@) =~= seq!["ext4"@, "btrfs"@]);
    r
}

/// The supplementary groups of the regular user.
pub fn user_groups() -> (r: Vec<&'static str>)
    ensures
        str_views(r@) == seq!["wheel"@],
{
    let r = vec!["wheel"];
    assert(str_views(r@) =~= seq!["wheel"@]);
    r
}

/// The menu of metapackages: each label is the package's name, padding and
/// a description.
pub open spec fn metapackage_labels() -> Seq<Seq<char>> {
    seq![
        "kde-plasma           KDE Plasma 6 desktop on Wayland"@,
        "gnome                GNOME 47 desktop on Wayland"@,
        "xfce4                XFCE 4.20 lightweight desktop"@,
        "hyprland             Hyprland Wayland compositor (dynamic tiling)"@,
        "i3                   i3 tiling window manager"@,
        "windowmaker          WindowMaker window manager (NeXTSTEP-like)"@,
        "swell-dev            Development tools (GCC, LLVM, git, Python, Rust)"@,
        "swell-browser        Firefox browser (hardened build)"@,
        "swell-gaming         Gaming (Steam runtime, wine, DXVK)"@,
        "swell-multimedia     Multimedia (FFmpeg, GIMP, OBS, Blender)"@,
        "swell-office         Office (LibreOffice, Thunderbird)"@,
    ]
}

/// The menu of metapackages.
pub fn metapackage_options() -> (r: Vec<&'static str>)
    ensures
        str_views(r@) == metapackage_labels(),
{
    let r = vec![
        "kde-plasma           KDE Plasma 6 desktop on Wayland",
        "gnome                GNOME 47 desktop on Wayland",
        "xfce4                XFCE 4.20 lightweight desktop",
        "hyprland             Hyprland Wayland compositor (dynamic tiling)",
        "i3                   i3 tiling window manager",
        "windowmaker          WindowMaker window manager (NeXTSTEP-like)",
        "swell-dev            Development tools (GCC, LLVM, git, Python, Rust)",
        "swell-browser        Firefox browser (hardened build)",
        "swell-gaming         Gaming (Steam runtime, wine, DXVK)",
        "swell-multimedia     Multimedia (FFmpeg, GIMP, OBS, Blender)",
        "swell-office         Office (LibreOffice, Thunderbird)",
    ];
    assert(str_views(r@) =~= metapackage_labels());
    r
}

/// The package that a menu label names: its first word.
pub fn metapackage_name(label: &str) -> (r: String)
    ensures
        r@ == first_word(label@),
{
    first_word_of(label)
}

/// The packages named by the labels at the indices `selections`, in the
/// order of the selections.
pub open spec fn selected_names(selections: Seq<usize>) -> Seq<Seq<char>> {
    selections.map_values(|i: usize| first_word(metapackage_labels()[i as int]))
}

/// The packages that the selected menu entries name.
pub fn selected_metapackages(selections: &[usize]) -> (r: Vec<String>)
    requires
        forall|k: int| 0 <= k < selections@.len() ==> selections@[k] < metapackage_labels().len(),
    ensures
        views(r@) == selected_names(selections@),
{
    let labels = metapackage_options();
    let mut r: Vec<String> = Vec::new();
    let mut i: usize = 0;
    while i < selections.len()
        invariant
            i <= selections@.len(),
            str_views(labels@) == metapackage_labels(),
            forall|k: int|
                0 <= k < selections@.len() ==> selections@[k] < metapackage_labels().len(),
            views(r@) == selected_names(selections@.subrange(0, i as int)),
        decreases selections@.len() - i,
    {
        let idx = selections[i];
        assert(str_views(labels@).len() == labels@.len());
        assert(str_views(labels@)[idx as int] == labels@[idx as int]@);
        let name = metapackage_name(labels[idx]);
        let ghost before = r@;
        r.push(name);
        assert(views(r@) =~= views(before).push(name@));
        assert(selected_names(selections@.subrange(0, i + 1)) =~= selected_names(
            selections@.subrange(0, i as int),
        ).push(first_word(metapackage_labels()[idx as int])));
        i += 1;
    }
    assert(selections@.subrange(0, i as int) =~= selections@);
    r
}

/// How the selection is shown: "none (CLI only)" where nothing was selected,
/// else the names separated by ", ".
pub open spec fn summary_text(names: Seq<Seq<char>>) -> Seq<char> {
    if names.len() == 0 {
        "none (CLI only)"@
    } else {
        join(names, ", "@)
    }
}

/// How the selected metapackages are shown.
pub fn selection_summary(names: &Vec<String>) -> (r: String)
    ensures
        r@ == summary_text(views(names@)),
{
    if names.len() == 0 {
        owned("none (CLI only)")
    } else {
        join_strings(names, ", ")
    }
}

/// The menu entries for `disks`, in order.
pub fn disk_menu(disks: &Vec<Disk>) -> (r: Vec<String>)
    ensures
        views(r@) == disk_views(disks@).map_values(|d| disk_label(d)),
{
    let mut r: Vec<String> = Vec::new();
    let mut i: usize = 0;
    while i < disks.len()
        invariant
            i <= disks@.len(),
            views(r@) == disk_views(disks@.subrange(0, i as int)).map_values(|d| disk_label(d)),
        decreases disks@.len() - i,
    {
        let l = disks[i].label();
        let ghost before = r@;
        r.push(l);
        assert(views(r@) =~= views(before).push(l@));
        assert(disk_views(disks@.subrange(0, i + 1)).map_values(|d| disk_label(d)) =~= disk_views(
            disks@.subrange(0, i as int),
        ).map_values(|d| disk_label(d)).push(disk_label(disks@[i as int]@)));
        i += 1;
    }
    assert(disks@.subrange(0, i as int) =~= disks@);
    r
}

/// The partition the system goes to: the last where there are two or more,
/// else the only one; none where there is none.
pub open spec fn root_partition_of(parts: Seq<Seq<char>>) -> Option<Seq<char>> {
    if parts.len() >= 2 {
        Some(parts.last())
    } else if parts.len() == 1 {
        Some(parts[0])
    } else {
        None
    }
}

/// The EFI system partition: the first, where the machine booted by EFI and
/// there are two or more partitions; else none.
pub open spec fn efi_partition_of(parts: Seq<Seq<char>>, efi: bool) -> Option<Seq<char>> {
    if efi && parts.len() >= 2 {
        Some(parts[0])
    } else {
        None
    }
}

/// A string that may be absent, as characters.
pub open spec fn opt_string_view(o: Option<String>) -> Option<Seq<char>> {
    match o {
        Some(s) => Some(s@),
        None => None,
    }
}

/// The partition the system goes to, among the partitions of the disk.
pub fn root_partition(parts: &Vec<String>) -> (r: Option<String>)
    ensures
        opt_string_view(r) == root_partition_of(views(parts@)),
{
    let n = parts.len();
    assert(views(parts@).len() == n);
    if n >= 2 {
        assert(views(parts@).last() == parts@[n - 1]@);
        Some(parts[n - 1].clone())
    } else if n == 1 {
        assert(views(parts@)[0] == parts@[0]@);
        Some(parts[0].clone())
    } else {
        None
    }
}

/// The EFI system partition, among the partitions of the disk, given
/// whether the machine booted by EFI.
pub fn efi_partition(parts: &Vec<String>, efi: bool) -> (r: Option<String>)
    ensures
        opt_string_view(r) == efi_partition_of(views(parts@), efi),
{
    assert(views(parts@).len() == parts@.len());
    if efi && parts.len() >= 2 {
        assert(views(parts@)[0] == parts@[0]@);
        Some(parts[0].clone())
    } else {
        None
    }
}

/// Where the EFI system partition is mounted under `root`.
pub fn efi_mount_dir(root: &str) -> (r: String)
    ensures
        r@ == root@ + "/boot/efi"@,
{
    concat(root, "/boot/efi")
}

/// Where the disk's partitions are distinct, the EFI system partition, where
/// there is one, is never the partition the system goes to.
pub proof fn law_efi_partition_is_not_root(parts: Seq<Seq<char>>, efi: bool)
    requires
        parts.no_duplicates(),
    ensures
        efi_partition_of(parts, efi) is Some ==> root_partition_of(parts) is Some
            && efi_partition_of(parts, efi)->0 != root_partition_of(parts)->0,
{
    if efi_partition_of(parts, efi) is Some {
        assert(parts[0] != parts[parts.len() - 1]);
    }
}

/// Which partitions the installer uses: the system goes to the last one
/// where there are two or more, else to the only one, and there is none
/// without partitions; the EFI system partition is the first one, where the
/// machine booted by EFI and there are two or more partitions, else there is
/// none.
pub proof fn law_partition_choice(parts: Seq<Seq<char>>, efi: bool)
    ensures
        parts.len() >= 2 ==> root_partition_of(parts) == Some(parts[parts.len() - 1]),
        parts.len() == 1 ==> root_partition_of(parts) == Some(parts[0]),
        parts.len() == 0 ==> root_partition_of(parts) == None::<Seq<char>>,
        efi && parts.len() >= 2 ==> efi_partition_of(parts, efi) == Some(parts[0]),
        !(efi && parts.len() >= 2) ==> efi_partition_of(parts, efi) == None::<Seq<char>>,
{
}

} // verus!
