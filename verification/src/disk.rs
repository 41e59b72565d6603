//! Disks and partitions: what `lsblk` reports of them, and the plans that
//! partition, format and mount them.
use vstd::prelude::*;
use crate::plan::{
    all_pass, command, command_view, final_result, law_unstoppable_plan_completes,
    lemma_progress_concat, lemma_straight_run, owned, passes, progress_after, progress_from,
    push_run, push_step, run_view, settle, step_view, steps_view, straight_from, unstoppable,
    Action, ActionView, Check, CheckView, CommandSpec, OutcomeView, Progress, Step, StepView,
};
use crate::text::{
    decode_lossy, is_space, last_segment, last_segment_of, law_trim_idempotent,
    lemma_next_space_bounds, lines, lines_of, next_space, same_text, split3_ws, split3_ws_of,
    str_views, trim, trim_str, utf8_lossy, views,
};

verus! {

/// A whole disk as `lsblk` lists it.
#[derive(Debug, Clone, PartialEq, Eq)]
pub struct Disk {
    pub name: String,
    pub size: String,
    pub model: String,
    pub path: String,
}

/// A [`Disk`] as characters.
pub struct DiskView {
    pub name: Seq<char>,
    pub size: Seq<char>,
    pub model: Seq<char>,
    pub path: Seq<char>,
}

impl View for Disk {
    type V = DiskView;

    open spec fn view(&self) -> DiskView {
        DiskView { name: self.name@, size: self.size@, model: self.model@, path: self.path@ }
    }
}

/// A list of disks as characters.
pub open spec fn disk_views(disks: Seq<Disk>) -> Seq<DiskView> {
    disks.map_values(|d: Disk| d@)
}

/// The disk that one line of `lsblk -d -o NAME,SIZE,MODEL -p -n -l` stands
/// for: the line split at white space into at most three fields; with fewer
/// than two there is none; the path is the first field, the name what
/// follows its last `/`, the size the second field and the model the third,
/// trimmed (empty where there is no third).
pub open spec fn disk_of_line(line: Seq<char>) -> Option<DiskView> {
    let parts = split3_ws(line);
    if parts.len() >= 2 {
        Some(
            DiskView {
                path: parts[0],
                name: last_segment(parts[0]),
                size: parts[1],
                model: if parts.len() > 2 {
                    trim(parts[2])
                } else {
                    Seq::empty()
                },
            },
        )
    } else {
        None
    }
}

/// The disks that the lines stand for, in order.
pub open spec fn disks_of_lines(ls: Seq<Seq<char>>) -> Seq<DiskView>
    decreases ls.len(),
{
    if ls.len() == 0 {
        Seq::empty()
    } else {
        let rest = disks_of_lines(ls.drop_last());
        match disk_of_line(ls.last()) {
            Some(d) => rest.push(d),
            None => rest,
        }
    }
}

/// The disks that a whole listing stands for.
pub open spec fn disk_listing(text: Seq<char>) -> Seq<DiskView> {
    disks_of_lines(lines(text))
}

/// The command that lists the whole disks, one per line.
pub fn list_disks_command() -> (c: CommandSpec)
    ensures
        c@ == command_view(
            "lsblk"@,
            seq!["-d"@, "-o"@, "NAME,SIZE,MODEL"@, "-p"@, "-n"@, "-l"@],
        ),
{
    let args = ["-d", "-o", "NAME,SIZE,MODEL", "-p", "-n", "-l"];
    assert(str_views(args@) =~= seq!["-d"@, "-o"@, "NAME,SIZE,MODEL"@, "-p"@, "-n"@, "-l"@]);
    command("lsblk", &args)
}

/// The disk that one line of the disk listing stands for, if any.
pub fn disk_from_line(line: &str) -> (d: Option<Disk>)
    ensures
        match d {
            Some(x) => disk_of_line(line@) == Some(x@),
            None => disk_of_line(line@) is None,
        },
{
    let parts = split3_ws_of(line);
    assert(views(parts@).len() == parts@.len());
    if parts.len() >= 2 {
        assert(views(parts@)[0] == parts@[0]@);
        assert(views(parts@)[1] == parts@[1]@);
        let path = parts[0].clone();
        let name = last_segment_of(parts[0].as_str());
        let size = parts[1].clone();
        let model = if parts.len() > 2 {
            assert(views(parts@)[2] == parts@[2]@);
            trim_str(parts[2].as_str())
        } else {
            String::new()
        };
        Some(Disk { name, size, model, path })
    } else {
        None
    }
}

/// The disks that the text of a disk listing stands for, in order.
pub fn parse_disk_listing(text: &str) -> (disks: Vec<Disk>)
    ensures
        disk_views(disks@) == disk_listing(text@),
{
    let ls = lines_of(text);
    let mut disks: Vec<Disk> = Vec::new();
    let mut i: usize = 0;
    while i < ls.len()
        invariant
            i <= ls@.len(),
            views(ls@) == lines(text@),
            disk_views(disks@) == disks_of_lines(views(ls@).subrange(0, i as int)),
        decreases ls@.len() - i,
    {
        let ghost before = views(ls@).subrange(0, i as int);
        let ghost upto = views(ls@).subrange(0, i + 1);
        assert(upto.drop_last() =~= before);
        assert(upto.last() == ls@[i as int]@);
        let ghost old_disks = disks@;
        match disk_from_line(ls[i].as_str()) {
            Some(d) => {
                disks.push(d);
                assert(disk_views(disks@) =~= disk_views(old_disks).push(d@));
            },
            None => {},
        }
        i += 1;
    }
    assert(views(ls@).subrange(0, i as int) =~= views(ls@));
    disks
}

/// The disks that `lsblk` listed, from what it wrote to its standard output
/// (decoded as UTF-8, invalid sequences replaced); none where it could not be
/// started.
pub fn list_disks(stdout: Option<&[u8]>) -> (disks: Vec<Disk>)
    ensures
        disk_views(disks@) == match stdout {
            Some(b) => disk_listing(utf8_lossy(b@)),
            None => Seq::<DiskView>::empty(),
        },
{
    match stdout {
        Some(bytes) => {
            let text = decode_lossy(bytes);
            parse_disk_listing(text.as_str())
        },
        None => {
            let v: Vec<Disk> = Vec::new();
            assert(disk_views(v@) =~= Seq::<DiskView>::empty());
            v
        },
    }
}

/// How the installer shows a disk in its menu: "path (size)", or
/// "path (size - model)" where the model is known.
pub open spec fn disk_label(d: DiskView) -> Seq<char> {
    if d.model.len() == 0 {
        d.path + " ("@ + d.size + ")"@
    } else {
        d.path + " ("@ + d.size + " - "@ + d.model + ")"@
    }
}

impl Disk {
    /// How the installer shows this disk in its menu.
    pub fn label(&self) -> (r: String)
        ensures
            r@ == disk_label(self@),
    {
        let mut r = self.path.clone();
        r.append(" (");
        r.append(self.size.as_str());
        if self.model.as_str().unicode_len() == 0 {
            r.append(")");
        } else {
            r.append(" - ");
            r.append(self.model.as_str());
            r.append(")");
        }
        r
    }
}

/// The partition that one line of `lsblk -o NAME -p -n -l <disk>` stands
/// for: the line trimmed, unless that is empty or the disk itself.
pub open spec fn partition_of_line(disk: Seq<char>, line: Seq<char>) -> Option<Seq<char>> {
    let p = trim(line);
    if p.len() > 0 && p != disk {
        Some(p)
    } else {
        None
    }
}

/// The partitions that the lines stand for, in order.
pub open spec fn partitions_of_lines(disk: Seq<char>, ls: Seq<Seq<char>>) -> Seq<Seq<char>>
    decreases ls.len(),
{
    if ls.len() == 0 {
        Seq::empty()
    } else {
        let rest = partitions_of_lines(disk, ls.drop_last());
        match partition_of_line(disk, ls.last()) {
            Some(p) => rest.push(p),
            None => rest,
        }
    }
}

/// The partitions that a whole listing of `disk` stands for.
pub open spec fn partition_listing(disk: Seq<char>, text: Seq<char>) -> Seq<Seq<char>> {
    partitions_of_lines(disk, lines(text))
}

/// The command that lists `disk` and its partitions, one per line.
pub fn partitions_command(disk: &str) -> (c: CommandSpec)
    ensures
        c@ == command_view("lsblk"@, seq!["-o"@, "NAME"@, "-p"@, "-n"@, "-l"@, disk@]),
{
    let args = ["-o", "NAME", "-p", "-n", "-l", disk];
    assert(str_views(args@) =~= seq!["-o"@, "NAME"@, "-p"@, "-n"@, "-l"@, disk@]);
    command("lsblk", &args)
}

/// The partitions of `disk` that the text of its listing names, in order.
pub fn parse_partition_listing(disk: &str, text: &str) -> (parts: Vec<String>)
    ensures
        views(parts@) == partition_listing(disk@, text@),
{
    let ls = lines_of(text);
    let mut parts: Vec<String> = Vec::new();
    let mut i: usize = 0;
    while i < ls.len()
        invariant
            i <= ls@.len(),
            views(ls@) == lines(text@),
            views(parts@) == partitions_of_lines(disk@, views(ls@).subrange(0, i as int)),
        decreases ls@.len() - i,
    {
        let ghost before = views(ls@).subrange(0, i as int);
        let ghost upto = views(ls@).subrange(0, i + 1);
        assert(upto.drop_last() =~= before);
        assert(upto.last() == ls@[i as int]@);
        let p = trim_str(ls[i].as_str());
        if p.as_str().unicode_len() > 0 && !same_text(p.as_str(), disk) {
            let ghost old_parts = parts@;
            parts.push(p);
            assert(views(parts@) =~= views(old_parts).push(parts@.last()@));
        }
        i += 1;
    }
    assert(views(ls@).subrange(0, i as int) =~= views(ls@));
    parts
}

/// The partitions of `disk`, from what `lsblk` wrote to its standard output
/// (decoded as UTF-8, invalid sequences replaced); none where it could not be
/// started.
pub fn get_partitions(disk: &str, stdout: Option<&[u8]>) -> (parts: Vec<String>)
    ensures
        views(parts@) == match stdout {
            Some(b) => partition_listing(disk@, utf8_lossy(b@)),
            None => Seq::<Seq<char>>::empty(),
        },
{
    match stdout {
        Some(bytes) => {
            let text = decode_lossy(bytes);
            parse_partition_listing(disk, text.as_str())
        },
        None => {
            let v: Vec<String> = Vec::new();
            assert(views(v@) =~= Seq::<Seq<char>>::empty());
            v
        },
    }
}

/// The command that prints the user id that the installer runs under.
pub fn uid_command() -> (c: CommandSpec)
    ensures
        c@ == command_view("id"@, seq!["-u"@]),
{
    let args = ["-u"];
    assert(str_views(args@) =~= seq!["-u"@]);
    command("id", &args)
}

/// Whether the installer runs as root, from what `id -u` wrote to its
/// standard output: its text, trimmed, is "0"; not where it could not be
/// started.
pub fn is_root(stdout: Option<&[u8]>) -> (r: bool)
    ensures
        r == match stdout {
            Some(b) => trim(utf8_lossy(b@)) == "0"@,
            None => false,
        },
{
    match stdout {
        Some(bytes) => {
            let text = decode_lossy(bytes);
            let uid = trim_str(text.as_str());
            same_text(uid.as_str(), "0")
        },
        None => false,
    }
}

/// The command that opens `cfdisk` on `disk`.
pub fn run_cfdisk(disk: &str) -> (c: CommandSpec)
    ensures
        c@ == command_view("cfdisk"@, seq![disk@]),
{
    let args = [disk];
    assert(str_views(args@) =~= seq![disk@]);
    command("cfdisk", &args)
}

/// Guided partitioning of `disk`: wipe its partition tables with
/// `sgdisk -Z`, and where that does not succeed, zero its first MiB with
/// `dd` instead (whatever that gives); then make a new GPT, a 512 MiB EFI
/// system partition and a Linux partition on the rest, each required to
/// succeed; then let the kernel reread the table (whatever that gives),
/// with a pause of 500 ms before and after.
pub open spec fn guided_plan(disk: Seq<char>) -> Seq<StepView> {
    seq![
        run_view("sgdisk"@, seq!["-Z"@, disk], CheckView::SkipOnSuccess(1)),
        run_view(
            "dd"@,
            seq!["if=/dev/zero"@, "of="@, disk, "bs=1M"@, "count=1"@],
            CheckView::Ignore,
        ),
        run_view("sgdisk"@, seq!["-o"@, disk], CheckView::Essential),
        run_view(
            "sgdisk"@,
            seq!["-n"@, "1:0:+512M"@, "-t"@, "1:ef00"@, disk],
            CheckView::Essential,
        ),
        run_view("sgdisk"@, seq!["-n"@, "2:0:0"@, "-t"@, "2:8300"@, disk], CheckView::Essential),
        step_view(ActionView::Pause(500), CheckView::Ignore),
        run_view("partprobe"@, seq![disk], CheckView::Ignore),
        step_view(ActionView::Pause(500), CheckView::Ignore),
    ]
}

/// The plan that partitions `disk` for the installer; it succeeds where the
/// partitioning did.
pub fn guided_partition(disk: &str) -> (plan: Vec<Step>)
    ensures
        steps_view(plan@) == guided_plan(disk@),
{
    let mut steps: Vec<Step> = Vec::new();
    let wipe = ["-Z", disk];
    assert(str_views(wipe@) =~= seq!["-Z"@, disk@]);
    push_run(&mut steps, "sgdisk", &wipe, Check::SkipOnSuccess(1));
    let zero = ["if=/dev/zero", "of=", disk, "bs=1M", "count=1"];
    assert(str_views(zero@) =~= seq!["if=/dev/zero"@, "of="@, disk@, "bs=1M"@, "count=1"@]);
    push_run(&mut steps, "dd", &zero, Check::Ignore);
    let gpt = ["-o", disk];
    assert(str_views(gpt@) =~= seq!["-o"@, disk@]);
    push_run(&mut steps, "sgdisk", &gpt, Check::Essential);
    let efi = ["-n", "1:0:+512M", "-t", "1:ef00", disk];
    assert(str_views(efi@) =~= seq!["-n"@, "1:0:+512M"@, "-t"@, "1:ef00"@, disk@]);
    push_run(&mut steps, "sgdisk", &efi, Check::Essential);
    let root = ["-n", "2:0:0", "-t", "2:8300", disk];
    assert(str_views(root@) =~= seq!["-n"@, "2:0:0"@, "-t"@, "2:8300"@, disk@]);
    push_run(&mut steps, "sgdisk", &root, Check::Essential);
    push_step(&mut steps, Action::Pause(500), Check::Ignore);
    let probe = [disk];
    assert(str_views(probe@) =~= seq![disk@]);
    push_run(&mut steps, "partprobe", &probe, Check::Ignore);
    push_step(&mut steps, Action::Pause(500), Check::Ignore);
    assert(steps_view(steps@) =~= guided_plan(disk@));
    steps
}

/// The program and first argument that make a file system of type
/// `fstype`: `mkfs.ext4 -F`, `mkfs.btrfs -f` or `mkfs.fat -F32`; none for
/// any other type.
pub open spec fn mkfs_for(fstype: Seq<char>) -> Option<(Seq<char>, Seq<char>)> {
    if fstype == "ext4"@ {
        Some(("mkfs.ext4"@, "-F"@))
    } else if fstype == "btrfs"@ {
        Some(("mkfs.btrfs"@, "-f"@))
    } else if fstype == "vfat"@ {
        Some(("mkfs.fat"@, "-F32"@))
    } else {
        None
    }
}

/// Formatting `part` as `fstype`: one run of the matching `mkfs`, required to
/// succeed; no plan for a type the installer does not know.
pub open spec fn format_plan(part: Seq<char>, fstype: Seq<char>) -> Option<Seq<StepView>> {
    match mkfs_for(fstype) {
        Some((program, flag)) => Some(seq![run_view(program, seq![flag, part], CheckView::Essential)]),
        None => None,
    }
}

/// The plan that formats `part` as `fstype` ("ext4", "btrfs" or "vfat"), or
/// `None` for another type, which cannot be formatted.
pub fn format_partition(part: &str, fstype: &str) -> (plan: Option<Vec<Step>>)
    ensures
        match plan {
            Some(p) => format_plan(part@, fstype@) == Some(steps_view(p@)),
            None => format_plan(part@, fstype@) is None,
        },
{
    let (program, flag) = if same_text(fstype, "ext4") {
        ("mkfs.ext4", "-F")
    } else if same_text(fstype, "btrfs") {
        ("mkfs.btrfs", "-f")
    } else if same_text(fstype, "vfat") {
        ("mkfs.fat", "-F32")
    } else {
        return None;
    };
    let mut steps: Vec<Step> = Vec::new();
    let args = [flag, part];
    assert(str_views(args@) =~= seq![flag@, part@]);
    push_run(&mut steps, program, &args, Check::Essential);
    assert(steps_view(steps@) =~= seq![run_view(program@, seq![flag@, part@], CheckView::Essential)]);
    Some(steps)
}

/// Mounting `part` at `mountpoint`: create the mount point with its parents
/// (whatever that gives), then `mount`, required to succeed.
pub open spec fn mount_plan(part: Seq<char>, mountpoint: Seq<char>) -> Seq<StepView> {
    seq![
        step_view(ActionView::CreateDirAll(mountpoint), CheckView::Ignore),
        run_view("mount"@, seq![part, mountpoint], CheckView::Essential),
    ]
}

/// The plan that mounts `part` at `mountpoint`; it succeeds where the mount
/// did.
pub fn mount_partition(part: &str, mountpoint: &str) -> (plan: Vec<Step>)
    ensures
        steps_view(plan@) == mount_plan(part@, mountpoint@),
{
    let mut steps: Vec<Step> = Vec::new();
    push_step(&mut steps, Action::CreateDirAll(owned(mountpoint)), Check::Ignore);
    let args = [part, mountpoint];
    assert(str_views(args@) =~= seq![part@, mountpoint@]);
    push_run(&mut steps, "mount", &args, Check::Essential);
    assert(steps_view(steps@) =~= mount_plan(part@, mountpoint@));
    steps
}

/// Unmounting everything under `root`: one recursive `umount`, whatever it
/// gives.
pub open spec fn unmount_plan(root: Seq<char>) -> Seq<StepView> {
    seq![run_view("umount"@, seq!["-R"@, root], CheckView::Ignore)]
}

/// The plan that unmounts everything mounted under `root`.
pub fn unmount_all(root: &str) -> (plan: Vec<Step>)
    ensures
        steps_view(plan@) == unmount_plan(root@),
{
    let mut steps: Vec<Step> = Vec::new();
    let args = ["-R", root];
    assert(str_views(args@) =~= seq!["-R"@, root@]);
    push_run(&mut steps, "umount", &args, Check::Ignore);
    assert(steps_view(steps@) =~= unmount_plan(root@));
    steps
}

/// Guided partitioning ends successfully exactly when the new GPT, the EFI
/// partition and the root partition were all made, whatever wiping, zeroing
/// and rereading gave. Where wiping succeeded, the zeroing step is left out
/// (seven outcomes); where it did not, the zeroing follows (eight).
pub proof fn law_guided_needs_the_partitioning_steps(disk: Seq<char>, outs: Seq<OutcomeView>)
    ensures
        outs.len() == 7 && outs[0] == OutcomeView::Finished(true) ==> (final_result(
            progress_after(guided_plan(disk), outs),
        ) == Ok::<(), Seq<char>>(()) <==> (outs[1] == OutcomeView::Finished(true) && outs[2]
            == OutcomeView::Finished(true) && outs[3] == OutcomeView::Finished(true))),
        outs.len() == 8 && outs[0] != OutcomeView::Finished(true) ==> (final_result(
            progress_after(guided_plan(disk), outs),
        ) == Ok::<(), Seq<char>>(()) <==> (outs[2] == OutcomeView::Finished(true) && outs[3]
            == OutcomeView::Finished(true) && outs[4] == OutcomeView::Finished(true))),
{
    let p = guided_plan(disk);
    assert(straight_from(p, 2));
    if outs.len() == 7 && outs[0] == OutcomeView::Finished(true) {
        let head = outs.subrange(0, 1);
        let rest = outs.subrange(1, 7);
        assert(head + rest =~= outs);
        assert(head.drop_last() =~= Seq::<OutcomeView>::empty());
        assert(progress_from(p, Progress::At(0), head.drop_last()) == Progress::At(0));
        assert(head.last() == outs[0]);
        assert(p[0].check == CheckView::SkipOnSuccess(1));
        assert(progress_from(p, Progress::At(0), head) == Progress::At(2));
        lemma_progress_concat(p, Progress::At(0), head, rest);
        lemma_guided_tail(disk, rest);
        assert(rest[0] == outs[1] && rest[1] == outs[2] && rest[2] == outs[3]);
    }
    if outs.len() == 8 && outs[0] != OutcomeView::Finished(true) {
        let head = outs.subrange(0, 2);
        let rest = outs.subrange(2, 8);
        assert(head + rest =~= outs);
        assert(head.drop_last() =~= outs.subrange(0, 1));
        assert(outs.subrange(0, 1).drop_last() =~= Seq::<OutcomeView>::empty());
        assert(progress_from(p, Progress::At(0), outs.subrange(0, 1).drop_last()) == Progress::At(
            0,
        ));
        assert(outs.subrange(0, 1).last() == outs[0]);
        assert(p[0].check == CheckView::SkipOnSuccess(1));
        assert(progress_from(p, Progress::At(0), outs.subrange(0, 1)) == Progress::At(1));
        assert(head.last() == outs[1]);
        assert(p[1].check == CheckView::Ignore);
        assert(progress_from(p, Progress::At(0), head) == Progress::At(2));
        lemma_progress_concat(p, Progress::At(0), head, rest);
        lemma_guided_tail(disk, rest);
        assert(rest[0] == outs[2] && rest[1] == outs[3] && rest[2] == outs[4]);
    }
}

/// From the new GPT on, guided partitioning ends successfully exactly when
/// its three partitioning steps succeeded.
proof fn lemma_guided_tail(disk: Seq<char>, rest: Seq<OutcomeView>)
    requires
        rest.len() == 6,
    ensures
        final_result(progress_from(guided_plan(disk), Progress::At(2), rest)) == Ok::<
            (),
            Seq<char>,
        >(()) <==> (rest[0] == OutcomeView::Finished(true) && rest[1] == OutcomeView::Finished(
            true,
        ) && rest[2] == OutcomeView::Finished(true)),
{
    let p = guided_plan(disk);
    lemma_straight_run(p, 2, rest);
    if rest[0] == OutcomeView::Finished(true) && rest[1] == OutcomeView::Finished(true) && rest[2]
        == OutcomeView::Finished(true) {
        assert forall|i: int| 0 <= i < rest.len() implies passes(
            p[2 + i].check,
            #[trigger] rest[i],
        ) by {}
    } else {
        assert(!passes(p[2].check, rest[0]) || !passes(p[3].check, rest[1]) || !passes(
            p[4].check,
            rest[2],
        ));
        assert(!all_pass(p, 2, rest));
        let i = choose|i: int|
            #![trigger rest[i]]
            0 <= i < rest.len() && all_pass(p, 2, rest.subrange(0, i)) && !passes(
                p[2 + i].check,
                rest[i],
            ) && progress_from(p, Progress::At(2), rest) == settle(
                p[2 + i].check,
                rest[i],
                (2 + i) as nat,
            );
        assert(i < 3);
    }
}

/// Every partition that a listing of `disk` names is a non-empty, trimmed
/// name other than the disk's own.
pub proof fn law_partitions_are_other_trimmed_names(disk: Seq<char>, ls: Seq<Seq<char>>)
    ensures
        forall|i: int|
            0 <= i < partitions_of_lines(disk, ls).len() ==> {
                let p = #[trigger] partitions_of_lines(disk, ls)[i];
                p.len() > 0 && p != disk && trim(p) == p
            },
    decreases ls.len(),
{
    if ls.len() > 0 {
        let rest = partitions_of_lines(disk, ls.drop_last());
        law_partitions_are_other_trimmed_names(disk, ls.drop_last());
        law_trim_idempotent(ls.last());
        let all = partitions_of_lines(disk, ls);
        assert forall|i: int| 0 <= i < all.len() implies {
            let p = #[trigger] all[i];
            p.len() > 0 && p != disk && trim(p) == p
        } by {
            if i < rest.len() {
                assert(all[i] == rest[i]);
            }
        }
    }
}

/// Every disk that a listing names has a path without white space, a name
/// that is what follows the last `/` of its path, and a trimmed model.
pub proof fn law_disk_entries_are_well_formed(ls: Seq<Seq<char>>)
    ensures
        forall|i: int|
            0 <= i < disks_of_lines(ls).len() ==> {
                let d = #[trigger] disks_of_lines(ls)[i];
                &&& d.name == last_segment(d.path)
                &&& forall|j: int| 0 <= j < d.path.len() ==> !is_space(#[trigger] d.path[j])
                &&& trim(d.model) == d.model
            },
    decreases ls.len(),
{
    if ls.len() > 0 {
        law_disk_entries_are_well_formed(ls.drop_last());
        let line = ls.last();
        lemma_next_space_bounds(line, 0);
        let parts = split3_ws(line);
        if parts.len() > 2 {
            law_trim_idempotent(parts[2]);
        }
        if parts.len() >= 2 {
            let a = next_space(line, 0);
            assert(parts[0] == line.subrange(0, a));
            assert forall|j: int| 0 <= j < parts[0].len() implies !is_space(
                #[trigger] parts[0][j],
            ) by {
                assert(parts[0][j] == line[j]);
            }
            assert(trim(Seq::<char>::empty()) =~= Seq::<char>::empty());
        }
        let rest = disks_of_lines(ls.drop_last());
        let all = disks_of_lines(ls);
        assert forall|i: int| 0 <= i < all.len() implies {
            let d = #[trigger] all[i];
            &&& d.name == last_segment(d.path)
            &&& forall|j: int| 0 <= j < d.path.len() ==> !is_space(#[trigger] d.path[j])
            &&& trim(d.model) == d.model
        } by {
            if i < rest.len() {
                assert(all[i] == rest[i]);
            }
        }
    }
}

/// Unmounting never makes the installer stop with an error, whatever
/// `umount` gives.
pub proof fn law_unmount_never_fails(root: Seq<char>, outs: Seq<OutcomeView>)
    ensures
        final_result(progress_after(unmount_plan(root), outs)) == Ok::<(), Seq<char>>(()),
{
    assert(unstoppable(unmount_plan(root)));
    law_unstoppable_plan_completes(unmount_plan(root), outs);
}

/// Mounting ends successfully exactly when `mount` ran and exited
/// successfully, whatever creating the mount point gave.
pub proof fn law_mount_needs_mount(part: Seq<char>, mountpoint: Seq<char>, outs: Seq<OutcomeView>)
    requires
        outs.len() == 2,
    ensures
        final_result(progress_after(mount_plan(part, mountpoint), outs)) == Ok::<(), Seq<char>>(())
            <==> outs[1] == OutcomeView::Finished(true),
{
    let p = mount_plan(part, mountpoint);
    assert(straight_from(p, 0));
    crate::plan::law_straight_plan_result(p, outs);
    if outs[1] == OutcomeView::Finished(true) {
        assert forall|i: int| 0 <= i < outs.len() implies passes(
            p[0 + i].check,
            #[trigger] outs[i],
        ) by {}
    } else {
        assert(!passes(p[1].check, outs[1]));
    }
}

/// Formatting ends successfully exactly when the `mkfs` of the file system
/// ran and exited successfully.
pub proof fn law_format_needs_mkfs(part: Seq<char>, fstype: Seq<char>, out: OutcomeView)
    requires
        format_plan(part, fstype) is Some,
    ensures
        final_result(progress_after(format_plan(part, fstype)->0, seq![out])) == Ok::<
            (),
            Seq<char>,
        >(()) <==> out == OutcomeView::Finished(true),
{
    let p = format_plan(part, fstype)->0;
    let outs = seq![out];
    assert(straight_from(p, 0));
    crate::plan::law_straight_plan_result(p, outs);
    if out == OutcomeView::Finished(true) {
        assert forall|i: int| 0 <= i < outs.len() implies passes(
            p[0 + i].check,
            #[trigger] outs[i],
        ) by {}
    } else {
        assert(!passes(p[0].check, outs[0]));
    }
}

/// One line of the disk listing stands for a disk exactly when it holds
/// white space. Its path is what comes before the first white space, its
/// name what follows the path's last `/`, its size what lies between the
/// first and the second white space (empty where they are adjacent), and its
/// model the rest after the second, trimmed (empty where there is no
/// second).
pub proof fn law_disk_line(line: Seq<char>)
    ensures
        (disk_of_line(line) is Some) <==> next_space(line, 0) < line.len(),
        next_space(line, 0) < line.len() ==> {
            let a = next_space(line, 0);
            let b = next_space(line, a + 1);
            let d = disk_of_line(line)->0;
            &&& d.path == line.subrange(0, a)
            &&& d.name == last_segment(line.subrange(0, a))
            &&& d.size == line.subrange(a + 1, b)
            &&& d.model == if b < line.len() {
                trim(line.subrange(b + 1, line.len() as int))
            } else {
                Seq::<char>::empty()
            }
        },
{
    lemma_next_space_bounds(line, 0);
    let a = next_space(line, 0);
    if a < line.len() {
        lemma_next_space_bounds(line, a + 1);
    }
}

/// Every line of a listing that stands for a disk gives one disk, in the
/// order of the lines; a line that stands for none gives none.
pub proof fn law_disk_listing_keeps_every_disk(ls: Seq<Seq<char>>, l: Seq<char>)
    ensures
        disk_of_line(l) is Some ==> disks_of_lines(ls.push(l)) == disks_of_lines(ls).push(
            disk_of_line(l)->0,
        ),
        disk_of_line(l) is None ==> disks_of_lines(ls.push(l)) == disks_of_lines(ls),
        disks_of_lines(ls).len() <= ls.len(),
    decreases ls.len(),
{
    assert(ls.push(l).drop_last() =~= ls);
    assert(ls.push(l).last() == l);
    if ls.len() > 0 {
        law_disk_listing_keeps_every_disk(ls.drop_last(), ls.last());
        assert(ls.drop_last().push(ls.last()) =~= ls);
    }
}

/// Every line of a partition listing whose trimmed text is neither empty
/// nor the disk itself gives that text as a partition, in the order of the
/// lines; every other line gives none.
pub proof fn law_partition_listing_keeps_every_partition(
    disk: Seq<char>,
    ls: Seq<Seq<char>>,
    l: Seq<char>,
)
    ensures
        trim(l).len() > 0 && trim(l) != disk ==> partitions_of_lines(disk, ls.push(l))
            == partitions_of_lines(disk, ls).push(trim(l)),
        !(trim(l).len() > 0 && trim(l) != disk) ==> partitions_of_lines(disk, ls.push(l))
            == partitions_of_lines(disk, ls),
{
    assert(ls.push(l).drop_last() =~= ls);
    assert(ls.push(l).last() == l);
}

} // verus!
