//! Configuration of the installed system: host name, passwords, users, time
//! zone, network service and file system table.
use vstd::prelude::*;
use crate::plan::{
    CommandView,
    pending_action,
    concat, concat3, context_message, final_result, law_stop_comes_from_a_step,
    law_straight_plan_result, owned, passes, progress_after, push_run, push_say, push_step,
    run_view, say_view, settle, step_view, steps_view, straight_from, Action, ActionView, Check,
    CheckView, OutcomeView, Progress, Step, StepView,
};
use crate::text::{
    join, join_strs, str_views,
};

verus! {

/// `base` with `part` appended as `Path::join` does it on Unix: an absolute
/// `part` replaces `base`; otherwise a `/` goes between them unless `base` is
/// empty or already ends with one.
pub open spec fn path_join(base: Seq<char>, part: Seq<char>) -> Seq<char> {
    if part.len() > 0 && part[0] == '/' {
        part
    } else if base.len() == 0 || base.last() == '/' {
        base + part
    } else {
        base + "/"@ + part
    }
}

/// `base` with `part` appended as a path component (`Path::join` on Unix).
pub fn join_path(base: &str, part: &str) -> (r: String)
    ensures
        r@ == path_join(base@, part@),
{
    if part.unicode_len() > 0 && part.get_char(0) == '/' {
        return owned(part);
    }
    let n = base.unicode_len();
    if n == 0 || base.get_char(n - 1) == '/' {
        concat(base, part)
    } else {
        concat3(base, "/", part)
    }
}

/// The path of the file `name` in the `etc` directory under `root`.
pub open spec fn etc_path(root: Seq<char>, name: Seq<char>) -> Seq<char> {
    path_join(path_join(root, "etc"@), name)
}

/// The path of the file `name` in the `etc` directory under `root`.
pub fn etc_file(root: &str, name: &str) -> (r: String)
    ensures
        r@ == etc_path(root@, name@),
{
    let etc = join_path(root, "etc");
    join_path(etc.as_str(), name)
}

/// What `/etc/hostname` holds: the host name and a line end.
pub open spec fn hostname_text(hostname: Seq<char>) -> Seq<char> {
    hostname + "\n"@
}

/// What `/etc/hosts` holds: the loopback names, and the host name with its
/// `.localdomain` form on 127.0.1.1.
pub open spec fn hosts_text(hostname: Seq<char>) -> Seq<char> {
    "127.0.0.1   localhost\n::1         localhost\n127.0.1.1   "@ + hostname + ".localdomain "@
        + hostname + "\n"@
}

/// The text of `/etc/hosts` for `hostname`.
pub fn hosts_contents(hostname: &str) -> (r: String)
    ensures
        r@ == hosts_text(hostname@),
{
    let mut r = owned("127.0.0.1   localhost\n::1         localhost\n127.0.1.1   ");
    r.append(hostname);
    r.append(".localdomain ");
    r.append(hostname);
    r.append("\n");
    r
}

/// Setting the host name of the system under `root`: write `/etc/hostname`,
/// then `/etc/hosts`, each required to work, and report it.
pub open spec fn hostname_plan(root: Seq<char>, hostname: Seq<char>) -> Seq<StepView> {
    seq![
        step_view(
            ActionView::WriteFile {
                path: etc_path(root, "hostname"@),
                contents: hostname_text(hostname),
            },
            CheckView::MustStart("failed to write hostname"@),
        ),
        step_view(
            ActionView::WriteFile { path: etc_path(root, "hosts"@), contents: hosts_text(hostname) },
            CheckView::MustStart("failed to write hosts"@),
        ),
        say_view("  Hostname set to: "@ + hostname),
    ]
}

/// The plan that sets the host name of the system mounted at `root`.
pub fn set_hostname(root: &str, hostname: &str) -> (plan: Vec<Step>)
    ensures
        steps_view(plan@) == hostname_plan(root@, hostname@),
{
    let mut steps: Vec<Step> = Vec::new();
    push_step(
        &mut steps,
        Action::WriteFile { path: etc_file(root, "hostname"), contents: concat(hostname, "\n") },
        Check::MustStart(owned("failed to write hostname")),
    );
    push_step(
        &mut steps,
        Action::WriteFile { path: etc_file(root, "hosts"), contents: hosts_contents(hostname) },
        Check::MustStart(owned("failed to write hosts")),
    );
    push_say(&mut steps, concat("  Hostname set to: ", hostname));
    assert(steps_view(steps@) =~= hostname_plan(root@, hostname@));
    steps
}

/// The shell command that sets the password of `user` to `password` with
/// `chpasswd`.
pub open spec fn chpasswd_text(user: Seq<char>, password: Seq<char>) -> Seq<char> {
    "echo '"@ + user + ":"@ + password + "' | chpasswd"@
}

/// The shell command that sets the password of `user`.
pub fn chpasswd_command(user: &str, password: &str) -> (r: String)
    ensures
        r@ == chpasswd_text(user@, password@),
{
    let mut r = concat3("echo '", user, ":");
    r.append(password);
    r.append("' | chpasswd");
    r
}

/// Setting the root password of the system under `root`: `chpasswd` in a
/// chroot, required to succeed, and a report.
pub open spec fn root_password_plan(root: Seq<char>, password: Seq<char>) -> Seq<StepView> {
    seq![
        run_view(
            "chroot"@,
            seq![root, "sh"@, "-c"@, chpasswd_text("root"@, password)],
            CheckView::MustSucceed {
                context: "failed to set root password"@,
                failure: "failed to set root password"@,
            },
        ),
        say_view("  Root password set."@),
    ]
}

/// The plan that sets the root password of the system mounted at `root`.
pub fn set_root_password(root: &str, password: &str) -> (plan: Vec<Step>)
    ensures
        steps_view(plan@) == root_password_plan(root@, password@),
{
    let mut steps: Vec<Step> = Vec::new();
    let script = chpasswd_command("root", password);
    let args = [root, "sh", "-c", script.as_str()];
    assert(str_views(args@) =~= seq![root@, "sh"@, "-c"@, chpasswd_text("root"@, password@)]);
    push_run(
        &mut steps,
        "chroot",
        &args,
        Check::MustSucceed {
            context: owned("failed to set root password"),
            failure: owned("failed to set root password"),
        },
    );
    push_say(&mut steps, owned("  Root password set."));
    assert(steps_view(steps@) =~= root_password_plan(root@, password@));
    steps
}

/// Creating the user `username` in the system under `root`: `useradd` with a
/// home directory and the groups, then the password by `chpasswd`, both in a
/// chroot and required to succeed, and a report.
pub open spec fn user_plan(
    root: Seq<char>,
    username: Seq<char>,
    password: Seq<char>,
    groups: Seq<Seq<char>>,
) -> Seq<StepView> {
    seq![
        run_view(
            "chroot"@,
            seq![root, "useradd"@, "-m"@, "-G"@, join(groups, ","@), username],
            CheckView::MustSucceed {
                context: "failed to create user"@,
                failure: "failed to create user: "@ + username,
            },
        ),
        run_view(
            "chroot"@,
            seq![root, "sh"@, "-c"@, chpasswd_text(username, password)],
            CheckView::MustSucceed {
                context: "failed to set user password"@,
                failure: "failed to set password for "@ + username,
            },
        ),
        say_view("  User created: "@ + username),
    ]
}

/// The plan that creates a user with a password and supplementary groups in
/// the system mounted at `root`.
pub fn create_user(root: &str, username: &str, password: &str, groups: &[&str]) -> (plan: Vec<
    Step,
>)
    ensures
        steps_view(plan@) == user_plan(root@, username@, password@, str_views(groups@)),
{
    let mut steps: Vec<Step> = Vec::new();
    let group_list = join_strs(groups, ",");
    let add = [root, "useradd", "-m", "-G", group_list.as_str(), username];
    assert(str_views(add@) =~= seq![
        root@,
        "useradd"@,
        "-m"@,
        "-G"@,
        join(str_views(groups@), ","@),
        username@,
    ]);
    push_run(
        &mut steps,
        "chroot",
        &add,
        Check::MustSucceed {
            context: owned("failed to create user"),
            failure: concat("failed to create user: ", username),
        },
    );
    let script = chpasswd_command(username, password);
    let pw = [root, "sh", "-c", script.as_str()];
    assert(str_views(pw@) =~= seq![root@, "sh"@, "-c"@, chpasswd_text(username@, password@)]);
    push_run(
        &mut steps,
        "chroot",
        &pw,
        Check::MustSucceed {
            context: owned("failed to set user password"),
            failure: concat("failed to set password for ", username),
        },
    );
    push_say(&mut steps, concat("  User created: ", username));
    assert(steps_view(steps@) =~= user_plan(root@, username@, password@, str_views(groups@)));
    steps
}

/// Setting the time zone of the system under `root`: remove
/// `/etc/localtime` (whatever that gives), copy the zone's file there with
/// `cp`, required to succeed, write the zone's name to `/etc/timezone`
/// (whatever that gives), and report it.
pub open spec fn timezone_plan(root: Seq<char>, timezone: Seq<char>) -> Seq<StepView> {
    let target = etc_path(root, "localtime"@);
    seq![
        step_view(ActionView::RemoveFile(target), CheckView::Ignore),
        run_view(
            "cp"@,
            seq!["/usr/share/zoneinfo/"@ + timezone, target],
            CheckView::MustSucceed {
                context: "failed to set timezone"@,
                failure: "timezone "@ + timezone + " not found"@,
            },
        ),
        step_view(
            ActionView::WriteFile {
                path: etc_path(root, "timezone"@),
                contents: timezone + "\n"@,
            },
            CheckView::Ignore,
        ),
        say_view("  Timezone set to: "@ + timezone),
    ]
}

/// The plan that sets the time zone of the system mounted at `root`.
pub fn set_timezone(root: &str, timezone: &str) -> (plan: Vec<Step>)
    ensures
        steps_view(plan@) == timezone_plan(root@, timezone@),
{
    let mut steps: Vec<Step> = Vec::new();
    let target = etc_file(root, "localtime");
    push_step(&mut steps, Action::RemoveFile(target.clone()), Check::Ignore);
    let zone_file = concat("/usr/share/zoneinfo/", timezone);
    let args = [zone_file.as_str(), target.as_str()];
    assert(str_views(args@) =~= seq!["/usr/share/zoneinfo/"@ + timezone@, target@]);
    push_run(
        &mut steps,
        "cp",
        &args,
        Check::MustSucceed {
            context: owned("failed to set timezone"),
            failure: concat3("timezone ", timezone, " not found"),
        },
    );
    push_step(
        &mut steps,
        Action::WriteFile { path: etc_file(root, "timezone"), contents: concat(timezone, "\n") },
        Check::Ignore,
    );
    push_say(&mut steps, concat("  Timezone set to: ", timezone));
    assert(steps_view(steps@) =~= timezone_plan(root@, timezone@));
    steps
}

/// The run script of the `dhcpcd` service.
pub open spec fn dhcpcd_run_script() -> Seq<char> {
    "#!/bin/sh\nexec dhcpcd -n\n"@
}

/// The finish script of the `dhcpcd` service.
pub open spec fn dhcpcd_finish_script() -> Seq<char> {
    "#!/bin/sh\nexit 0\n"@
}

/// The service directory of `dhcpcd` under `root`.
pub open spec fn dhcpcd_service_dir(root: Seq<char>) -> Seq<char> {
    path_join(etc_path(root, "sv"@), "dhcpcd"@)
}

/// The directory of enabled services under `root`.
pub open spec fn enabled_services_dir(root: Seq<char>) -> Seq<char> {
    path_join(path_join(root, "var"@), "service"@)
}

/// Enabling DHCP in the system under `root`. Where the `dhcpcd` service
/// directory does not exist yet: create it (whatever that gives), write its
/// run script, required to work, and its finish script (whatever that
/// gives). Then, whatever these give: create the directory of enabled
/// services, remove its `dhcpcd` entry, link that entry to the service
/// directory, and make the scripts executable in a chroot; and report it.
pub open spec fn network_plan(root: Seq<char>) -> Seq<StepView> {
    let sv = dhcpcd_service_dir(root);
    let enabled = enabled_services_dir(root);
    seq![
        step_view(ActionView::PathExists(sv), CheckView::SkipOnSuccess(3)),
        step_view(ActionView::CreateDirAll(sv), CheckView::Ignore),
        step_view(
            ActionView::WriteFile { path: path_join(sv, "run"@), contents: dhcpcd_run_script() },
            CheckView::MustStart("failed to create dhcpcd run script"@),
        ),
        step_view(
            ActionView::WriteFile {
                path: path_join(sv, "finish"@),
                contents: dhcpcd_finish_script(),
            },
            CheckView::Ignore,
        ),
        step_view(ActionView::CreateDirAll(enabled), CheckView::Ignore),
        step_view(ActionView::RemoveFile(path_join(enabled, "dhcpcd"@)), CheckView::Ignore),
        step_view(
            ActionView::Symlink { original: sv, link: path_join(enabled, "dhcpcd"@) },
            CheckView::Ignore,
        ),
        run_view(
            "chroot"@,
            seq![
                root,
                "sh"@,
                "-c"@,
                "chmod +x /etc/sv/dhcpcd/run /etc/sv/dhcpcd/finish 2>/dev/null"@,
            ],
            CheckView::Ignore,
        ),
        say_view("  Network configured (dhcpcd enabled)."@),
    ]
}

/// The plan that enables DHCP in the system mounted at `root`.
pub fn configure_network(root: &str) -> (plan: Vec<Step>)
    ensures
        steps_view(plan@) == network_plan(root@),
{
    let mut steps: Vec<Step> = Vec::new();
    let sv_dir = etc_file(root, "sv");
    let sv = join_path(sv_dir.as_str(), "dhcpcd");
    let var = join_path(root, "var");
    let enabled = join_path(var.as_str(), "service");
    push_step(&mut steps, Action::PathExists(sv.clone()), Check::SkipOnSuccess(3));
    push_step(&mut steps, Action::CreateDirAll(sv.clone()), Check::Ignore);
    push_step(
        &mut steps,
        Action::WriteFile {
            path: join_path(sv.as_str(), "run"),
            contents: owned("#!/bin/sh\nexec dhcpcd -n\n"),
        },
        Check::MustStart(owned("failed to create dhcpcd run script")),
    );
    push_step(
        &mut steps,
        Action::WriteFile {
            path: join_path(sv.as_str(), "finish"),
            contents: owned("#!/bin/sh\nexit 0\n"),
        },
        Check::Ignore,
    );
    push_step(&mut steps, Action::CreateDirAll(enabled.clone()), Check::Ignore);
    push_step(
        &mut steps,
        Action::RemoveFile(join_path(enabled.as_str(), "dhcpcd")),
        Check::Ignore,
    );
    push_step(
        &mut steps,
        Action::Symlink { original: sv.clone(), link: join_path(enabled.as_str(), "dhcpcd") },
        Check::Ignore,
    );
    let chmod = [root, "sh", "-c", "chmod +x /etc/sv/dhcpcd/run /etc/sv/dhcpcd/finish 2>/dev/null"];
    assert(str_views(chmod@) =~= seq![
        root@,
        "sh"@,
        "-c"@,
        "chmod +x /etc/sv/dhcpcd/run /etc/sv/dhcpcd/finish 2>/dev/null"@,
    ]);
    push_run(&mut steps, "chroot", &chmod, Check::Ignore);
    push_say(&mut steps, owned("  Network configured (dhcpcd enabled)."));
    assert(steps_view(steps@) =~= network_plan(root@));
    steps
}

/// The file system table: a comment line; the root partition on `/` with
/// `fstype`, checked first; the EFI partition, where there is one, on
/// `/boot/efi` as vfat, checked second; then `proc`, `sys`, `dev` and a
/// tmpfs on `/run`.
pub open spec fn fstab_text(
    root_part: Seq<char>,
    efi_part: Option<Seq<char>>,
    fstype: Seq<char>,
) -> Seq<char> {
    let head = "# /etc/fstab: static file system information\n"@ + root_part + "  /  "@ + fstype
        + "  defaults  0  1\n"@;
    let efi = match efi_part {
        Some(e) => e + "  /boot/efi  vfat  defaults  0  2\n"@,
        None => Seq::empty(),
    };
    head + efi + "proc  /proc  proc  nosuid,noexec,nodev  0  0\n"@
        + "sys   /sys   sysfs nosuid,noexec,nodev  0  0\n"@ + "dev   /dev   devtmpfs  nosuid  0  0\n"@
        + "tmpfs /run  tmpfs  nosuid,nodev  0  0\n"@
}

/// A string slice that may be absent, as characters.
pub open spec fn opt_view(o: Option<&str>) -> Option<Seq<char>> {
    match o {
        Some(s) => Some(s@),
        None => None,
    }
}

/// The text of `/etc/fstab`.
pub fn fstab_contents(root_part: &str, efi_part: Option<&str>, fstype: &str) -> (r: String)
    ensures
        r@ == fstab_text(root_part@, opt_view(efi_part), fstype@),
{
    let mut r = owned("# /etc/fstab: static file system information\n");
    r.append(root_part);
    r.append("  /  ");
    r.append(fstype);
    r.append("  defaults  0  1\n");
    if let Some(efi) = efi_part {
        r.append(efi);
        r.append("  /boot/efi  vfat  defaults  0  2\n");
    }
    r.append("proc  /proc  proc  nosuid,noexec,nodev  0  0\n");
    r.append("sys   /sys   sysfs nosuid,noexec,nodev  0  0\n");
    r.append("dev   /dev   devtmpfs  nosuid  0  0\n");
    r.append("tmpfs /run  tmpfs  nosuid,nodev  0  0\n");
    r
}

/// Writing the file system table of the system under `root`: write
/// `/etc/fstab`, required to work, and report it.
pub open spec fn fstab_plan(
    root: Seq<char>,
    root_part: Seq<char>,
    efi_part: Option<Seq<char>>,
    fstype: Seq<char>,
) -> Seq<StepView> {
    seq![
        step_view(
            ActionView::WriteFile {
                path: etc_path(root, "fstab"@),
                contents: fstab_text(root_part, efi_part, fstype),
            },
            CheckView::MustStart("failed to write fstab"@),
        ),
        say_view("  /etc/fstab written."@),
    ]
}

/// The plan that writes the file system table of the system mounted at
/// `root`.
pub fn configure_fstab(root: &str, root_part: &str, efi_part: Option<&str>, fstype: &str) -> (plan:
    Vec<Step>)
    ensures
        steps_view(plan@) == fstab_plan(root@, root_part@, opt_view(efi_part), fstype@),
{
    let mut steps: Vec<Step> = Vec::new();
    push_step(
        &mut steps,
        Action::WriteFile {
            path: etc_file(root, "fstab"),
            contents: fstab_contents(root_part, efi_part, fstype),
        },
        Check::MustStart(owned("failed to write fstab")),
    );
    push_say(&mut steps, owned("  /etc/fstab written."));
    assert(steps_view(steps@) =~= fstab_plan(root@, root_part@, opt_view(efi_part), fstype@));
    steps
}

/// Setting the host name ends successfully exactly when both `/etc/hostname`
/// and `/etc/hosts` were written.
pub proof fn law_hostname_needs_both_files(
    root: Seq<char>,
    hostname: Seq<char>,
    outs: Seq<OutcomeView>,
)
    requires
        outs.len() == 3,
    ensures
        final_result(progress_after(hostname_plan(root, hostname), outs)) == Ok::<(), Seq<char>>(())
            <==> (outs[0] is Finished && outs[1] is Finished),
{
    let p = hostname_plan(root, hostname);
    assert(straight_from(p, 0));
    law_straight_plan_result(p, outs);
    if outs[0] is Finished && outs[1] is Finished {
        assert forall|i: int| 0 <= i < outs.len() implies passes(
            p[0 + i].check,
            #[trigger] outs[i],
        ) by {}
    } else {
        assert(!passes(p[0].check, outs[0]) || !passes(p[1].check, outs[1]));
    }
}

/// Creating a user ends successfully exactly when `useradd` and then
/// `chpasswd` both ran and exited successfully.
pub proof fn law_user_needs_both_commands(
    root: Seq<char>,
    username: Seq<char>,
    password: Seq<char>,
    groups: Seq<Seq<char>>,
    outs: Seq<OutcomeView>,
)
    requires
        outs.len() == 3,
    ensures
        final_result(progress_after(user_plan(root, username, password, groups), outs)) == Ok::<
            (),
            Seq<char>,
        >(()) <==> (outs[0] == OutcomeView::Finished(true) && outs[1] == OutcomeView::Finished(
            true,
        )),
{
    let p = user_plan(root, username, password, groups);
    assert(straight_from(p, 0));
    law_straight_plan_result(p, outs);
    if outs[0] == OutcomeView::Finished(true) && outs[1] == OutcomeView::Finished(true) {
        assert forall|i: int| 0 <= i < outs.len() implies passes(
            p[0 + i].check,
            #[trigger] outs[i],
        ) by {}
    } else {
        assert(!passes(p[0].check, outs[0]) || !passes(p[1].check, outs[1]));
    }
}

/// Setting the time zone ends successfully exactly when copying the zone's
/// file succeeded, whatever removing the old one and writing the zone's name
/// gave; where the zone's file cannot be copied, it ends with "timezone
/// <zone> not found".
pub proof fn law_timezone_needs_the_copy(
    root: Seq<char>,
    timezone: Seq<char>,
    outs: Seq<OutcomeView>,
)
    requires
        outs.len() == 4,
    ensures
        final_result(progress_after(timezone_plan(root, timezone), outs)) == Ok::<(), Seq<char>>(
            (),
        ) <==> outs[1] == OutcomeView::Finished(true),
        outs[1] == OutcomeView::Finished(false) ==> final_result(
            progress_after(timezone_plan(root, timezone), outs),
        ) == Err::<(), Seq<char>>("timezone "@ + timezone + " not found"@),
{
    let p = timezone_plan(root, timezone);
    assert(straight_from(p, 0));
    law_straight_plan_result(p, outs);
    if outs[1] == OutcomeView::Finished(true) {
        assert forall|i: int| 0 <= i < outs.len() implies passes(
            p[0 + i].check,
            #[trigger] outs[i],
        ) by {}
    } else {
        assert(!passes(p[1].check, outs[1]));
    }
}

/// Writing the file system table ends successfully exactly when the file was
/// written.
pub proof fn law_fstab_needs_the_write(
    root: Seq<char>,
    root_part: Seq<char>,
    efi_part: Option<Seq<char>>,
    fstype: Seq<char>,
    outs: Seq<OutcomeView>,
)
    requires
        outs.len() == 2,
    ensures
        final_result(progress_after(fstab_plan(root, root_part, efi_part, fstype), outs)) == Ok::<
            (),
            Seq<char>,
        >(()) <==> outs[0] is Finished,
{
    let p = fstab_plan(root, root_part, efi_part, fstype);
    assert(straight_from(p, 0));
    law_straight_plan_result(p, outs);
    if outs[0] is Finished {
        assert forall|i: int| 0 <= i < outs.len() implies passes(
            p[0 + i].check,
            #[trigger] outs[i],
        ) by {}
    } else {
        assert(!passes(p[0].check, outs[0]));
    }
}

/// The file system table has a line for the EFI partition exactly when there
/// is one; with one, it is the table without one with that line put in just
/// after the root partition's line.
pub proof fn law_fstab_efi_line(root_part: Seq<char>, efi: Seq<char>, fstype: Seq<char>)
    ensures
        ({
            let head = "# /etc/fstab: static file system information\n"@ + root_part + "  /  "@
                + fstype + "  defaults  0  1\n"@;
            let line = efi + "  /boot/efi  vfat  defaults  0  2\n"@;
            &&& fstab_text(root_part, None, fstype).len() >= head.len()
            &&& fstab_text(root_part, Some(efi), fstype) == head + line + fstab_text(
                root_part,
                None,
                fstype,
            ).subrange(head.len() as int, fstab_text(root_part, None, fstype).len() as int)
        }),
{
    let head = "# /etc/fstab: static file system information\n"@ + root_part + "  /  "@ + fstype
        + "  defaults  0  1\n"@;
    let none = fstab_text(root_part, None, fstype);
    let tail = "proc  /proc  proc  nosuid,noexec,nodev  0  0\n"@
        + "sys   /sys   sysfs nosuid,noexec,nodev  0  0\n"@ + "dev   /dev   devtmpfs  nosuid  0  0\n"@
        + "tmpfs /run  tmpfs  nosuid,nodev  0  0\n"@;
    assert(none =~= head + Seq::<char>::empty() + tail);
    assert(none.subrange(head.len() as int, none.len() as int) =~= tail);
}

/// Enabling DHCP can only fail where the run script of the service could
/// not be written, and it then says so with the reason; every other step's
/// outcome is passed over.
pub proof fn law_network_fails_only_on_the_run_script(root: Seq<char>, outs: Seq<OutcomeView>)
    ensures
        forall|m: Seq<char>|
            final_result(progress_after(network_plan(root), outs)) == Err::<(), Seq<char>>(m)
                ==> exists|e: Seq<char>|
                m == context_message("failed to create dhcpcd run script"@, e),
{
    let p = network_plan(root);
    law_stop_comes_from_a_step(p, outs);
    assert forall|m: Seq<char>|
        final_result(progress_after(p, outs)) == Err::<(), Seq<char>>(m) implies exists|
            e: Seq<char>,
        | m == context_message("failed to create dhcpcd run script"@, e) by {
        let (i, k) = choose|i: int, k: int|
            #![trigger p[i], outs[k]]
            0 <= i < p.len() && 0 <= k < outs.len() && settle(p[i].check, outs[k], i as nat)
                == Progress::Stopped(Err(m));
        assert(i == 2);
        assert(outs[k] is Failed);
        let e = outs[k]->Failed_0;
        assert(m == context_message("failed to create dhcpcd run script"@, e));
    }
}

/// Joining a relative, non-empty part adds it at the end: the length grows
/// by the part's length, and by one more where a `/` goes between.
proof fn lemma_path_join_len(base: Seq<char>, part: Seq<char>)
    requires
        part.len() > 0,
        part[0] != '/',
    ensures
        path_join(base, part).len() == base.len() + part.len() || path_join(base, part).len()
            == base.len() + part.len() + 1,
        (base.len() == 0 || base.last() == '/') ==> path_join(base, part).len() == base.len()
            + part.len(),
        !(base.len() == 0 || base.last() == '/') ==> path_join(base, part).len() == base.len()
            + part.len() + 1,
{
    reveal_strlit("/");
}

/// The directory of the `dhcpcd` service under `root`, spelled out.
pub open spec fn dhcpcd_dir_of(root: Seq<char>) -> Seq<char> {
    path_join(path_join(path_join(root, "etc"@), "sv"@), "dhcpcd"@)
}

/// Enabling DHCP writes the run script `exec dhcpcd -n` to `<sv>/run` and
/// nothing else there; where the service directory does not exist yet, the
/// run goes on, after the directory and the run script, to writing the
/// finish script `exit 0` to `<sv>/finish`.
pub proof fn law_network_scripts(root: Seq<char>, outs: Seq<OutcomeView>)
    ensures
        forall|i: int|
            0 <= i < network_plan(root).len() && (#[trigger] network_plan(root)[i]).action
                is WriteFile && network_plan(root)[i].action->WriteFile_path == path_join(
                dhcpcd_dir_of(root),
                "run"@,
            ) ==> network_plan(root)[i].action->WriteFile_contents
                == "#!/bin/sh\nexec dhcpcd -n\n"@,
        outs.len() == 2 && outs[0] == OutcomeView::Finished(false) ==> pending_action(
            network_plan(root),
            progress_after(network_plan(root), outs),
        ) == Some(
            ActionView::WriteFile {
                path: path_join(dhcpcd_dir_of(root), "run"@),
                contents: "#!/bin/sh\nexec dhcpcd -n\n"@,
            },
        ),
        outs.len() == 3 && outs[0] == OutcomeView::Finished(false) && outs[2] is Finished
            ==> pending_action(network_plan(root), progress_after(network_plan(root), outs))
            == Some(
            ActionView::WriteFile {
                path: path_join(dhcpcd_dir_of(root), "finish"@),
                contents: "#!/bin/sh\nexit 0\n"@,
            },
        ),
{
    let p = network_plan(root);
    let sv = dhcpcd_dir_of(root);
    reveal_strlit("run");
    reveal_strlit("finish");
    lemma_path_join_len(sv, "run"@);
    lemma_path_join_len(sv, "finish"@);
    assert(path_join(sv, "finish"@) != path_join(sv, "run"@));
    assert forall|i: int|
        0 <= i < p.len() && (#[trigger] p[i]).action is WriteFile && p[i].action->WriteFile_path
            == path_join(sv, "run"@) implies p[i].action->WriteFile_contents
        == "#!/bin/sh\nexec dhcpcd -n\n"@ by {
        assert(i == 2 || i == 3);
    }
    if outs.len() >= 2 && outs[0] == OutcomeView::Finished(false) {
        let o1 = outs.subrange(0, 1);
        let o2 = outs.subrange(0, 2);
        assert(o1.drop_last() =~= Seq::<OutcomeView>::empty());
        assert(o2.drop_last() =~= o1);
        assert(o1.last() == outs[0]);
        assert(progress_after(p, o1.drop_last()) == Progress::At(0));
        assert(progress_after(p, o1) == Progress::At(1));
        assert(progress_after(p, o2) == Progress::At(2));
        if outs.len() == 2 {
            assert(o2 =~= outs);
        }
        if outs.len() == 3 && outs[2] is Finished {
            assert(outs.drop_last() =~= o2);
            assert(outs.last() == outs[2]);
            assert(progress_after(p, outs) == Progress::At(3));
        }
    }
}

/// Where the `dhcpcd` service directory does not exist yet, enabling DHCP
/// first creates it. Whatever comes before, it then creates the directory of
/// enabled services, removes its `dhcpcd` entry, links that entry to the
/// service directory, makes both scripts executable in a chroot and reports
/// it, in that order, as its last five steps.
pub proof fn law_network_enables_the_service(root: Seq<char>, first: OutcomeView)
    ensures
        first != OutcomeView::Finished(true) ==> pending_action(
            network_plan(root),
            progress_after(network_plan(root), seq![first]),
        ) == Some(ActionView::CreateDirAll(dhcpcd_dir_of(root))),
        first == OutcomeView::Finished(true) ==> pending_action(
            network_plan(root),
            progress_after(network_plan(root), seq![first]),
        ) == Some(
            ActionView::CreateDirAll(path_join(path_join(root, "var"@), "service"@)),
        ),
        network_plan(root).len() == 9,
        network_plan(root)[4].action == ActionView::CreateDirAll(
            path_join(path_join(root, "var"@), "service"@),
        ),
        network_plan(root)[5].action == ActionView::RemoveFile(
            path_join(path_join(path_join(root, "var"@), "service"@), "dhcpcd"@),
        ),
        network_plan(root)[6].action == (ActionView::Symlink {
            original: dhcpcd_dir_of(root),
            link: path_join(path_join(path_join(root, "var"@), "service"@), "dhcpcd"@),
        }),
        network_plan(root)[7].action == ActionView::Run(
            CommandView {
                program: "chroot"@,
                args: seq![
                    root,
                    "sh"@,
                    "-c"@,
                    "chmod +x /etc/sv/dhcpcd/run /etc/sv/dhcpcd/finish 2>/dev/null"@,
                ],
                env: Seq::empty(),
            },
        ),
        network_plan(root)[8].action == ActionView::Say("  Network configured (dhcpcd enabled)."@),
{
    let p = network_plan(root);
    let o = seq![first];
    assert(o.drop_last() =~= Seq::<OutcomeView>::empty());
    assert(o.last() == first);
    assert(progress_after(p, o.drop_last()) == Progress::At(0));
}

} // verus!
