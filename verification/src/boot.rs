//! The boot loader: where the firmware tells that it boots by EFI, and how
//! GRUB goes onto the target system.
use vstd::prelude::*;
use crate::plan::{
    CommandView,
    all_pass, concat, concat3, context_message, final_result, lemma_straight_run, owned, passes,
    progress_after, push_run, push_say, push_step, run_view, say_view, settle, step_view,
    steps_view, straight_from, Action, ActionView, Check, CheckView, OutcomeView, Progress, Step,
    StepView,
};
use crate::text::str_views;

verus! {

/// The directory whose presence shows that the machine booted by EFI.
pub open spec fn efi_firmware_dir() -> Seq<char> {
    "/sys/firmware/efi"@
}

/// Whether the machine booted by EFI: the question to ask of the file
/// system; a `Finished(true)` answer means EFI.
pub fn detect_efi() -> (a: Action)
    ensures
        a@ == ActionView::PathExists(efi_firmware_dir()),
{
    Action::PathExists(owned("/sys/firmware/efi"))
}

/// The two steps that make `/<dir>` visible as `<root>/<dir>`: create the
/// directory, then bind-mount onto it; neither outcome decides anything.
pub open spec fn bind_mount_steps(root: Seq<char>, dir: Seq<char>) -> Seq<StepView> {
    let target = root + "/"@ + dir;
    seq![
        step_view(ActionView::CreateDirAll(target), CheckView::Ignore),
        run_view("mount"@, seq!["--bind"@, "/"@ + dir, target], CheckView::Ignore),
    ]
}

/// The bind mounts of `/dev`, `/proc`, `/sys` and `/run` under `root`.
pub open spec fn system_mount_steps(root: Seq<char>) -> Seq<StepView> {
    bind_mount_steps(root, "dev"@) + bind_mount_steps(root, "proc"@) + bind_mount_steps(
        root,
        "sys"@,
    ) + bind_mount_steps(root, "run"@)
}

/// Appends the bind mount of `/<dir>` under `root` to `steps`.
pub fn push_bind_mount(steps: &mut Vec<Step>, root: &str, dir: &str)
    ensures
        steps_view(final(steps)@) == steps_view(old(steps)@) + bind_mount_steps(root@, dir@),
{
    let target = concat3(root, "/", dir);
    let source = concat("/", dir);
    let ghost t = target@;
    let ghost src = source@;
    push_step(steps, Action::CreateDirAll(target.clone()), Check::Ignore);
    let args = [&*"--bind", source.as_str(), target.as_str()];
    assert(str_views(args@) =~= seq!["--bind"@, src, t]);
    push_run(steps, "mount", &args, Check::Ignore);
    assert(steps_view(steps@) =~= steps_view(old(steps)@) + bind_mount_steps(root@, dir@));
}

/// Appends the bind mounts of `/dev`, `/proc`, `/sys` and `/run` under
/// `root` to `steps`.
pub fn push_system_mounts(steps: &mut Vec<Step>, root: &str)
    ensures
        steps_view(final(steps)@) == steps_view(old(steps)@) + system_mount_steps(root@),
{
    push_bind_mount(steps, root, "dev");
    push_bind_mount(steps, root, "proc");
    push_bind_mount(steps, root, "sys");
    push_bind_mount(steps, root, "run");
    assert(steps_view(steps@) =~= steps_view(old(steps)@) + system_mount_steps(root@));
}

/// The arguments of `chroot` that install GRUB for EFI into `root`.
pub open spec fn grub_install_args(root: Seq<char>) -> Seq<Seq<char>> {
    seq![
        root,
        "grub-install"@,
        "--target=x86_64-efi"@,
        "--efi-directory=/boot/efi"@,
        "--bootloader-id=SwellOS"@,
        "--recheck"@,
    ]
}

/// The arguments of `chroot` that write GRUB's configuration in `root`.
pub open spec fn grub_mkconfig_args(root: Seq<char>) -> Seq<Seq<char>> {
    seq![root, "grub-mkconfig"@, "-o"@, "/boot/grub/grub.cfg"@]
}

/// Installing GRUB into the system mounted at `root`: announce it, bind-mount
/// the system directories, run `grub-install`, then `grub-mkconfig`, each
/// in a chroot and each required to succeed, and report success.
pub open spec fn grub_plan(root: Seq<char>) -> Seq<StepView> {
    seq![say_view("Installing GRUB..."@)] + system_mount_steps(root) + seq![
        run_view(
            "chroot"@,
            grub_install_args(root),
            CheckView::MustSucceed {
                context: "failed to run grub-install"@,
                failure: "grub-install failed"@,
            },
        ),
        run_view(
            "chroot"@,
            grub_mkconfig_args(root),
            CheckView::MustSucceed {
                context: "failed to run grub-mkconfig"@,
                failure: "grub-mkconfig failed"@,
            },
        ),
        say_view("GRUB installed successfully."@),
    ]
}

/// The plan that installs GRUB for EFI into the system mounted at `root`.
/// The disk is not used: GRUB goes to the EFI system partition.
pub fn install_grub(root: &str, _disk: &str) -> (plan: Vec<Step>)
    ensures
        steps_view(plan@) == grub_plan(root@),
{
    let mut steps: Vec<Step> = Vec::new();
    push_say(&mut steps, owned("Installing GRUB..."));
    push_system_mounts(&mut steps, root);
    let install = [
        root,
        "grub-install",
        "--target=x86_64-efi",
        "--efi-directory=/boot/efi",
        "--bootloader-id=SwellOS",
        "--recheck",
    ];
    assert(str_views(install@) =~= grub_install_args(root@));
    push_run(
        &mut steps,
        "chroot",
        &install,
        Check::MustSucceed {
            context: owned("failed to run grub-install"),
            failure: owned("grub-install failed"),
        },
    );
    let mkconfig = [root, "grub-mkconfig", "-o", "/boot/grub/grub.cfg"];
    assert(str_views(mkconfig@) =~= grub_mkconfig_args(root@));
    push_run(
        &mut steps,
        "chroot",
        &mkconfig,
        Check::MustSucceed {
            context: owned("failed to run grub-mkconfig"),
            failure: owned("grub-mkconfig failed"),
        },
    );
    push_say(&mut steps, owned("GRUB installed successfully."));
    assert(steps_view(steps@) =~= grub_plan(root@));
    steps
}

/// The checks of the GRUB plan: only `grub-install` (step 9) and
/// `grub-mkconfig` (step 10) can stop it.
proof fn lemma_grub_plan_shape(root: Seq<char>)
    ensures
        grub_plan(root).len() == 12,
        straight_from(grub_plan(root), 0),
        forall|i: int|
            0 <= i < 12 && i != 9 && i != 10 ==> (#[trigger] grub_plan(root)[i]).check
                is Ignore,
        grub_plan(root)[9].check == (CheckView::MustSucceed {
            context: "failed to run grub-install"@,
            failure: "grub-install failed"@,
        }),
        grub_plan(root)[10].check == (CheckView::MustSucceed {
            context: "failed to run grub-mkconfig"@,
            failure: "grub-mkconfig failed"@,
        }),
{
    let p = grub_plan(root);
    let m = system_mount_steps(root);
    assert(m.len() == 8);
    assert forall|i: int| 1 <= i < 9 implies (#[trigger] p[i]).check is Ignore by {
        assert(p[i] == m[i - 1]);
    }
}

/// Installing GRUB ends successfully exactly when `grub-install` and then
/// `grub-mkconfig` both ran and exited successfully, whatever the bind mounts
/// gave; and where `grub-install` could not be started, it ends with "failed
/// to run grub-install: " and the error.
pub proof fn law_grub_needs_both_grub_steps(root: Seq<char>, outs: Seq<OutcomeView>)
    requires
        outs.len() == grub_plan(root).len(),
    ensures
        final_result(progress_after(grub_plan(root), outs)) == Ok::<(), Seq<char>>(()) <==> (
        outs[9] == OutcomeView::Finished(true) && outs[10] == OutcomeView::Finished(true)),
        forall|e: Seq<char>|
            outs[9] == OutcomeView::Failed(e) ==> progress_after(grub_plan(root), outs)
                == Progress::Stopped(
                Err(context_message("failed to run grub-install"@, e)),
            ),
{
    let p = grub_plan(root);
    lemma_grub_plan_shape(root);
    lemma_straight_run(p, 0, outs);
    if outs[9] == OutcomeView::Finished(true) && outs[10] == OutcomeView::Finished(true) {
        assert forall|i: int| 0 <= i < outs.len() implies passes(
            p[0 + i].check,
            #[trigger] outs[i],
        ) by {
            if i != 9 && i != 10 {
                assert(p[i].check is Ignore);
            }
        }
        assert(all_pass(p, 0, outs));
    } else {
        assert(!passes(p[9].check, outs[9]) || !passes(p[10].check, outs[10]));
        assert(!all_pass(p, 0, outs));
        let i = choose|i: int|
            #![trigger outs[i]]
            0 <= i < outs.len() && all_pass(p, 0, outs.subrange(0, i)) && !passes(
                p[0 + i].check,
                outs[i],
            ) && progress_after(p, outs) == settle(p[0 + i].check, outs[i], (0 + i) as nat);
        assert(i == 9 || i == 10);
        if i == 10 && outs[9] is Failed {
            assert(outs.subrange(0, i)[9] == outs[9]);
        }
    }
}

/// The system directories that a chroot under `root` needs: `/dev`,
/// `/proc`, `/sys` and `/run`, in that order.
pub open spec fn system_dir(k: int) -> Seq<char> {
    if k == 0 {
        "dev"@
    } else if k == 1 {
        "proc"@
    } else if k == 2 {
        "sys"@
    } else {
        "run"@
    }
}

/// Before `grub-install` and `grub-mkconfig` run in the chroot, the GRUB plan
/// creates `<root>/<d>` and bind-mounts `/<d>` onto it for each of `dev`,
/// `proc`, `sys` and `run`, in that order (steps `1 + 2k` and `2 + 2k`);
/// `grub-install` and `grub-mkconfig` come at steps 9 and 10.
pub proof fn law_grub_mounts_system_dirs_first(root: Seq<char>)
    ensures
        forall|k: int|
            0 <= k < 4 ==> (#[trigger] grub_plan(root)[1 + 2 * k]).action
                == ActionView::CreateDirAll(root + "/"@ + system_dir(k)),
        forall|k: int|
            0 <= k < 4 ==> (#[trigger] grub_plan(root)[2 + 2 * k]).action == ActionView::Run(
                CommandView {
                    program: "mount"@,
                    args: seq!["--bind"@, "/"@ + system_dir(k), root + "/"@ + system_dir(k)],
                    env: Seq::empty(),
                },
            ),
        grub_plan(root)[9].action == ActionView::Run(
            CommandView {
                program: "chroot"@,
                args: seq![
                    root,
                    "grub-install"@,
                    "--target=x86_64-efi"@,
                    "--efi-directory=/boot/efi"@,
                    "--bootloader-id=SwellOS"@,
                    "--recheck"@,
                ],
                env: Seq::empty(),
            },
        ),
        grub_plan(root)[10].action == ActionView::Run(
            CommandView {
                program: "chroot"@,
                args: seq![root, "grub-mkconfig"@, "-o"@, "/boot/grub/grub.cfg"@],
                env: Seq::empty(),
            },
        ),
{
    law_system_mounts(root);
    let p = grub_plan(root);
    let m = system_mount_steps(root);
    assert forall|i: int| 1 <= i < 9 implies #[trigger] p[i] == m[i - 1] by {}
}

/// The system mounts under `root` create `<root>/<d>` and bind-mount `/<d>`
/// onto it for each of `dev`, `proc`, `sys` and `run`, in that order, and
/// nothing else.
pub proof fn law_system_mounts(root: Seq<char>)
    ensures
        system_mount_steps(root).len() == 8,
        forall|k: int|
            0 <= k < 4 ==> (#[trigger] system_mount_steps(root)[2 * k]).action
                == ActionView::CreateDirAll(root + "/"@ + system_dir(k)),
        forall|k: int|
            0 <= k < 4 ==> (#[trigger] system_mount_steps(root)[2 * k + 1]).action
                == ActionView::Run(
                CommandView {
                    program: "mount"@,
                    args: seq!["--bind"@, "/"@ + system_dir(k), root + "/"@ + system_dir(k)],
                    env: Seq::empty(),
                },
            ),
{
    let m = system_mount_steps(root);
    assert forall|k: int| 0 <= k < 4 implies (#[trigger] m[2 * k]).action
        == ActionView::CreateDirAll(root + "/"@ + system_dir(k)) by {
        if k == 0 {
        } else if k == 1 {
        } else if k == 2 {
        } else {
        }
    }
    assert forall|k: int| 0 <= k < 4 implies (#[trigger] m[2 * k + 1]).action == ActionView::Run(
        CommandView {
            program: "mount"@,
            args: seq!["--bind"@, "/"@ + system_dir(k), root + "/"@ + system_dir(k)],
            env: Seq::empty(),
        },
    ) by {
        if k == 0 {
        } else if k == 1 {
        } else if k == 2 {
        } else {
        }
    }
}

} // verus!
