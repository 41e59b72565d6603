# swell_installer

The decisions of the SwellOS installer, verified with Verus.

The installer partitions a disk, formats and mounts it, builds the system
from source with `sbpm`, configures it and installs GRUB. The library in
`src/` holds everything that is decided along the way, as plans: ordered
steps (run a program, write a file, print a line, ask about a path), each
with what its outcome decides. `plan::PlanRun` walks a plan outcome by
outcome; `install::SelectedBuild` does the same for the build of the
selected packages. The program in `app/` asks the user, performs the
actions the library hands out and reports their outcomes back.

- `text`: white space, trimming, line splitting and field splits
- `plan`: actions, checks, plans and the runner, with its laws
- `disk`: disk and partition listings, partitioning, formatting, mounting
- `config`: host name, passwords, users, time zone, network, fstab
- `install`: core packages and the selected packages
- `boot`: EFI detection and GRUB
- `wizard`: menus and what the installer makes of the answers
