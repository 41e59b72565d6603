use vstd::prelude::*;

pub mod boot;
pub mod config;
pub mod disk;
pub mod install;
pub mod plan;
pub mod text;
pub mod wizard;

verus! {

/// Where the target system is mounted while it is being installed.
pub fn root_mount() -> (r: &'static str)
    ensures
        r@ == "/mnt/swell"@,
{
    "/mnt/swell"
}

} // verus!
