use vstd::prelude::*;
use crate::text::{contains, find, lines_of, split_lines, views};

verus! {

/// The conditions that must hold before any recovery work starts, in the
/// order in which they are checked.
#[derive(Clone, Copy, Debug, PartialEq, Eq, Structural)]
pub enum Precondition {
    /// The process runs with elevated privilege.
    Privileged,
    /// The device path exists.
    DeviceExists,
    /// The device is not currently mounted.
    Unmounted,
    /// The output path exists and is a directory.
    OutputIsDirectory,
}

/// The observed state of the environment that the preconditions speak of.
#[derive(Clone, Copy, Debug, PartialEq, Eq, Structural)]
pub struct Environment {
    pub privileged: bool,
    pub device_exists: bool,
    pub output_is_dir: bool,
    pub mounted: bool,
}

/// The first precondition that the environment violates, in checking order.
pub open spec fn first_violation(env: Environment) -> Option<Precondition> {
    if !env.privileged {
        Some(Precondition::Privileged)
    } else if !env.device_exists {
        Some(Precondition::DeviceExists)
    } else if env.mounted {
        Some(Precondition::Unmounted)
    } else if !env.output_is_dir {
        Some(Precondition::OutputIsDirectory)
    } else {
        None
    }
}

/// Checks the preconditions in a fixed order and reports the first that
/// fails, or `None` when recovery may proceed.
pub fn check_preconditions(env: &Environment) -> (r: Option<Precondition>)
    ensures
        r == first_violation(*env),
{
    if !env.privileged {
        Some(Precondition::Privileged)
    } else if !env.device_exists {
        Some(Precondition::DeviceExists)
    } else if env.mounted {
        Some(Precondition::Unmounted)
    } else if !env.output_is_dir {
        Some(Precondition::OutputIsDirectory)
    } else {
        None
    }
}

/// Some line of the mount table mentions the device.
pub open spec fn listed_in(table: Seq<char>, device: Seq<char>) -> bool {
    exists|i: int| 0 <= i < split_lines(table).len() && contains(#[trigger] split_lines(table)[i], device)
}

/// Tells whether a line of the mount table mentions `device`.
pub fn is_mounted(mount_table: &[char], device: &[char]) -> (r: bool)
    ensures
        r == listed_in(mount_table@, device@),
{
    let lines = lines_of(mount_table);
    let ghost ls = split_lines(mount_table@);
    let mut k: usize = 0;
    while k < lines.len()
        invariant
            views(lines@) == ls,
            ls == split_lines(mount_table@),
            k <= lines@.len(),
            forall|j: int| 0 <= j < k ==> !contains(#[trigger] ls[j], device@),
        decreases lines@.len() - k,
    {
        assert(ls.len() == lines@.len());
        assert(lines@[k as int]@ == ls[k as int]);
        let line = lines[k].as_slice();
        let found = find(line, device);
        if found.is_some() {
            assert(contains(line@, device@));
            assert(contains(split_lines(mount_table@)[k as int], device@));
            return true;
        }
        k = k + 1;
    }
    false
}

/// A mounted device is reported as such whatever the state of the output
/// directory: once privilege and the device's existence are confirmed, the
/// mount check is the one that fails.
pub proof fn lemma_mounted_reported_first(env: Environment)
    requires
        env.privileged,
        env.device_exists,
        env.mounted,
    ensures
        first_violation(env) == Some(Precondition::Unmounted),
{
}

/// Exactly one precondition is reported for an environment that violates
/// any, and it is one that the environment violates.
pub proof fn lemma_reported_is_violated(env: Environment)
    ensures
        first_violation(env) is None <==> (env.privileged && env.device_exists && !env.mounted
            && env.output_is_dir),
        first_violation(env) == Some(Precondition::Privileged) ==> !env.privileged,
        first_violation(env) == Some(Precondition::DeviceExists) ==> !env.device_exists,
        first_violation(env) == Some(Precondition::Unmounted) ==> env.mounted,
        first_violation(env) == Some(Precondition::OutputIsDirectory) ==> !env.output_is_dir,
{
}

} // verus!
