//! Namespace planner: maps the declared namespace set to kernel clone
//! flags and splits the set into the part entered before the final fork
//! (the PID namespace) and the part entered after it.

use vstd::prelude::*;

verus! {

/// Kernel clone-flag bit for a new mount namespace.
pub const CLONE_NEWNS: u64 = 0x20000;
/// Kernel clone-flag bit for a new cgroup namespace.
pub const CLONE_NEWCGROUP: u64 = 0x2000000;
/// Kernel clone-flag bit for a new UTS namespace.
pub const CLONE_NEWUTS: u64 = 0x4000000;
/// Kernel clone-flag bit for a new IPC namespace.
pub const CLONE_NEWIPC: u64 = 0x8000000;
/// Kernel clone-flag bit for a new user namespace.
pub const CLONE_NEWUSER: u64 = 0x10000000;
/// Kernel clone-flag bit for a new PID namespace.
pub const CLONE_NEWPID: u64 = 0x20000000;
/// Kernel clone-flag bit for a new network namespace.
pub const CLONE_NEWNET: u64 = 0x40000000;

/// The closed set of namespace kinds the runtime understands.  A
/// declared type outside the set is kept as `Unknown` and contributes
/// no flag.
#[derive(Clone, Copy, Debug, PartialEq, Eq, Structural)]
pub enum NsKind {
    Pid,
    Network,
    Mount,
    Ipc,
    Uts,
    User,
    Cgroup,
    Unknown,
}

/// The clone-flag bit a single declared namespace contributes.
pub open spec fn ns_flag_spec(k: NsKind) -> u64 {
    match k {
        NsKind::Pid => CLONE_NEWPID,
        NsKind::Network => CLONE_NEWNET,
        NsKind::Mount => CLONE_NEWNS,
        NsKind::Ipc => CLONE_NEWIPC,
        NsKind::Uts => CLONE_NEWUTS,
        NsKind::User => CLONE_NEWUSER,
        NsKind::Cgroup => CLONE_NEWCGROUP,
        NsKind::Unknown => 0,
    }
}

/// The flag set of a declared namespace list: the bitwise or of the
/// contributions of its members.
pub open spec fn flags_of(s: Seq<NsKind>) -> u64
    decreases s.len(),
{
    if s.len() == 0 {
        0
    } else {
        flags_of(s.drop_last()) | ns_flag_spec(s.last())
    }
}

/// The part of a flag set handed to `unshare` before the final fork:
/// the new-PID bit alone, if declared.
pub open spec fn pid_part(f: u64) -> u64 {
    f & CLONE_NEWPID
}

/// The part of a flag set handed to `unshare` after the final fork:
/// every declared bit but the new-PID one.
pub open spec fn other_part(f: u64) -> u64 {
    f & !CLONE_NEWPID
}

/// The clone-flag bit a single declared namespace contributes.
pub fn ns_flag(k: NsKind) -> (r: u64)
    ensures
        r == ns_flag_spec(k),
{
    match k {
        NsKind::Pid => CLONE_NEWPID,
        NsKind::Network => CLONE_NEWNET,
        NsKind::Mount => CLONE_NEWNS,
        NsKind::Ipc => CLONE_NEWIPC,
        NsKind::Uts => CLONE_NEWUTS,
        NsKind::User => CLONE_NEWUSER,
        NsKind::Cgroup => CLONE_NEWCGROUP,
        NsKind::Unknown => 0,
    }
}

/// Folds the declared namespace list into its flag set.
pub fn clone_flags(ns: &Vec<NsKind>) -> (r: u64)
    ensures
        r == flags_of(ns@),
{
    let mut acc: u64 = 0;
    let mut i: usize = 0;
    while i < ns.len()
        invariant
            i <= ns.len(),
            acc == flags_of(ns@.take(i as int)),
        decreases ns.len() - i,
    {
        proof {
            assert(ns@.take(i + 1 as int).drop_last() =~= ns@.take(i as int));
            assert(ns@.take(i + 1 as int).last() == ns@[i as int]);
        }
        acc = acc | ns_flag(ns[i]);
        i = i + 1;
    }
    proof {
        assert(ns@.take(ns@.len() as int) =~= ns@);
    }
    acc
}

/// The flags for the pre-final-fork `unshare`.
pub fn pid_flags(ns: &Vec<NsKind>) -> (r: u64)
    ensures
        r == pid_part(flags_of(ns@)),
{
    clone_flags(ns) & CLONE_NEWPID
}

/// The flags for the post-final-fork `unshare`.
pub fn other_flags(ns: &Vec<NsKind>) -> (r: u64)
    ensures
        r == other_part(flags_of(ns@)),
{
    clone_flags(ns) & !CLONE_NEWPID
}

/// Namespace-split law: for any flag set, the pre-final-fork `unshare`
/// flags contain only the new-PID bit, the post-final-fork flags
/// contain no PID bit, and together they are exactly the declared set.
pub proof fn lemma_namespace_split(f: u64)
    ensures
        pid_part(f) & !CLONE_NEWPID == 0,
        other_part(f) & CLONE_NEWPID == 0,
        pid_part(f) | other_part(f) == f,
        pid_part(f) == 0 || pid_part(f) == CLONE_NEWPID,
{
    assert((f & 0x20000000u64) & !0x20000000u64 == 0) by (bit_vector);
    assert((f & !0x20000000u64) & 0x20000000u64 == 0) by (bit_vector);
    assert((f & 0x20000000u64) | (f & !0x20000000u64) == f) by (bit_vector);
    assert((f & 0x20000000u64) == 0 || (f & 0x20000000u64) == 0x20000000u64) by (bit_vector);
}

/// An empty declared namespace list yields empty flag sets for both
/// `unshare` calls.
pub proof fn lemma_empty_namespaces()
    ensures
        flags_of(Seq::<NsKind>::empty()) == 0,
        pid_part(0) == 0,
        other_part(0) == 0,
{
    assert(0u64 & 0x20000000u64 == 0) by (bit_vector);
    assert(0u64 & !0x20000000u64 == 0) by (bit_vector);
}

} // verus!
