//! Bring-up plans for the three processes of `create`.
//!
//! Container bring-up runs as three processes: the caller, an
//! intermediate process whose only role is to host the PID-namespace
//! switch, and the init process that becomes PID 1 of the container.
//! Each process follows a fixed sequence of steps; the sequences are
//! produced here as action plans, and the ordering laws of bring-up
//! (namespace split, mount precedence, readiness causality, descriptor
//! hygiene) are proved of the plans.  The surrounding binary executes
//! one action after the other and stops with a failure exit on the
//! first action that fails.
//!
//! A `ForkChild` action splits control: the actions after it belong to
//! the process that keeps running (the parent); the new child switches
//! to the next plan.

use vstd::prelude::*;
use crate::config::{declared_kinds, OciSpec, OciSpecV};
use crate::nsflags::{flags_of, other_part, pid_part, other_flags, pid_flags, CLONE_NEWPID};
use crate::paths::{container_dir, exec_sock_path, prefix10};

verus! {

/// One bring-up step, to be performed by the surrounding binary.
#[derive(Debug, Clone, PartialEq)]
pub enum Action {
    /// Create a `SOCK_SEQPACKET` Unix socketpair.
    CreateSocketPair { cloexec: bool },
    /// Fork; the parent continues with the rest of the plan.
    ForkChild,
    /// Receive the init PID datagram from the intermediate process.
    RecvInitPid,
    /// Receive the readiness datagram from the init process.
    RecvReady,
    /// Write the received PID, in decimal, to the pid file.
    WritePidFile { path: String },
    /// Enter the new PID namespace, before the final fork.
    UnsharePid { flags: u64 },
    /// Send the init PID, in decimal, to the caller.
    SendInitPid,
    /// Start a new session.
    Setsid,
    /// Allocate the PTY master/slave pair.
    OpenPty,
    /// Connect a stream socket to the console socket path.
    ConnectConsole { path: String },
    /// Send the given payload with the PTY master descriptor attached.
    SendPtyMaster { payload: String },
    /// Make the PTY slave the controlling terminal.
    SetControllingTty,
    /// Duplicate the PTY slave over stdin, stdout and stderr.
    StdioToPtySlave,
    /// Enter the remaining namespaces, after the final fork.
    UnshareOther { flags: u64 },
    /// Remount `/` private and recursive.
    MountPrivateRoot,
    /// Bind-mount the root filesystem onto itself.
    BindRootfs { path: String },
    /// Create the per-container directory under the runtime root.
    MakeRuntimeDir { path: String },
    /// Create the exec-rendezvous `SOCK_SEQPACKET` socket.
    CreateExecSocket { cloexec: bool },
    /// Bind the exec-rendezvous socket to its path.
    BindExecSocket { path: String },
    /// Listen on the exec-rendezvous socket.
    ListenExec { backlog: u64 },
    /// Pivot into the root filesystem, stacking the old root on it.
    PivotRootSelf { path: String },
    /// Mount a fresh procfs at `/proc`.
    MountProc,
    /// Send the readiness payload to the caller.
    SendReady { payload: String },
    /// Block until a `start` invocation connects.
    AcceptExec,
    /// Change into the configured working directory.
    ChangeDir { path: String },
    /// Replace the process image with the configured program.
    ExecProgram { argv: Vec<String> },
}

/// True when the PTY broker runs: the process wants a terminal and a
/// console socket path was given.
pub open spec fn pty_active(c: OciSpecV, console: Option<Seq<char>>) -> bool {
    c.process.terminal && console is Some
}

/// The caller's plan: two close-on-exec socketpairs, the fork towards
/// the intermediate process, the two handshakes in order (init PID
/// first, readiness second), and the pid-file write if one was asked
/// for.
pub open spec fn caller_plan_ok(p: Seq<Action>, pid_file: Option<Seq<char>>) -> bool {
    &&& p.len() == if pid_file is Some {
        6int
    } else {
        5int
    }
    &&& p[0] matches Action::CreateSocketPair { cloexec } && cloexec
    &&& p[1] matches Action::CreateSocketPair { cloexec } && cloexec
    &&& p[2] is ForkChild
    &&& p[3] is RecvInitPid
    &&& p[4] is RecvReady
    &&& pid_file matches Some(pf) ==> p[5] matches Action::WritePidFile { path } && path@ == pf
}

/// The intermediate process's plan: enter the new PID namespace (only
/// that one), fork init, and report init's PID to the caller.
pub open spec fn intermediate_plan_ok(p: Seq<Action>, c: OciSpecV) -> bool {
    &&& p.len() == 3
    &&& p[0] matches Action::UnsharePid { flags } && flags == pid_part(flags_of(declared_kinds(c)))
    &&& p[1] is ForkChild
    &&& p[2] is SendInitPid
}

/// The init process's plan: session setup, the PTY handoff when
/// active, the non-PID namespaces, then the mount choreography with
/// the exec rendezvous bound and listening strictly before readiness
/// is reported, and the exec gate strictly after.
pub open spec fn init_plan_ok(
    p: Seq<Action>,
    c: OciSpecV,
    console: Option<Seq<char>>,
    runtime_root: Seq<char>,
    id: Seq<char>,
) -> bool {
    let b: int = if pty_active(c, console) {
        6int
    } else {
        1int
    };
    &&& p.len() == b + 13
    &&& p[0] is Setsid
    &&& pty_active(c, console) ==> {
        &&& p[1] is OpenPty
        &&& p[2] matches Action::ConnectConsole { path } && console matches Some(cs) && path@ == cs
        &&& p[3] matches Action::SendPtyMaster { payload } && payload@ == "/dev/ptmx"@
        &&& p[4] is SetControllingTty
        &&& p[5] is StdioToPtySlave
    }
    &&& p[b] matches Action::UnshareOther { flags } && flags == other_part(
        flags_of(declared_kinds(c)),
    )
    &&& p[b + 1] is MountPrivateRoot
    &&& p[b + 2] matches Action::BindRootfs { path } && path@ == c.root.path
    &&& p[b + 3] matches Action::MakeRuntimeDir { path } && path@ == runtime_root + "/"@
        + prefix10(id)
    &&& p[b + 4] matches Action::CreateExecSocket { cloexec } && cloexec
    &&& p[b + 5] matches Action::BindExecSocket { path } && path@ == runtime_root + "/"@ + prefix10(
        id,
    ) + "/exec.sock"@
    &&& p[b + 6] matches Action::ListenExec { backlog } && backlog == 1
    &&& p[b + 7] matches Action::PivotRootSelf { path } && path@ == c.root.path
    &&& p[b + 8] is MountProc
    &&& p[b + 9] matches Action::SendReady { payload } && payload@ == "ready"@
    &&& p[b + 10] is AcceptExec
    &&& p[b + 11] matches Action::ChangeDir { path } && path@ == c.process.cwd
    &&& p[b + 12] matches Action::ExecProgram { argv } && argv.deep_view() == c.process.args
}

/// Builds the caller's plan.
pub fn caller_plan(pid_file: &Option<String>) -> (r: Vec<Action>)
    ensures
        caller_plan_ok(r@, pid_file.deep_view()),
{
    let mut p: Vec<Action> = Vec::new();
    p.push(Action::CreateSocketPair { cloexec: true });
    p.push(Action::CreateSocketPair { cloexec: true });
    p.push(Action::ForkChild);
    p.push(Action::RecvInitPid);
    p.push(Action::RecvReady);
    match pid_file {
        Option::Some(pf) => {
            p.push(Action::WritePidFile { path: pf.clone() });
        },
        Option::None => {},
    }
    p
}

/// Builds the intermediate process's plan.
pub fn intermediate_plan(c: &OciSpec) -> (r: Vec<Action>)
    ensures
        intermediate_plan_ok(r@, c.deep_view()),
{
    let kinds = crate::config::config_kinds(c);
    let flags = pid_flags(&kinds);
    let mut p: Vec<Action> = Vec::new();
    p.push(Action::UnsharePid { flags });
    p.push(Action::ForkChild);
    p.push(Action::SendInitPid);
    p
}

/// Builds the init process's plan.
pub fn init_plan(
    c: &OciSpec,
    console: &Option<String>,
    runtime_root: &str,
    container_id: &str,
) -> (r: Vec<Action>)
    ensures
        init_plan_ok(r@, c.deep_view(), console.deep_view(), runtime_root@, container_id@),
{
    let kinds = crate::config::config_kinds(c);
    let flags = other_flags(&kinds);
    let mut p: Vec<Action> = Vec::new();
    p.push(Action::Setsid);
    match console {
        Option::Some(cs) if c.process.terminal => {
            p.push(Action::OpenPty);
            p.push(Action::ConnectConsole { path: cs.clone() });
            p.push(Action::SendPtyMaster { payload: "/dev/ptmx".to_owned() });
            p.push(Action::SetControllingTty);
            p.push(Action::StdioToPtySlave);
        },
        _ => {},
    }
    p.push(Action::UnshareOther { flags });
    p.push(Action::MountPrivateRoot);
    p.push(Action::BindRootfs { path: c.root.path.clone() });
    p.push(Action::MakeRuntimeDir { path: container_dir(runtime_root, container_id) });
    p.push(Action::CreateExecSocket { cloexec: true });
    p.push(Action::BindExecSocket { path: exec_sock_path(runtime_root, container_id) });
    p.push(Action::ListenExec { backlog: 1 });
    p.push(Action::PivotRootSelf { path: c.root.path.clone() });
    p.push(Action::MountProc);
    p.push(Action::SendReady { payload: "ready".to_owned() });
    p.push(Action::AcceptExec);
    p.push(Action::ChangeDir { path: c.process.cwd.clone() });
    p.push(Action::ExecProgram { argv: c.process.args.clone() });
    proof {
        assert(c.process.args.deep_view() =~= c.process.args.deep_view());
    }
    p
}

/// The check the caller applies to the second handshake datagram: it
/// must be exactly the readiness payload.
pub fn is_ready_msg(msg: &String) -> (r: bool)
    ensures
        r == (msg@ == "ready"@),
{
    *msg == "ready".to_owned()
}

/// Namespace-split law: in the intermediate plan every `unshare`
/// carries at most the new-PID bit, and in the init plan every
/// `unshare` carries no PID bit.
pub proof fn lemma_plan_namespace_split(
    p_mid: Seq<Action>,
    p_init: Seq<Action>,
    c: OciSpecV,
    console: Option<Seq<char>>,
    runtime_root: Seq<char>,
    id: Seq<char>,
)
    requires
        intermediate_plan_ok(p_mid, c),
        init_plan_ok(p_init, c, console, runtime_root, id),
    ensures
        forall|k: int|
            0 <= k < p_mid.len() ==> ((#[trigger] p_mid[k]) matches Action::UnsharePid { flags }
                ==> flags & !CLONE_NEWPID == 0),
        forall|k: int|
            0 <= k < p_init.len() ==> ((#[trigger] p_init[k]) matches Action::UnshareOther { flags }
                ==> flags & CLONE_NEWPID == 0),
        forall|k: int|
            0 <= k < p_init.len() ==> !((#[trigger] p_init[k]) matches Action::UnsharePid { .. }),
{
    let f = flags_of(declared_kinds(c));
    crate::nsflags::lemma_namespace_split(f);
}

/// Mount-precedence law: in the init plan the private remount of `/`
/// comes before every other mount call, the rootfs self-bind before
/// the pivot, and the procfs mount after the pivot.
pub proof fn lemma_plan_mount_precedence(
    p: Seq<Action>,
    c: OciSpecV,
    console: Option<Seq<char>>,
    runtime_root: Seq<char>,
    id: Seq<char>,
)
    requires
        init_plan_ok(p, c, console, runtime_root, id),
    ensures
        forall|i: int, j: int|
            0 <= i < p.len() && 0 <= j < p.len() && (#[trigger] p[i]) is MountPrivateRoot && ((
            #[trigger] p[j]) matches Action::BindRootfs { .. } || p[j] is MountProc || p[j] matches
                Action::PivotRootSelf { .. }) ==> i < j,
        forall|i: int, j: int|
            0 <= i < p.len() && 0 <= j < p.len() && ((#[trigger] p[i]) matches Action::BindRootfs { .. }) && ((#[trigger] p[j]) matches Action::PivotRootSelf { .. }) ==> i < j,
        forall|i: int, j: int|
            0 <= i < p.len() && 0 <= j < p.len() && ((#[trigger] p[i]) matches Action::PivotRootSelf { .. }) && (#[trigger] p[j]) is MountProc ==> i < j,
{
}

/// Readiness-causality law: in the init plan the exec socket is bound
/// and listening strictly before the readiness message is sent, and
/// the exec gate is passed strictly after; in the caller's plan the
/// readiness message is received before the pid file is written.  A
/// `start` invocation therefore runs only after the socket listens.
pub proof fn lemma_plan_readiness_causality(
    p: Seq<Action>,
    q: Seq<Action>,
    c: OciSpecV,
    console: Option<Seq<char>>,
    pid_file: Option<Seq<char>>,
    runtime_root: Seq<char>,
    id: Seq<char>,
)
    requires
        init_plan_ok(p, c, console, runtime_root, id),
        caller_plan_ok(q, pid_file),
    ensures
        forall|i: int, j: int|
            0 <= i < p.len() && 0 <= j < p.len() && ((#[trigger] p[i]) matches
                Action::BindExecSocket { .. } || p[i] matches Action::ListenExec { .. }) && ((
            #[trigger] p[j]) matches Action::SendReady { .. }) ==> i < j,
        forall|i: int, j: int|
            0 <= i < p.len() && 0 <= j < p.len() && ((#[trigger] p[i]) matches Action::SendReady { .. }) && (#[trigger] p[j]) is AcceptExec ==> i < j,
        forall|i: int, j: int|
            0 <= i < q.len() && 0 <= j < q.len() && (#[trigger] q[i]) is RecvReady && ((
            #[trigger] q[j]) matches Action::WritePidFile { .. }) ==> i < j,
{
}

/// Descriptor-hygiene law: every runtime-internal socket the plans
/// create carries close-on-exec, so none survives `execvp` into the
/// user program.
pub proof fn lemma_plan_fd_hygiene(
    p: Seq<Action>,
    q: Seq<Action>,
    c: OciSpecV,
    console: Option<Seq<char>>,
    pid_file: Option<Seq<char>>,
    runtime_root: Seq<char>,
    id: Seq<char>,
)
    requires
        init_plan_ok(p, c, console, runtime_root, id),
        caller_plan_ok(q, pid_file),
    ensures
        forall|k: int|
            0 <= k < q.len() ==> ((#[trigger] q[k]) matches Action::CreateSocketPair { cloexec }
                ==> cloexec),
        forall|k: int|
            0 <= k < p.len() ==> ((#[trigger] p[k]) matches Action::CreateExecSocket { cloexec }
                ==> cloexec),
{
}

/// Ten-character law: the only directory the init plan creates lies
/// under the runtime root and is named by the first ten Unicode
/// scalars of the container id.
pub proof fn lemma_plan_runtime_dir_name(
    p: Seq<Action>,
    c: OciSpecV,
    console: Option<Seq<char>>,
    runtime_root: Seq<char>,
    id: Seq<char>,
)
    requires
        init_plan_ok(p, c, console, runtime_root, id),
    ensures
        forall|k: int|
            0 <= k < p.len() ==> ((#[trigger] p[k]) matches Action::MakeRuntimeDir { path }
                ==> path@ == runtime_root + "/"@ + prefix10(id)),
{
}

} // verus!
