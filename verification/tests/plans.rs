use hako::config::{LinuxCfg, NsEntry, OciProcess, OciSpec, RootFs, User};
use hako::nsflags::{CLONE_NEWNS, CLONE_NEWPID};
use hako::plan::{caller_plan, init_plan, intermediate_plan, Action};

fn minimal_spec(terminal: bool, ns_types: &[&str]) -> OciSpec {
    OciSpec {
        oci_version: "1.0.2".to_string(),
        root: RootFs { path: "/tmp/rootfs".to_string(), readonly: false },
        process: OciProcess {
            terminal,
            user: User { uid: 0, gid: 0, umask: None, additional_gids: None },
            cwd: "/".to_string(),
            env: None,
            args: vec!["/bin/true".to_string()],
        },
        hostname: None,
        domainname: None,
        mounts: None,
        linux: if ns_types.is_empty() {
            None
        } else {
            Some(LinuxCfg {
                namespaces: ns_types
                    .iter()
                    .map(|t| NsEntry { ns_type: t.to_string() })
                    .collect(),
            })
        },
    }
}

fn index_of(p: &[Action], pred: impl Fn(&Action) -> bool) -> usize {
    p.iter().position(pred).expect("action present")
}

#[test]
fn caller_plan_without_pid_file() {
    let p = caller_plan(&None);
    assert_eq!(p.len(), 5);
    assert!(matches!(p[0], Action::CreateSocketPair { cloexec: true }));
    assert!(matches!(p[1], Action::CreateSocketPair { cloexec: true }));
    assert!(matches!(p[2], Action::ForkChild));
    assert!(matches!(p[3], Action::RecvInitPid));
    assert!(matches!(p[4], Action::RecvReady));
}

#[test]
fn caller_plan_with_pid_file() {
    let p = caller_plan(&Some("/tmp/c1.pid".to_string()));
    assert_eq!(p.len(), 6);
    match &p[5] {
        Action::WritePidFile { path } => assert_eq!(path, "/tmp/c1.pid"),
        other => panic!("unexpected action {:?}", other),
    }
}

#[test]
fn caller_sockets_are_cloexec() {
    for pf in [None, Some("/tmp/x.pid".to_string())] {
        for a in caller_plan(&pf) {
            if let Action::CreateSocketPair { cloexec } = a {
                assert!(cloexec);
            }
        }
    }
}

#[test]
fn intermediate_unshare_is_pid_only() {
    let c = minimal_spec(false, &["pid", "mount", "uts"]);
    let p = intermediate_plan(&c);
    assert_eq!(p.len(), 3);
    match p[0] {
        Action::UnsharePid { flags } => {
            assert_eq!(flags, CLONE_NEWPID);
            assert_eq!(flags & !CLONE_NEWPID, 0);
        },
        ref other => panic!("unexpected action {:?}", other),
    }
    assert!(matches!(p[1], Action::ForkChild));
    assert!(matches!(p[2], Action::SendInitPid));
}

#[test]
fn intermediate_without_pid_namespace() {
    let c = minimal_spec(false, &["mount"]);
    let p = intermediate_plan(&c);
    match p[0] {
        Action::UnsharePid { flags } => assert_eq!(flags, 0),
        ref other => panic!("unexpected action {:?}", other),
    }
}

#[test]
fn init_plan_mount_precedence() {
    let c = minimal_spec(false, &["pid", "mount"]);
    let p = init_plan(&c, &None, "/run/hako", "c1");
    let private = index_of(&p, |a| matches!(a, Action::MountPrivateRoot));
    let bind = index_of(&p, |a| matches!(a, Action::BindRootfs { .. }));
    let pivot = index_of(&p, |a| matches!(a, Action::PivotRootSelf { .. }));
    let proc_m = index_of(&p, |a| matches!(a, Action::MountProc));
    assert!(private < bind);
    assert!(bind < pivot);
    assert!(pivot < proc_m);
}

#[test]
fn init_plan_readiness_order() {
    let c = minimal_spec(false, &["pid", "mount"]);
    let p = init_plan(&c, &None, "/run/hako", "c1");
    let bind = index_of(&p, |a| matches!(a, Action::BindExecSocket { .. }));
    let listen = index_of(&p, |a| matches!(a, Action::ListenExec { .. }));
    let ready = index_of(&p, |a| matches!(a, Action::SendReady { .. }));
    let accept = index_of(&p, |a| matches!(a, Action::AcceptExec));
    assert!(bind < listen);
    assert!(listen < ready);
    assert!(ready < accept);
}

#[test]
fn init_plan_unshare_excludes_pid() {
    let c = minimal_spec(false, &["pid", "mount"]);
    let p = init_plan(&c, &None, "/run/hako", "c1");
    match p[1] {
        Action::UnshareOther { flags } => {
            assert_eq!(flags, CLONE_NEWNS);
            assert_eq!(flags & CLONE_NEWPID, 0);
        },
        ref other => panic!("unexpected action {:?}", other),
    }
}

#[test]
fn init_plan_paths_and_exec() {
    let c = minimal_spec(false, &["pid", "mount"]);
    let p = init_plan(&c, &None, "/run/hako", "container-xyz");
    match &p[4] {
        Action::MakeRuntimeDir { path } => assert_eq!(path, "/run/hako/container-"),
        other => panic!("unexpected action {:?}", other),
    }
    match &p[6] {
        Action::BindExecSocket { path } => assert_eq!(path, "/run/hako/container-/exec.sock"),
        other => panic!("unexpected action {:?}", other),
    }
    match &p[5] {
        Action::CreateExecSocket { cloexec } => assert!(cloexec),
        other => panic!("unexpected action {:?}", other),
    }
    match &p[12] {
        Action::ChangeDir { path } => assert_eq!(path, "/"),
        other => panic!("unexpected action {:?}", other),
    }
    match &p[13] {
        Action::ExecProgram { argv } => assert_eq!(argv, &vec!["/bin/true".to_string()]),
        other => panic!("unexpected action {:?}", other),
    }
}

#[test]
fn init_plan_single_arg_execvp() {
    let c = minimal_spec(false, &[]);
    let p = init_plan(&c, &None, "/run/hako", "c1");
    match p.last().unwrap() {
        Action::ExecProgram { argv } => assert_eq!(argv.len(), 1),
        other => panic!("unexpected action {:?}", other),
    }
}

#[test]
fn init_plan_pty_handoff() {
    let c = minimal_spec(true, &["pid", "mount"]);
    let p = init_plan(&c, &Some("/tmp/console.sock".to_string()), "/run/hako", "c2");
    assert!(matches!(p[0], Action::Setsid));
    assert!(matches!(p[1], Action::OpenPty));
    match &p[2] {
        Action::ConnectConsole { path } => assert_eq!(path, "/tmp/console.sock"),
        other => panic!("unexpected action {:?}", other),
    }
    match &p[3] {
        Action::SendPtyMaster { payload } => assert_eq!(payload, "/dev/ptmx"),
        other => panic!("unexpected action {:?}", other),
    }
    assert!(matches!(p[4], Action::SetControllingTty));
    assert!(matches!(p[5], Action::StdioToPtySlave));
    let setsid = index_of(&p, |a| matches!(a, Action::Setsid));
    let ctty = index_of(&p, |a| matches!(a, Action::SetControllingTty));
    assert!(setsid < ctty);
}

#[test]
fn no_pty_without_terminal() {
    let c = minimal_spec(false, &["pid", "mount"]);
    let p = init_plan(&c, &Some("/tmp/console.sock".to_string()), "/run/hako", "c2");
    assert!(!p.iter().any(|a| matches!(a, Action::OpenPty)));
    assert_eq!(p.len(), 14);
}

#[test]
fn no_pty_without_console_socket() {
    let c = minimal_spec(true, &["pid", "mount"]);
    let p = init_plan(&c, &None, "/run/hako", "c2");
    assert!(!p.iter().any(|a| matches!(a, Action::OpenPty)));
}

#[test]
fn empty_namespaces_give_empty_flag_sets() {
    let c = minimal_spec(false, &[]);
    let mid = intermediate_plan(&c);
    match mid[0] {
        Action::UnsharePid { flags } => assert_eq!(flags, 0),
        ref other => panic!("unexpected action {:?}", other),
    }
    let p = init_plan(&c, &None, "/run/hako", "c1");
    match p[1] {
        Action::UnshareOther { flags } => assert_eq!(flags, 0),
        ref other => panic!("unexpected action {:?}", other),
    }
}

#[test]
fn ready_payload_is_ready() {
    let c = minimal_spec(false, &["pid"]);
    let p = init_plan(&c, &None, "/run/hako", "c1");
    match &p[index_of(&p, |a| matches!(a, Action::SendReady { .. }))] {
        Action::SendReady { payload } => assert_eq!(payload, "ready"),
        other => panic!("unexpected action {:?}", other),
    }
}

#[test]
fn ready_message_check() {
    assert!(hako::plan::is_ready_msg(&"ready".to_string()));
    assert!(!hako::plan::is_ready_msg(&"Ready".to_string()));
    assert!(!hako::plan::is_ready_msg(&"".to_string()));
    assert!(!hako::plan::is_ready_msg(&"ready\n".to_string()));
}
