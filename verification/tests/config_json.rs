use hako::config::{
    config_kinds, ns_kind, LinuxCfg, MountEntry, NsEntry, OciProcess, OciSpec, RootFs, User,
};
use hako::emit::emit_config;
use hako::extract::parse_config;
use hako::json::{Json, JsonMember};
use hako::nsflags::{clone_flags, other_flags, NsKind, CLONE_NEWNS};

fn member(key: &str, val: Json) -> JsonMember {
    JsonMember { key: key.to_string(), val }
}

fn str_v(s: &str) -> Json {
    Json::Str(s.to_string())
}

fn minimal_doc() -> Json {
    Json::Obj(vec![
        member("ociVersion", str_v("1.0.2")),
        member("root", Json::Obj(vec![member("path", str_v("/tmp/rootfs"))])),
        member(
            "process",
            Json::Obj(vec![
                member("terminal", Json::Bool(false)),
                member(
                    "user",
                    Json::Obj(vec![member("uid", Json::Num(0)), member("gid", Json::Num(0))]),
                ),
                member("cwd", str_v("/")),
                member("args", Json::Arr(vec![str_v("/bin/true")])),
            ]),
        ),
        member(
            "linux",
            Json::Obj(vec![member(
                "namespaces",
                Json::Arr(vec![
                    Json::Obj(vec![member("type", str_v("pid"))]),
                    Json::Obj(vec![member("type", str_v("mount"))]),
                ]),
            )]),
        ),
    ])
}

#[test]
fn parse_minimal_config() {
    let c = parse_config(&minimal_doc()).expect("valid config accepted");
    assert_eq!(c.oci_version, "1.0.2");
    assert_eq!(c.root.path, "/tmp/rootfs");
    assert!(!c.root.readonly);
    assert!(!c.process.terminal);
    assert_eq!(c.process.user.uid, 0);
    assert_eq!(c.process.user.gid, 0);
    assert_eq!(c.process.cwd, "/");
    assert_eq!(c.process.args, vec!["/bin/true".to_string()]);
    assert!(c.process.env.is_none());
    assert!(c.hostname.is_none());
    assert!(c.mounts.is_none());
    let l = c.linux.as_ref().expect("linux section kept");
    assert_eq!(l.namespaces.len(), 2);
    assert_eq!(l.namespaces[0].ns_type, "pid");
}

#[test]
fn missing_args_rejected() {
    let doc = Json::Obj(vec![
        member("ociVersion", str_v("1.0.2")),
        member("root", Json::Obj(vec![member("path", str_v("/tmp/rootfs"))])),
        member(
            "process",
            Json::Obj(vec![
                member(
                    "user",
                    Json::Obj(vec![member("uid", Json::Num(0)), member("gid", Json::Num(0))]),
                ),
                member("cwd", str_v("/")),
            ]),
        ),
    ]);
    assert!(parse_config(&doc).is_none());
}

#[test]
fn empty_args_rejected() {
    let doc = Json::Obj(vec![
        member("ociVersion", str_v("1.0.2")),
        member("root", Json::Obj(vec![member("path", str_v("/tmp/rootfs"))])),
        member(
            "process",
            Json::Obj(vec![
                member(
                    "user",
                    Json::Obj(vec![member("uid", Json::Num(0)), member("gid", Json::Num(0))]),
                ),
                member("cwd", str_v("/")),
                member("args", Json::Arr(vec![])),
            ]),
        ),
    ]);
    assert!(parse_config(&doc).is_none());
}

#[test]
fn missing_root_rejected() {
    let doc = Json::Obj(vec![member("ociVersion", str_v("1.0.2"))]);
    assert!(parse_config(&doc).is_none());
}

#[test]
fn wrong_uid_type_rejected() {
    let doc = Json::Obj(vec![
        member("ociVersion", str_v("1.0.2")),
        member("root", Json::Obj(vec![member("path", str_v("/tmp/rootfs"))])),
        member(
            "process",
            Json::Obj(vec![
                member(
                    "user",
                    Json::Obj(vec![member("uid", str_v("0")), member("gid", Json::Num(0))]),
                ),
                member("cwd", str_v("/")),
                member("args", Json::Arr(vec![str_v("/bin/true")])),
            ]),
        ),
    ]);
    assert!(parse_config(&doc).is_none());
}

#[test]
fn unknown_members_ignored() {
    let mut doc = match minimal_doc() {
        Json::Obj(ms) => ms,
        _ => unreachable!(),
    };
    doc.push(member("annotations", Json::Obj(vec![member("a", str_v("b"))])));
    doc.push(member("hooks", Json::Null));
    assert!(parse_config(&Json::Obj(doc)).is_some());
}

#[test]
fn null_optionals_mean_absent() {
    let mut doc = match minimal_doc() {
        Json::Obj(ms) => ms,
        _ => unreachable!(),
    };
    doc.push(member("hostname", Json::Null));
    doc.push(member("mounts", Json::Null));
    let c = parse_config(&Json::Obj(doc)).expect("nulls accepted");
    assert!(c.hostname.is_none());
    assert!(c.mounts.is_none());
}

#[test]
fn first_duplicate_key_wins() {
    let mut doc = match minimal_doc() {
        Json::Obj(ms) => ms,
        _ => unreachable!(),
    };
    doc.push(member("ociVersion", str_v("9.9.9")));
    let c = parse_config(&Json::Obj(doc)).expect("parsed");
    assert_eq!(c.oci_version, "1.0.2");
}

#[test]
fn ns_kind_mapping() {
    assert_eq!(ns_kind(&"pid".to_string()), NsKind::Pid);
    assert_eq!(ns_kind(&"network".to_string()), NsKind::Network);
    assert_eq!(ns_kind(&"mount".to_string()), NsKind::Mount);
    assert_eq!(ns_kind(&"ipc".to_string()), NsKind::Ipc);
    assert_eq!(ns_kind(&"uts".to_string()), NsKind::Uts);
    assert_eq!(ns_kind(&"user".to_string()), NsKind::User);
    assert_eq!(ns_kind(&"cgroup".to_string()), NsKind::Cgroup);
    assert_eq!(ns_kind(&"foo".to_string()), NsKind::Unknown);
    assert_eq!(ns_kind(&"PID".to_string()), NsKind::Unknown);
}

#[test]
fn unknown_namespace_type_contributes_nothing() {
    let c = OciSpec {
        oci_version: "1.0.2".to_string(),
        root: RootFs { path: "/tmp/rootfs".to_string(), readonly: false },
        process: OciProcess {
            terminal: false,
            user: User { uid: 0, gid: 0, umask: None, additional_gids: None },
            cwd: "/".to_string(),
            env: None,
            args: vec!["/bin/true".to_string()],
        },
        hostname: None,
        domainname: None,
        mounts: None,
        linux: Some(LinuxCfg {
            namespaces: vec![
                NsEntry { ns_type: "foo".to_string() },
                NsEntry { ns_type: "mount".to_string() },
            ],
        }),
    };
    let kinds = config_kinds(&c);
    assert_eq!(kinds, vec![NsKind::Unknown, NsKind::Mount]);
    assert_eq!(clone_flags(&kinds), CLONE_NEWNS);
    assert_eq!(other_flags(&kinds), CLONE_NEWNS);
}

#[test]
fn config_round_trip_full() {
    let c = OciSpec {
        oci_version: "1.0.2".to_string(),
        root: RootFs { path: "/var/lib/rootfs".to_string(), readonly: true },
        process: OciProcess {
            terminal: true,
            user: User {
                uid: 1000,
                gid: 1000,
                umask: Some(18),
                additional_gids: Some(vec![4, 24, 27]),
            },
            cwd: "/home/user".to_string(),
            env: Some(vec!["PATH=/usr/bin".to_string(), "TERM=xterm".to_string()]),
            args: vec!["/bin/sh".to_string(), "-c".to_string(), "id".to_string()],
        },
        hostname: Some("box".to_string()),
        domainname: Some("local".to_string()),
        mounts: Some(vec![
            MountEntry {
                destination: "/tmp".to_string(),
                source: Some("tmpfs".to_string()),
                options: Some(vec!["nosuid".to_string(), "size=64m".to_string()]),
            },
            MountEntry { destination: "/data".to_string(), source: None, options: None },
        ]),
        linux: Some(LinuxCfg {
            namespaces: vec![
                NsEntry { ns_type: "pid".to_string() },
                NsEntry { ns_type: "mount".to_string() },
                NsEntry { ns_type: "uts".to_string() },
            ],
        }),
    };
    let doc = emit_config(&c);
    let back = parse_config(&doc).expect("rendered config parses");
    assert_eq!(back, c);
}

#[test]
fn config_round_trip_minimal() {
    let c = OciSpec {
        oci_version: "1.0.2".to_string(),
        root: RootFs { path: "/tmp/rootfs".to_string(), readonly: false },
        process: OciProcess {
            terminal: false,
            user: User { uid: 0, gid: 0, umask: None, additional_gids: None },
            cwd: "/".to_string(),
            env: None,
            args: vec!["/bin/true".to_string()],
        },
        hostname: None,
        domainname: None,
        mounts: None,
        linux: None,
    };
    let doc = emit_config(&c);
    let back = parse_config(&doc).expect("rendered config parses");
    assert_eq!(back, c);
}

#[test]
fn null_terminal_rejected() {
    let doc = Json::Obj(vec![
        member("ociVersion", str_v("1.0.2")),
        member("root", Json::Obj(vec![member("path", str_v("/tmp/rootfs"))])),
        member(
            "process",
            Json::Obj(vec![
                member("terminal", Json::Null),
                member(
                    "user",
                    Json::Obj(vec![member("uid", Json::Num(0)), member("gid", Json::Num(0))]),
                ),
                member("cwd", str_v("/")),
                member("args", Json::Arr(vec![str_v("/bin/true")])),
            ]),
        ),
    ]);
    assert!(parse_config(&doc).is_none());
}

#[test]
fn wrong_umask_type_rejected() {
    let mut user = vec![member("uid", Json::Num(0)), member("gid", Json::Num(0))];
    user.push(member("umask", str_v("022")));
    let doc = Json::Obj(vec![
        member("ociVersion", str_v("1.0.2")),
        member("root", Json::Obj(vec![member("path", str_v("/tmp/rootfs"))])),
        member(
            "process",
            Json::Obj(vec![
                member("user", Json::Obj(user)),
                member("cwd", str_v("/")),
                member("args", Json::Arr(vec![str_v("/bin/true")])),
            ]),
        ),
    ]);
    assert!(parse_config(&doc).is_none());
}

#[test]
fn float_in_known_field_rejected() {
    let doc = Json::Obj(vec![
        member("ociVersion", str_v("1.0.2")),
        member("root", Json::Obj(vec![member("path", str_v("/tmp/rootfs"))])),
        member(
            "process",
            Json::Obj(vec![
                member(
                    "user",
                    Json::Obj(vec![member("uid", Json::Other), member("gid", Json::Num(0))]),
                ),
                member("cwd", str_v("/")),
                member("args", Json::Arr(vec![str_v("/bin/true")])),
            ]),
        ),
    ]);
    assert!(parse_config(&doc).is_none());
}

#[test]
fn float_in_unknown_field_ignored() {
    let mut doc = match minimal_doc() {
        Json::Obj(ms) => ms,
        _ => unreachable!(),
    };
    doc.push(member("memorySwappiness", Json::Other));
    assert!(parse_config(&Json::Obj(doc)).is_some());
}
