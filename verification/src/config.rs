//! The configuration subset consumed by the container core.
//!
//! The structures mirror the bundle's `config.json` document: a root
//! filesystem, the process to run, optional host and domain names,
//! optional extra mounts, and the declared Linux namespaces.  Unknown
//! namespace types are kept verbatim and contribute nothing to the
//! clone-flag set.

use vstd::prelude::*;
use crate::nsflags::NsKind;
use crate::json::{obj_get, JsonV};

verus! {

/// Model of [`User`].
#[verifier::ext_equal]
pub struct UserV {
    pub uid: u64,
    pub gid: u64,
    pub umask: Option<u64>,
    pub additional_gids: Option<Seq<u64>>,
}

/// Model of [`OciProcess`].
#[verifier::ext_equal]
pub struct ProcessV {
    pub terminal: bool,
    pub user: UserV,
    pub cwd: Seq<char>,
    pub env: Option<Seq<Seq<char>>>,
    pub args: Seq<Seq<char>>,
}

/// Model of [`RootFs`].
#[verifier::ext_equal]
pub struct RootFsV {
    pub path: Seq<char>,
    pub readonly: bool,
}

/// Model of [`MountEntry`].
#[verifier::ext_equal]
pub struct MountEntryV {
    pub destination: Seq<char>,
    pub source: Option<Seq<char>>,
    pub options: Option<Seq<Seq<char>>>,
}

/// Model of [`NsEntry`].
#[verifier::ext_equal]
pub struct NsEntryV {
    pub ns_type: Seq<char>,
}

/// Model of [`LinuxCfg`].
#[verifier::ext_equal]
pub struct LinuxCfgV {
    pub namespaces: Seq<NsEntryV>,
}

/// Model of [`OciSpec`].
#[verifier::ext_equal]
pub struct OciSpecV {
    pub oci_version: Seq<char>,
    pub root: RootFsV,
    pub process: ProcessV,
    pub hostname: Option<Seq<char>>,
    pub domainname: Option<Seq<char>>,
    pub mounts: Option<Seq<MountEntryV>>,
    pub linux: Option<LinuxCfgV>,
}

/// The user identity the container process runs as.
#[derive(Debug, Clone, PartialEq)]
pub struct User {
    pub uid: u64,
    pub gid: u64,
    pub umask: Option<u64>,
    pub additional_gids: Option<Vec<u64>>,
}

impl DeepView for User {
    type V = UserV;

    open spec fn deep_view(&self) -> UserV {
        UserV {
            uid: self.uid,
            gid: self.gid,
            umask: self.umask,
            additional_gids: self.additional_gids.deep_view(),
        }
    }
}

/// The process the container runs: program, arguments, environment,
/// working directory, and whether it wants a terminal.
#[derive(Debug, Clone, PartialEq)]
pub struct OciProcess {
    pub terminal: bool,
    pub user: User,
    pub cwd: String,
    pub env: Option<Vec<String>>,
    pub args: Vec<String>,
}

impl DeepView for OciProcess {
    type V = ProcessV;

    open spec fn deep_view(&self) -> ProcessV {
        ProcessV {
            terminal: self.terminal,
            user: self.user.deep_view(),
            cwd: self.cwd.deep_view(),
            env: self.env.deep_view(),
            args: self.args.deep_view(),
        }
    }
}

/// The container's root filesystem.
#[derive(Debug, Clone, PartialEq)]
pub struct RootFs {
    pub path: String,
    pub readonly: bool,
}

impl DeepView for RootFs {
    type V = RootFsV;

    open spec fn deep_view(&self) -> RootFsV {
        RootFsV { path: self.path.deep_view(), readonly: self.readonly }
    }
}

/// One declared extra mount.
#[derive(Debug, Clone, PartialEq)]
pub struct MountEntry {
    pub destination: String,
    pub source: Option<String>,
    pub options: Option<Vec<String>>,
}

impl DeepView for MountEntry {
    type V = MountEntryV;

    open spec fn deep_view(&self) -> MountEntryV {
        MountEntryV {
            destination: self.destination.deep_view(),
            source: self.source.deep_view(),
            options: self.options.deep_view(),
        }
    }
}

/// One declared namespace, by its wire type string.
#[derive(Debug, Clone, PartialEq)]
pub struct NsEntry {
    pub ns_type: String,
}

impl DeepView for NsEntry {
    type V = NsEntryV;

    open spec fn deep_view(&self) -> NsEntryV {
        NsEntryV { ns_type: self.ns_type.deep_view() }
    }
}

/// The `linux` section: the declared namespace list.
#[derive(Debug, Clone, PartialEq)]
pub struct LinuxCfg {
    pub namespaces: Vec<NsEntry>,
}

impl DeepView for LinuxCfg {
    type V = LinuxCfgV;

    open spec fn deep_view(&self) -> LinuxCfgV {
        LinuxCfgV { namespaces: self.namespaces.deep_view() }
    }
}

/// The configuration subset the core consumes.
#[derive(Debug, Clone, PartialEq)]
pub struct OciSpec {
    pub oci_version: String,
    pub root: RootFs,
    pub process: OciProcess,
    pub hostname: Option<String>,
    pub domainname: Option<String>,
    pub mounts: Option<Vec<MountEntry>>,
    pub linux: Option<LinuxCfg>,
}

impl DeepView for OciSpec {
    type V = OciSpecV;

    open spec fn deep_view(&self) -> OciSpecV {
        OciSpecV {
            oci_version: self.oci_version.deep_view(),
            root: self.root.deep_view(),
            process: self.process.deep_view(),
            hostname: self.hostname.deep_view(),
            domainname: self.domainname.deep_view(),
            mounts: self.mounts.deep_view(),
            linux: self.linux.deep_view(),
        }
    }
}

/// A well-formed configuration: the one structural invariant the core
/// relies on is a non-empty argument vector.
pub open spec fn spec_wf(c: OciSpecV) -> bool {
    c.process.args.len() > 0
}

/// The namespace kind a wire type string names; anything outside the
/// closed set is `Unknown`.
pub open spec fn kind_of(s: Seq<char>) -> NsKind {
    if s == "pid"@ {
        NsKind::Pid
    } else if s == "network"@ {
        NsKind::Network
    } else if s == "mount"@ {
        NsKind::Mount
    } else if s == "ipc"@ {
        NsKind::Ipc
    } else if s == "uts"@ {
        NsKind::Uts
    } else if s == "user"@ {
        NsKind::User
    } else if s == "cgroup"@ {
        NsKind::Cgroup
    } else {
        NsKind::Unknown
    }
}

/// The kinds of the declared namespace list, in declaration order; an
/// absent `linux` section declares none.
pub open spec fn declared_kinds(c: OciSpecV) -> Seq<NsKind> {
    match c.linux {
        Option::None => Seq::empty(),
        Option::Some(l) => Seq::new(l.namespaces.len(), |i: int| kind_of(l.namespaces[i].ns_type)),
    }
}

/// Maps one wire type string to its namespace kind.
pub fn ns_kind(t: &String) -> (r: NsKind)
    ensures
        r == kind_of(t@),
{
    if *t == "pid".to_owned() {
        NsKind::Pid
    } else if *t == "network".to_owned() {
        NsKind::Network
    } else if *t == "mount".to_owned() {
        NsKind::Mount
    } else if *t == "ipc".to_owned() {
        NsKind::Ipc
    } else if *t == "uts".to_owned() {
        NsKind::Uts
    } else if *t == "user".to_owned() {
        NsKind::User
    } else if *t == "cgroup".to_owned() {
        NsKind::Cgroup
    } else {
        NsKind::Unknown
    }
}

/// The declared namespace kinds of a configuration.
pub fn config_kinds(c: &OciSpec) -> (r: Vec<NsKind>)
    ensures
        r@ == declared_kinds(c.deep_view()),
{
    let mut out: Vec<NsKind> = Vec::new();
    match &c.linux {
        Option::None => {
            proof {
                assert(out@ =~= declared_kinds(c.deep_view()));
            }
            out
        },
        Option::Some(l) => {
            let mut i: usize = 0;
            while i < l.namespaces.len()
                invariant
                    i <= l.namespaces.len(),
                    c.linux == Option::Some(*l),
                    out@.len() == i,
                    forall|j: int| 0 <= j < i ==> out@[j] == kind_of(
                        #[trigger] l.namespaces@[j].ns_type@),
                decreases l.namespaces.len() - i,
            {
                let k = ns_kind(&l.namespaces[i].ns_type);
                out.push(k);
                i = i + 1;
            }
            proof {
                assert(out@ =~= declared_kinds(c.deep_view()));
            }
            out
        },
    }
}

/// A required string field: present and a string, or the document is
/// rejected.
pub open spec fn req_str(ms: Seq<(Seq<char>, JsonV)>, k: Seq<char>) -> Option<Seq<char>> {
    match obj_get(ms, k) {
        Option::Some(JsonV::Str(s)) => Option::Some(s),
        _ => Option::None,
    }
}

/// An optional string field: absent or `null` means none; any other
/// non-string value rejects the document.
pub open spec fn opt_str(ms: Seq<(Seq<char>, JsonV)>, k: Seq<char>) -> Option<
    Option<Seq<char>>,
> {
    match obj_get(ms, k) {
        Option::None => Option::Some(Option::None),
        Option::Some(JsonV::Null) => Option::Some(Option::None),
        Option::Some(JsonV::Str(s)) => Option::Some(Option::Some(s)),
        Option::Some(_) => Option::None,
    }
}

/// A required unsigned number field.
pub open spec fn req_num(ms: Seq<(Seq<char>, JsonV)>, k: Seq<char>) -> Option<u64> {
    match obj_get(ms, k) {
        Option::Some(JsonV::Num(n)) => Option::Some(n),
        _ => Option::None,
    }
}

/// An optional unsigned number field.
pub open spec fn opt_num(ms: Seq<(Seq<char>, JsonV)>, k: Seq<char>) -> Option<Option<u64>> {
    match obj_get(ms, k) {
        Option::None => Option::Some(Option::None),
        Option::Some(JsonV::Null) => Option::Some(Option::None),
        Option::Some(JsonV::Num(n)) => Option::Some(Option::Some(n)),
        Option::Some(_) => Option::None,
    }
}

/// A boolean field that defaults to `false` when absent.
pub open spec fn bool_or_false(ms: Seq<(Seq<char>, JsonV)>, k: Seq<char>) -> Option<bool> {
    match obj_get(ms, k) {
        Option::None => Option::Some(false),
        Option::Some(JsonV::Bool(b)) => Option::Some(b),
        _ => Option::None,
    }
}

/// An array of strings, all elements strings or nothing.
pub open spec fn str_seq(a: Seq<JsonV>) -> Option<Seq<Seq<char>>>
    decreases a.len(),
{
    if a.len() == 0 {
        Option::Some(Seq::empty())
    } else {
        match (str_seq(a.drop_last()), a.last()) {
            (Option::Some(ss), JsonV::Str(s)) => Option::Some(ss.push(s)),
            _ => Option::None,
        }
    }
}

/// An array of unsigned numbers, all elements numbers or nothing.
pub open spec fn num_seq(a: Seq<JsonV>) -> Option<Seq<u64>>
    decreases a.len(),
{
    if a.len() == 0 {
        Option::Some(Seq::empty())
    } else {
        match (num_seq(a.drop_last()), a.last()) {
            (Option::Some(ns), JsonV::Num(n)) => Option::Some(ns.push(n)),
            _ => Option::None,
        }
    }
}

/// The `user` object: `uid` and `gid` required, `umask` and
/// `additionalGids` optional.
pub open spec fn user_of(v: JsonV) -> Option<UserV> {
    match v {
        JsonV::Obj(ms) => match (req_num(ms, "uid"@), req_num(ms, "gid"@), opt_num(
            ms,
            "umask"@,
        )) {
            (Option::Some(uid), Option::Some(gid), Option::Some(umask)) => match obj_get(
                ms,
                "additionalGids"@,
            ) {
                Option::None => Option::Some(
                    UserV { uid, gid, umask, additional_gids: Option::None },
                ),
                Option::Some(JsonV::Null) => Option::Some(
                    UserV { uid, gid, umask, additional_gids: Option::None },
                ),
                Option::Some(JsonV::Arr(a)) => match num_seq(a) {
                    Option::Some(gs) => Option::Some(
                        UserV { uid, gid, umask, additional_gids: Option::Some(gs) },
                    ),
                    Option::None => Option::None,
                },
                Option::Some(_) => Option::None,
            },
            _ => Option::None,
        },
        _ => Option::None,
    }
}

/// The `process` object: `user`, `cwd` and a non-empty `args` list
/// required, `terminal` defaulting to false, `env` optional.
pub open spec fn process_of(v: JsonV) -> Option<ProcessV> {
    match v {
        JsonV::Obj(ms) => match (bool_or_false(ms, "terminal"@), obj_get(ms, "user"@), req_str(
            ms,
            "cwd"@,
        )) {
            (Option::Some(terminal), Option::Some(uv), Option::Some(cwd)) => match (
                user_of(uv),
                obj_get(ms, "env"@),
                obj_get(ms, "args"@),
            ) {
                (Option::Some(user), env_j, Option::Some(JsonV::Arr(aj))) => {
                    let env = match env_j {
                        Option::None => Option::Some(Option::None),
                        Option::Some(JsonV::Null) => Option::Some(Option::None),
                        Option::Some(JsonV::Arr(ej)) => match str_seq(ej) {
                            Option::Some(es) => Option::Some(Option::Some(es)),
                            Option::None => Option::None,
                        },
                        Option::Some(_) => Option::None,
                    };
                    match (env, str_seq(aj)) {
                        (Option::Some(env), Option::Some(args)) => if args.len() > 0 {
                            Option::Some(ProcessV { terminal, user, cwd, env, args })
                        } else {
                            Option::None
                        },
                        _ => Option::None,
                    }
                },
                _ => Option::None,
            },
            _ => Option::None,
        },
        _ => Option::None,
    }
}

/// The `root` object: `path` required, `readonly` defaulting to
/// false.
pub open spec fn root_of(v: JsonV) -> Option<RootFsV> {
    match v {
        JsonV::Obj(ms) => match (req_str(ms, "path"@), bool_or_false(ms, "readonly"@)) {
            (Option::Some(path), Option::Some(readonly)) => Option::Some(
                RootFsV { path, readonly },
            ),
            _ => Option::None,
        },
        _ => Option::None,
    }
}

/// One mount entry: `destination` required, `source` and `options`
/// optional.
pub open spec fn mount_of(v: JsonV) -> Option<MountEntryV> {
    match v {
        JsonV::Obj(ms) => match (req_str(ms, "destination"@), opt_str(ms, "source"@)) {
            (Option::Some(destination), Option::Some(source)) => match obj_get(ms, "options"@) {
                Option::None => Option::Some(
                    MountEntryV { destination, source, options: Option::None },
                ),
                Option::Some(JsonV::Null) => Option::Some(
                    MountEntryV { destination, source, options: Option::None },
                ),
                Option::Some(JsonV::Arr(a)) => match str_seq(a) {
                    Option::Some(os) => Option::Some(
                        MountEntryV { destination, source, options: Option::Some(os) },
                    ),
                    Option::None => Option::None,
                },
                Option::Some(_) => Option::None,
            },
            _ => Option::None,
        },
        _ => Option::None,
    }
}

/// An array of mount entries.
pub open spec fn mounts_seq(a: Seq<JsonV>) -> Option<Seq<MountEntryV>>
    decreases a.len(),
{
    if a.len() == 0 {
        Option::Some(Seq::empty())
    } else {
        match (mounts_seq(a.drop_last()), mount_of(a.last())) {
            (Option::Some(ms), Option::Some(m)) => Option::Some(ms.push(m)),
            _ => Option::None,
        }
    }
}

/// One namespace entry: its `type` string.
pub open spec fn ns_of(v: JsonV) -> Option<NsEntryV> {
    match v {
        JsonV::Obj(ms) => match req_str(ms, "type"@) {
            Option::Some(t) => Option::Some(NsEntryV { ns_type: t }),
            Option::None => Option::None,
        },
        _ => Option::None,
    }
}

/// An array of namespace entries.
pub open spec fn ns_seq(a: Seq<JsonV>) -> Option<Seq<NsEntryV>>
    decreases a.len(),
{
    if a.len() == 0 {
        Option::Some(Seq::empty())
    } else {
        match (ns_seq(a.drop_last()), ns_of(a.last())) {
            (Option::Some(ns), Option::Some(n)) => Option::Some(ns.push(n)),
            _ => Option::None,
        }
    }
}

/// The `linux` object: its `namespaces` list.
pub open spec fn linux_of(v: JsonV) -> Option<LinuxCfgV> {
    match v {
        JsonV::Obj(ms) => match obj_get(ms, "namespaces"@) {
            Option::Some(JsonV::Arr(a)) => match ns_seq(a) {
                Option::Some(ns) => Option::Some(LinuxCfgV { namespaces: ns }),
                Option::None => Option::None,
            },
            _ => Option::None,
        },
        _ => Option::None,
    }
}

/// The whole configuration document.  `Some` exactly when the
/// document holds the required fields with the right shapes and a
/// non-empty argument list; unknown members are ignored.
pub open spec fn spec_of_json(v: JsonV) -> Option<OciSpecV> {
    match v {
        JsonV::Obj(ms) => match (req_str(ms, "ociVersion"@), obj_get(ms, "root"@), obj_get(
            ms,
            "process"@,
        )) {
            (Option::Some(oci_version), Option::Some(rj), Option::Some(pj)) => match (
                root_of(rj),
                process_of(pj),
                opt_str(ms, "hostname"@),
                opt_str(ms, "domainname"@),
            ) {
                (
                    Option::Some(root),
                    Option::Some(process),
                    Option::Some(hostname),
                    Option::Some(domainname),
                ) => {
                    let mounts = match obj_get(ms, "mounts"@) {
                        Option::None => Option::Some(Option::None),
                        Option::Some(JsonV::Null) => Option::Some(Option::None),
                        Option::Some(JsonV::Arr(a)) => match mounts_seq(a) {
                            Option::Some(mv) => Option::Some(Option::Some(mv)),
                            Option::None => Option::None,
                        },
                        Option::Some(_) => Option::None,
                    };
                    let linux = match obj_get(ms, "linux"@) {
                        Option::None => Option::Some(Option::None),
                        Option::Some(JsonV::Null) => Option::Some(Option::None),
                        Option::Some(lj) => match linux_of(lj) {
                            Option::Some(lv) => Option::Some(Option::Some(lv)),
                            Option::None => Option::None,
                        },
                    };
                    match (mounts, linux) {
                        (Option::Some(mounts), Option::Some(linux)) => Option::Some(
                            OciSpecV {
                                oci_version,
                                root,
                                process,
                                hostname,
                                domainname,
                                mounts,
                                linux,
                            },
                        ),
                        _ => Option::None,
                    }
                },
                _ => Option::None,
            },
            _ => Option::None,
        },
        _ => Option::None,
    }
}

} // verus!
