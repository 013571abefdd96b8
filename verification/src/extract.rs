//! Reading the configuration subset out of a JSON document tree.
//!
//! Each function returns `Some` exactly when the corresponding model
//! extraction does, and then returns exactly the modelled value:
//! required fields must be present with the right shape, optional
//! fields may be absent or `null`, unknown members are ignored, and an
//! empty argument list is rejected.

use vstd::prelude::*;
use crate::config::{
    linux_of, mount_of, mounts_seq, ns_of, ns_seq, num_seq, process_of, root_of, spec_of_json,
    str_seq, user_of, LinuxCfg, MountEntry, NsEntry, OciProcess, OciSpec, RootFs, User,
};
use crate::json::{arr_view, json_view, lookup, Json, JsonV};

verus! {

/// A number-list extraction that failed on a prefix fails on the
/// whole.
proof fn lemma_num_seq_none_up(a: Seq<Json>, i: int)
    requires
        0 <= i <= a.len(),
        num_seq(arr_view(a.take(i))) is None,
    ensures
        num_seq(arr_view(a)) is None,
    decreases a.len() - i,
{
    if i == a.len() {
        assert(a.take(i) =~= a);
    } else {
        lemma_arr_view_take_step(a, i);
        assert(arr_view(a.take(i + 1)).drop_last() =~= arr_view(a.take(i)));
        lemma_num_seq_none_up(a, i + 1);
    }
}

/// A string-list extraction that failed on a prefix fails on the
/// whole.
proof fn lemma_str_seq_none_up(a: Seq<Json>, i: int)
    requires
        0 <= i <= a.len(),
        str_seq(arr_view(a.take(i))) is None,
    ensures
        str_seq(arr_view(a)) is None,
    decreases a.len() - i,
{
    if i == a.len() {
        assert(a.take(i) =~= a);
    } else {
        lemma_arr_view_take_step(a, i);
        assert(arr_view(a.take(i + 1)).drop_last() =~= arr_view(a.take(i)));
        lemma_str_seq_none_up(a, i + 1);
    }
}

/// A mount-list extraction that failed on a prefix fails on the
/// whole.
proof fn lemma_mounts_seq_none_up(a: Seq<Json>, i: int)
    requires
        0 <= i <= a.len(),
        mounts_seq(arr_view(a.take(i))) is None,
    ensures
        mounts_seq(arr_view(a)) is None,
    decreases a.len() - i,
{
    if i == a.len() {
        assert(a.take(i) =~= a);
    } else {
        lemma_arr_view_take_step(a, i);
        assert(arr_view(a.take(i + 1)).drop_last() =~= arr_view(a.take(i)));
        lemma_mounts_seq_none_up(a, i + 1);
    }
}

/// A namespace-list extraction that failed on a prefix fails on the
/// whole.
proof fn lemma_ns_seq_none_up(a: Seq<Json>, i: int)
    requires
        0 <= i <= a.len(),
        ns_seq(arr_view(a.take(i))) is None,
    ensures
        ns_seq(arr_view(a)) is None,
    decreases a.len() - i,
{
    if i == a.len() {
        assert(a.take(i) =~= a);
    } else {
        lemma_arr_view_take_step(a, i);
        assert(arr_view(a.take(i + 1)).drop_last() =~= arr_view(a.take(i)));
        lemma_ns_seq_none_up(a, i + 1);
    }
}

/// The model of one element longer a prefix: the model list grows by
/// the element's model.
proof fn lemma_arr_view_take_step(a: Seq<Json>, i: int)
    requires
        0 <= i < a.len(),
    ensures
        arr_view(a.take(i + 1)) == arr_view(a.take(i)).push(json_view(a[i])),
{
    assert(a.take(i + 1).drop_last() =~= a.take(i));
    assert(a.take(i + 1).last() == a[i]);
}

/// Reads an array of numbers.
pub fn parse_num_list(a: &Vec<Json>) -> (r: Option<Vec<u64>>)
    ensures
        r.deep_view() == num_seq(arr_view(a@)),
{
    let mut out: Vec<u64> = Vec::new();
    let mut i: usize = 0;
    while i < a.len()
        invariant
            i <= a.len(),
            num_seq(arr_view(a@.take(i as int))) == Option::Some(out.deep_view()),
        decreases a.len() - i,
    {
        proof {
            lemma_arr_view_take_step(a@, i as int);
        }
        match &a[i] {
            Json::Num(n) => {
                let ghost dv = out.deep_view();
                out.push(*n);
                proof {
                    assert(out.deep_view() =~= dv.push(*n));
                    let x = arr_view(a@.take(i as int));
                    assert(x.push(JsonV::Num(*n)).drop_last() =~= x);
                    assert(num_seq(x.push(JsonV::Num(*n))) == Option::Some(dv.push(*n)));
                }
            },
            _ => {
                proof {
                    lemma_num_seq_none_up(a@, i + 1 as int);
                }
                return Option::None;
            },
        }
        i = i + 1;
    }
    proof {
        assert(a@.take(a@.len() as int) =~= a@);
    }
    Option::Some(out)
}

/// Reads an array of strings.
pub fn parse_str_list(a: &Vec<Json>) -> (r: Option<Vec<String>>)
    ensures
        r.deep_view() == str_seq(arr_view(a@)),
{
    let mut out: Vec<String> = Vec::new();
    let mut i: usize = 0;
    while i < a.len()
        invariant
            i <= a.len(),
            str_seq(arr_view(a@.take(i as int))) == Option::Some(out.deep_view()),
        decreases a.len() - i,
    {
        proof {
            lemma_arr_view_take_step(a@, i as int);
        }
        match &a[i] {
            Json::Str(s) => {
                let ghost dv = out.deep_view();
                let ghost sv = s@;
                out.push(s.clone());
                proof {
                    assert(out.deep_view() =~= dv.push(sv));
                    let x = arr_view(a@.take(i as int));
                    assert(x.push(JsonV::Str(sv)).drop_last() =~= x);
                    assert(str_seq(x.push(JsonV::Str(sv))) == Option::Some(dv.push(sv)));
                }
            },
            _ => {
                proof {
                    lemma_str_seq_none_up(a@, i + 1 as int);
                }
                return Option::None;
            },
        }
        i = i + 1;
    }
    proof {
        assert(a@.take(a@.len() as int) =~= a@);
    }
    Option::Some(out)
}

/// Reads the `user` object.
pub fn parse_user(j: &Json) -> (r: Option<User>)
    ensures
        r.deep_view() == user_of(json_view(*j)),
{
    let ms = match j {
        Json::Obj(ms) => ms,
        _ => {
            return Option::None;
        },
    };
    let uid: u64 = match lookup(ms, &"uid".to_owned()) {
        Option::Some(Json::Num(n)) => *n,
        _ => {
            return Option::None;
        },
    };
    let gid: u64 = match lookup(ms, &"gid".to_owned()) {
        Option::Some(Json::Num(n)) => *n,
        _ => {
            return Option::None;
        },
    };
    let umask: Option<u64> = match lookup(ms, &"umask".to_owned()) {
        Option::None => Option::None,
        Option::Some(Json::Null) => Option::None,
        Option::Some(Json::Num(n)) => Option::Some(*n),
        _ => {
            return Option::None;
        },
    };
    let additional_gids: Option<Vec<u64>> = match lookup(ms, &"additionalGids".to_owned()) {
        Option::None => Option::None,
        Option::Some(Json::Null) => Option::None,
        Option::Some(Json::Arr(a)) => match parse_num_list(a) {
            Option::Some(gs) => Option::Some(gs),
            Option::None => {
                return Option::None;
            },
        },
        _ => {
            return Option::None;
        },
    };
    Option::Some(User { uid, gid, umask, additional_gids })
}

/// Reads the `root` object.
pub fn parse_root(j: &Json) -> (r: Option<RootFs>)
    ensures
        r.deep_view() == root_of(json_view(*j)),
{
    let ms = match j {
        Json::Obj(ms) => ms,
        _ => {
            return Option::None;
        },
    };
    let path: String = match lookup(ms, &"path".to_owned()) {
        Option::Some(Json::Str(s)) => s.clone(),
        _ => {
            return Option::None;
        },
    };
    let readonly: bool = match lookup(ms, &"readonly".to_owned()) {
        Option::None => false,
        Option::Some(Json::Bool(b)) => *b,
        _ => {
            return Option::None;
        },
    };
    Option::Some(RootFs { path, readonly })
}

/// Reads the `process` object.
pub fn parse_process(j: &Json) -> (r: Option<OciProcess>)
    ensures
        r.deep_view() == process_of(json_view(*j)),
{
    let ms = match j {
        Json::Obj(ms) => ms,
        _ => {
            return Option::None;
        },
    };
    let terminal: bool = match lookup(ms, &"terminal".to_owned()) {
        Option::None => false,
        Option::Some(Json::Bool(b)) => *b,
        _ => {
            return Option::None;
        },
    };
    let user: User = match lookup(ms, &"user".to_owned()) {
        Option::Some(uj) => match parse_user(uj) {
            Option::Some(u) => u,
            Option::None => {
                return Option::None;
            },
        },
        Option::None => {
            return Option::None;
        },
    };
    let cwd: String = match lookup(ms, &"cwd".to_owned()) {
        Option::Some(Json::Str(s)) => s.clone(),
        _ => {
            return Option::None;
        },
    };
    let env: Option<Vec<String>> = match lookup(ms, &"env".to_owned()) {
        Option::None => Option::None,
        Option::Some(Json::Null) => Option::None,
        Option::Some(Json::Arr(ej)) => match parse_str_list(ej) {
            Option::Some(es) => Option::Some(es),
            Option::None => {
                return Option::None;
            },
        },
        _ => {
            return Option::None;
        },
    };
    let args: Vec<String> = match lookup(ms, &"args".to_owned()) {
        Option::Some(Json::Arr(aj)) => match parse_str_list(aj) {
            Option::Some(ss) => ss,
            Option::None => {
                return Option::None;
            },
        },
        _ => {
            return Option::None;
        },
    };
    if args.len() == 0 {
        return Option::None;
    }
    Option::Some(OciProcess { terminal, user, cwd, env, args })
}

/// Reads one mount entry.
pub fn parse_mount(j: &Json) -> (r: Option<MountEntry>)
    ensures
        r.deep_view() == mount_of(json_view(*j)),
{
    let ms = match j {
        Json::Obj(ms) => ms,
        _ => {
            return Option::None;
        },
    };
    let destination: String = match lookup(ms, &"destination".to_owned()) {
        Option::Some(Json::Str(s)) => s.clone(),
        _ => {
            return Option::None;
        },
    };
    let source: Option<String> = match lookup(ms, &"source".to_owned()) {
        Option::None => Option::None,
        Option::Some(Json::Null) => Option::None,
        Option::Some(Json::Str(s)) => Option::Some(s.clone()),
        _ => {
            return Option::None;
        },
    };
    let options: Option<Vec<String>> = match lookup(ms, &"options".to_owned()) {
        Option::None => Option::None,
        Option::Some(Json::Null) => Option::None,
        Option::Some(Json::Arr(a)) => match parse_str_list(a) {
            Option::Some(os) => Option::Some(os),
            Option::None => {
                return Option::None;
            },
        },
        _ => {
            return Option::None;
        },
    };
    Option::Some(MountEntry { destination, source, options })
}

/// Reads an array of mount entries.
pub fn parse_mount_list(a: &Vec<Json>) -> (r: Option<Vec<MountEntry>>)
    ensures
        r.deep_view() == mounts_seq(arr_view(a@)),
{
    let mut out: Vec<MountEntry> = Vec::new();
    let mut i: usize = 0;
    while i < a.len()
        invariant
            i <= a.len(),
            mounts_seq(arr_view(a@.take(i as int))) == Option::Some(out.deep_view()),
        decreases a.len() - i,
    {
        proof {
            lemma_arr_view_take_step(a@, i as int);
        }
        match parse_mount(&a[i]) {
            Option::Some(m) => {
                let ghost dv = out.deep_view();
                let ghost mv = m.deep_view();
                out.push(m);
                proof {
                    assert(out.deep_view() =~= dv.push(mv));
                    let x = arr_view(a@.take(i as int));
                    assert(x.push(json_view(a@[i as int])).drop_last() =~= x);
                    assert(mounts_seq(x.push(json_view(a@[i as int]))) == Option::Some(
                        dv.push(mv),
                    ));
                }
            },
            Option::None => {
                proof {
                    lemma_mounts_seq_none_up(a@, i + 1 as int);
                }
                return Option::None;
            },
        }
        i = i + 1;
    }
    proof {
        assert(a@.take(a@.len() as int) =~= a@);
    }
    Option::Some(out)
}

/// Reads one namespace entry.
pub fn parse_ns(j: &Json) -> (r: Option<NsEntry>)
    ensures
        r.deep_view() == ns_of(json_view(*j)),
{
    let ms = match j {
        Json::Obj(ms) => ms,
        _ => {
            return Option::None;
        },
    };
    let t: String = match lookup(ms, &"type".to_owned()) {
        Option::Some(Json::Str(s)) => s.clone(),
        _ => {
            return Option::None;
        },
    };
    Option::Some(NsEntry { ns_type: t })
}

/// Reads an array of namespace entries.
pub fn parse_ns_list(a: &Vec<Json>) -> (r: Option<Vec<NsEntry>>)
    ensures
        r.deep_view() == ns_seq(arr_view(a@)),
{
    let mut out: Vec<NsEntry> = Vec::new();
    let mut i: usize = 0;
    while i < a.len()
        invariant
            i <= a.len(),
            ns_seq(arr_view(a@.take(i as int))) == Option::Some(out.deep_view()),
        decreases a.len() - i,
    {
        proof {
            lemma_arr_view_take_step(a@, i as int);
        }
        match parse_ns(&a[i]) {
            Option::Some(n) => {
                let ghost dv = out.deep_view();
                let ghost nv = n.deep_view();
                out.push(n);
                proof {
                    assert(out.deep_view() =~= dv.push(nv));
                    let x = arr_view(a@.take(i as int));
                    assert(x.push(json_view(a@[i as int])).drop_last() =~= x);
                    assert(ns_seq(x.push(json_view(a@[i as int]))) == Option::Some(dv.push(nv)));
                }
            },
            Option::None => {
                proof {
                    lemma_ns_seq_none_up(a@, i + 1 as int);
                }
                return Option::None;
            },
        }
        i = i + 1;
    }
    proof {
        assert(a@.take(a@.len() as int) =~= a@);
    }
    Option::Some(out)
}

/// Reads the `linux` object.
pub fn parse_linux(j: &Json) -> (r: Option<LinuxCfg>)
    ensures
        r.deep_view() == linux_of(json_view(*j)),
{
    let ms = match j {
        Json::Obj(ms) => ms,
        _ => {
            return Option::None;
        },
    };
    let namespaces: Vec<NsEntry> = match lookup(ms, &"namespaces".to_owned()) {
        Option::Some(Json::Arr(a)) => match parse_ns_list(a) {
            Option::Some(ns) => ns,
            Option::None => {
                return Option::None;
            },
        },
        _ => {
            return Option::None;
        },
    };
    Option::Some(LinuxCfg { namespaces })
}

/// Reads the whole configuration document out of its JSON tree:
/// succeeds exactly on documents the model extraction accepts, and
/// then returns exactly the modelled configuration.
pub fn parse_config(j: &Json) -> (r: Option<OciSpec>)
    ensures
        r.deep_view() == spec_of_json(json_view(*j)),
{
    let ms = match j {
        Json::Obj(ms) => ms,
        _ => {
            return Option::None;
        },
    };
    let oci_version: String = match lookup(ms, &"ociVersion".to_owned()) {
        Option::Some(Json::Str(s)) => s.clone(),
        _ => {
            return Option::None;
        },
    };
    let root: RootFs = match lookup(ms, &"root".to_owned()) {
        Option::Some(rj) => match parse_root(rj) {
            Option::Some(root) => root,
            Option::None => {
                return Option::None;
            },
        },
        Option::None => {
            return Option::None;
        },
    };
    let process: OciProcess = match lookup(ms, &"process".to_owned()) {
        Option::Some(pj) => match parse_process(pj) {
            Option::Some(p) => p,
            Option::None => {
                return Option::None;
            },
        },
        Option::None => {
            return Option::None;
        },
    };
    let hostname: Option<String> = match lookup(ms, &"hostname".to_owned()) {
        Option::None => Option::None,
        Option::Some(Json::Null) => Option::None,
        Option::Some(Json::Str(s)) => Option::Some(s.clone()),
        _ => {
            return Option::None;
        },
    };
    let domainname: Option<String> = match lookup(ms, &"domainname".to_owned()) {
        Option::None => Option::None,
        Option::Some(Json::Null) => Option::None,
        Option::Some(Json::Str(s)) => Option::Some(s.clone()),
        _ => {
            return Option::None;
        },
    };
    let mounts: Option<Vec<MountEntry>> = match lookup(ms, &"mounts".to_owned()) {
        Option::None => Option::None,
        Option::Some(Json::Null) => Option::None,
        Option::Some(Json::Arr(a)) => match parse_mount_list(a) {
            Option::Some(mv) => Option::Some(mv),
            Option::None => {
                return Option::None;
            },
        },
        _ => {
            return Option::None;
        },
    };
    let linux: Option<LinuxCfg> = match lookup(ms, &"linux".to_owned()) {
        Option::None => Option::None,
        Option::Some(Json::Null) => Option::None,
        Option::Some(lj) => match parse_linux(lj) {
            Option::Some(lv) => Option::Some(lv),
            Option::None => {
                return Option::None;
            },
        },
    };
    Option::Some(OciSpec { oci_version, root, process, hostname, domainname, mounts, linux })
}

} // verus!
