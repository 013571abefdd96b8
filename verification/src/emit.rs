//! Building the JSON document tree of a configuration: the executable
//! side of rendering, pinned to the rendering model.

use vstd::prelude::*;
use crate::config::{LinuxCfg, MountEntry, NsEntry, OciProcess, OciSpec, RootFs, User};
use crate::json::{
    arr_view, json_view, lemma_arr_view_index, lemma_members_view_index, members_view, Json,
    JsonMember, JsonV,
};
use crate::render::{
    render_config, render_linux, render_mount, render_mounts, render_ns, render_nss, render_nums,
    render_opt_linux, render_opt_num, render_opt_str, render_process, render_root, render_strs,
    render_user,
};

verus! {

/// A string list as a JSON array value list.
fn emit_strs(ss: &Vec<String>) -> (r: Vec<Json>)
    ensures
        arr_view(r@) == render_strs(ss.deep_view()),
{
    let mut out: Vec<Json> = Vec::new();
    let mut i: usize = 0;
    while i < ss.len()
        invariant
            i <= ss.len(),
            arr_view(out@) =~~= render_strs(ss.deep_view().take(i as int)),
        decreases ss.len() - i,
    {
        let ghost prev = out@;
        out.push(Json::Str(ss[i].clone()));
        proof {
            assert(out@.drop_last() =~~= prev);
            lemma_arr_view_index(prev);
            lemma_arr_view_index(out@);
            assert(arr_view(out@) =~~= render_strs(ss.deep_view().take(i + 1 as int)));
        }
        i = i + 1;
    }
    proof {
        assert(ss.deep_view().take(ss@.len() as int) =~~= ss.deep_view());
    }
    out
}

/// A number list as a JSON array value list.
fn emit_nums(ns: &Vec<u64>) -> (r: Vec<Json>)
    ensures
        arr_view(r@) == render_nums(ns.deep_view()),
{
    let mut out: Vec<Json> = Vec::new();
    let mut i: usize = 0;
    while i < ns.len()
        invariant
            i <= ns.len(),
            arr_view(out@) =~~= render_nums(ns.deep_view().take(i as int)),
        decreases ns.len() - i,
    {
        let ghost prev = out@;
        out.push(Json::Num(ns[i]));
        proof {
            assert(out@.drop_last() =~~= prev);
            lemma_arr_view_index(prev);
            lemma_arr_view_index(out@);
            assert(arr_view(out@) =~~= render_nums(ns.deep_view().take(i + 1 as int)));
        }
        i = i + 1;
    }
    proof {
        assert(ns.deep_view().take(ns@.len() as int) =~~= ns.deep_view());
    }
    out
}

/// The `user` object.
fn emit_user(u: &User) -> (r: Json)
    ensures
        json_view(r) == render_user(u.deep_view()),
{
    let mut ms: Vec<JsonMember> = Vec::new();
    ms.push(JsonMember { key: "uid".to_owned(), val: Json::Num(u.uid) });
    ms.push(JsonMember { key: "gid".to_owned(), val: Json::Num(u.gid) });
    let umask_v: Json = match u.umask {
        Option::Some(n) => Json::Num(n),
        Option::None => Json::Null,
    };
    ms.push(JsonMember { key: "umask".to_owned(), val: umask_v });
    let gids_v: Json = match &u.additional_gids {
        Option::Some(gs) => Json::Arr(emit_nums(gs)),
        Option::None => Json::Null,
    };
    ms.push(JsonMember { key: "additionalGids".to_owned(), val: gids_v });
    proof {
        lemma_members_view_index(ms@);
        assert(ms@[0].key@ == "uid"@ && ms@[1].key@ == "gid"@ && ms@[2].key@ == "umask"@ && ms@[3].key@ == "additionalGids"@);
        assert(json_view(ms@[0].val) == JsonV::Num(u.uid));
        assert(json_view(ms@[1].val) == JsonV::Num(u.gid));
        assert(json_view(ms@[2].val) == render_opt_num(u.deep_view().umask));
        assert(json_view(ms@[3].val) == (match u.deep_view().additional_gids {
            Option::Some(gs) => JsonV::Arr(render_nums(gs)),
            Option::None => JsonV::Null,
        }));
        assert(render_user(u.deep_view()) matches JsonV::Obj(s) && s.len() == 4 && s[0] == members_view(ms@)[0] && s[1] == members_view(ms@)[1] && s[2] == members_view(ms@)[2] && s[3] == members_view(ms@)[3]);
        assert(members_view(ms@) =~~= (match render_user(u.deep_view()) {
            JsonV::Obj(s) => s,
            _ => Seq::empty(),
        }));
    }
    Json::Obj(ms)
}

/// The `root` object.
fn emit_root(r0: &RootFs) -> (r: Json)
    ensures
        json_view(r) == render_root(r0.deep_view()),
{
    let mut ms: Vec<JsonMember> = Vec::new();
    ms.push(JsonMember { key: "path".to_owned(), val: Json::Str(r0.path.clone()) });
    ms.push(JsonMember { key: "readonly".to_owned(), val: Json::Bool(r0.readonly) });
    proof {
        lemma_members_view_index(ms@);
        assert(ms@[0].key@ == "path"@ && ms@[1].key@ == "readonly"@);
        assert(json_view(ms@[0].val) == JsonV::Str(r0.deep_view().path));
        assert(json_view(ms@[1].val) == JsonV::Bool(r0.deep_view().readonly));
        assert(render_root(r0.deep_view()) matches JsonV::Obj(s) && s.len() == 2 && s[0]
            == members_view(ms@)[0] && s[1] == members_view(ms@)[1]);
        assert(members_view(ms@) =~~= (match render_root(r0.deep_view()) {
            JsonV::Obj(s) => s,
            _ => Seq::empty(),
        }));
    }
    Json::Obj(ms)
}

/// The `process` object.
fn emit_process(p: &OciProcess) -> (r: Json)
    ensures
        json_view(r) == render_process(p.deep_view()),
{
    let mut ms: Vec<JsonMember> = Vec::new();
    ms.push(JsonMember { key: "terminal".to_owned(), val: Json::Bool(p.terminal) });
    ms.push(JsonMember { key: "user".to_owned(), val: emit_user(&p.user) });
    ms.push(JsonMember { key: "cwd".to_owned(), val: Json::Str(p.cwd.clone()) });
    let env_v: Json = match &p.env {
        Option::Some(es) => Json::Arr(emit_strs(es)),
        Option::None => Json::Null,
    };
    ms.push(JsonMember { key: "env".to_owned(), val: env_v });
    ms.push(JsonMember { key: "args".to_owned(), val: Json::Arr(emit_strs(&p.args)) });
    proof {
        lemma_members_view_index(ms@);
        assert(ms@[0].key@ == "terminal"@ && ms@[1].key@ == "user"@ && ms@[2].key@ == "cwd"@ && ms@[3].key@ == "env"@ && ms@[4].key@ == "args"@);
        assert(json_view(ms@[0].val) == JsonV::Bool(p.terminal));
        assert(json_view(ms@[1].val) == render_user(p.deep_view().user));
        assert(json_view(ms@[2].val) == JsonV::Str(p.deep_view().cwd));
        assert(json_view(ms@[3].val) == (match p.deep_view().env {
            Option::Some(es) => JsonV::Arr(render_strs(es)),
            Option::None => JsonV::Null,
        }));
        assert(json_view(ms@[4].val) == JsonV::Arr(render_strs(p.deep_view().args)));
        assert(render_process(p.deep_view()) matches JsonV::Obj(s) && s.len() == 5 && s[0] == members_view(ms@)[0] && s[1] == members_view(ms@)[1] && s[2] == members_view(ms@)[2] && s[3] == members_view(ms@)[3] && s[4] == members_view(ms@)[4]);
        assert(members_view(ms@) =~~= (match render_process(p.deep_view()) {
            JsonV::Obj(s) => s,
            _ => Seq::empty(),
        }));
    }
    Json::Obj(ms)
}

/// One mount entry.
fn emit_mount(m: &MountEntry) -> (r: Json)
    ensures
        json_view(r) == render_mount(m.deep_view()),
{
    let mut ms: Vec<JsonMember> = Vec::new();
    ms.push(JsonMember { key: "destination".to_owned(), val: Json::Str(m.destination.clone()) });
    let src_v: Json = match &m.source {
        Option::Some(s) => Json::Str(s.clone()),
        Option::None => Json::Null,
    };
    ms.push(JsonMember { key: "source".to_owned(), val: src_v });
    let opt_v: Json = match &m.options {
        Option::Some(os) => Json::Arr(emit_strs(os)),
        Option::None => Json::Null,
    };
    ms.push(JsonMember { key: "options".to_owned(), val: opt_v });
    proof {
        lemma_members_view_index(ms@);
        assert(ms@[0].key@ == "destination"@ && ms@[1].key@ == "source"@ && ms@[2].key@ == "options"@);
        assert(json_view(ms@[0].val) == JsonV::Str(m.deep_view().destination));
        assert(json_view(ms@[1].val) == render_opt_str(m.deep_view().source));
        assert(json_view(ms@[2].val) == (match m.deep_view().options {
            Option::Some(os) => JsonV::Arr(render_strs(os)),
            Option::None => JsonV::Null,
        }));
        assert(render_mount(m.deep_view()) matches JsonV::Obj(s) && s.len() == 3 && s[0] == members_view(ms@)[0] && s[1] == members_view(ms@)[1] && s[2] == members_view(ms@)[2]);
        assert(members_view(ms@) =~~= (match render_mount(m.deep_view()) {
            JsonV::Obj(s) => s,
            _ => Seq::empty(),
        }));
    }
    Json::Obj(ms)
}

/// The mount list.
fn emit_mounts(ms: &Vec<MountEntry>) -> (r: Vec<Json>)
    ensures
        arr_view(r@) == render_mounts(ms.deep_view()),
{
    let mut out: Vec<Json> = Vec::new();
    let mut i: usize = 0;
    while i < ms.len()
        invariant
            i <= ms.len(),
            arr_view(out@) =~~= render_mounts(ms.deep_view().take(i as int)),
        decreases ms.len() - i,
    {
        let ghost prev = out@;
        out.push(emit_mount(&ms[i]));
        proof {
            assert(out@.drop_last() =~~= prev);
            lemma_arr_view_index(prev);
            lemma_arr_view_index(out@);
            assert(arr_view(out@) =~~= render_mounts(ms.deep_view().take(i + 1 as int)));
        }
        i = i + 1;
    }
    proof {
        assert(ms.deep_view().take(ms@.len() as int) =~~= ms.deep_view());
    }
    out
}

/// One namespace entry.
fn emit_ns(n: &NsEntry) -> (r: Json)
    ensures
        json_view(r) == render_ns(n.deep_view()),
{
    let mut ms: Vec<JsonMember> = Vec::new();
    ms.push(JsonMember { key: "type".to_owned(), val: Json::Str(n.ns_type.clone()) });
    proof {
        lemma_members_view_index(ms@);
        assert(members_view(ms@) =~~= (match render_ns(n.deep_view()) {
            JsonV::Obj(s) => s,
            _ => Seq::empty(),
        }));
    }
    Json::Obj(ms)
}

/// The namespace list.
fn emit_nss(ns: &Vec<NsEntry>) -> (r: Vec<Json>)
    ensures
        arr_view(r@) == render_nss(ns.deep_view()),
{
    let mut out: Vec<Json> = Vec::new();
    let mut i: usize = 0;
    while i < ns.len()
        invariant
            i <= ns.len(),
            arr_view(out@) =~~= render_nss(ns.deep_view().take(i as int)),
        decreases ns.len() - i,
    {
        let ghost prev = out@;
        out.push(emit_ns(&ns[i]));
        proof {
            assert(out@.drop_last() =~~= prev);
            lemma_arr_view_index(prev);
            lemma_arr_view_index(out@);
            assert(arr_view(out@) =~~= render_nss(ns.deep_view().take(i + 1 as int)));
        }
        i = i + 1;
    }
    proof {
        assert(ns.deep_view().take(ns@.len() as int) =~~= ns.deep_view());
    }
    out
}

/// The `linux` object.
fn emit_linux(l: &LinuxCfg) -> (r: Json)
    ensures
        json_view(r) == render_linux(l.deep_view()),
{
    let mut ms: Vec<JsonMember> = Vec::new();
    ms.push(JsonMember { key: "namespaces".to_owned(), val: Json::Arr(emit_nss(&l.namespaces)) });
    proof {
        lemma_members_view_index(ms@);
        assert(members_view(ms@) =~~= (match render_linux(l.deep_view()) {
            JsonV::Obj(s) => s,
            _ => Seq::empty(),
        }));
    }
    Json::Obj(ms)
}

/// The whole configuration as a JSON document tree, exactly the
/// rendering model's tree.
pub fn emit_config(c: &OciSpec) -> (r: Json)
    ensures
        json_view(r) == render_config(c.deep_view()),
{
    let mut ms: Vec<JsonMember> = Vec::new();
    ms.push(JsonMember { key: "ociVersion".to_owned(), val: Json::Str(c.oci_version.clone()) });
    ms.push(JsonMember { key: "root".to_owned(), val: emit_root(&c.root) });
    ms.push(JsonMember { key: "process".to_owned(), val: emit_process(&c.process) });
    let host_v: Json = match &c.hostname {
        Option::Some(s) => Json::Str(s.clone()),
        Option::None => Json::Null,
    };
    ms.push(JsonMember { key: "hostname".to_owned(), val: host_v });
    let dom_v: Json = match &c.domainname {
        Option::Some(s) => Json::Str(s.clone()),
        Option::None => Json::Null,
    };
    ms.push(JsonMember { key: "domainname".to_owned(), val: dom_v });
    let mounts_v: Json = match &c.mounts {
        Option::Some(mv) => Json::Arr(emit_mounts(mv)),
        Option::None => Json::Null,
    };
    ms.push(JsonMember { key: "mounts".to_owned(), val: mounts_v });
    let linux_v: Json = match &c.linux {
        Option::Some(l) => emit_linux(l),
        Option::None => Json::Null,
    };
    ms.push(JsonMember { key: "linux".to_owned(), val: linux_v });
    proof {
        lemma_members_view_index(ms@);
        assert(ms@[0].key@ == "ociVersion"@ && ms@[1].key@ == "root"@ && ms@[2].key@ == "process"@ && ms@[3].key@ == "hostname"@ && ms@[4].key@ == "domainname"@ && ms@[5].key@ == "mounts"@ && ms@[6].key@ == "linux"@);
        assert(json_view(ms@[0].val) == JsonV::Str(c.deep_view().oci_version));
        assert(json_view(ms@[1].val) == render_root(c.deep_view().root));
        assert(json_view(ms@[2].val) == render_process(c.deep_view().process));
        assert(json_view(ms@[3].val) == render_opt_str(c.deep_view().hostname));
        assert(json_view(ms@[4].val) == render_opt_str(c.deep_view().domainname));
        assert(json_view(ms@[5].val) == (match c.deep_view().mounts {
            Option::Some(mv) => JsonV::Arr(render_mounts(mv)),
            Option::None => JsonV::Null,
        }));
        assert(json_view(ms@[6].val) == render_opt_linux(c.deep_view().linux));
        assert(render_config(c.deep_view()) matches JsonV::Obj(s) && s.len() == 7 && s[0] == members_view(ms@)[0] && s[1] == members_view(ms@)[1] && s[2] == members_view(ms@)[2] && s[3] == members_view(ms@)[3] && s[4] == members_view(ms@)[4] && s[5] == members_view(ms@)[5] && s[6] == members_view(ms@)[6]);
        assert(members_view(ms@) =~~= (match render_config(c.deep_view()) {
            JsonV::Obj(s) => s,
            _ => Seq::empty(),
        }));
    }
    Json::Obj(ms)
}

} // verus!
