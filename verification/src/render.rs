//! Writing a configuration back out as a JSON document tree, and the
//! round-trip law: reading a rendered configuration gives the
//! configuration back.
//!
//! Optional fields are rendered as `null`; booleans with a false
//! default are always written.  Rendering and extraction together pin
//! the wire form of the configuration subset down.

use vstd::prelude::*;
use crate::config::{
    linux_of, mount_of, mounts_seq, ns_of, ns_seq, num_seq, process_of, root_of, spec_of_json,
    spec_wf, str_seq, user_of, LinuxCfgV, MountEntryV, NsEntryV, OciSpecV, ProcessV, RootFsV,
    UserV,
};
use crate::json::{obj_get, JsonV};

verus! {

broadcast use vstd::string::group_string_axioms;

/// A list of strings as a JSON array.
pub open spec fn render_strs(ss: Seq<Seq<char>>) -> Seq<JsonV> {
    Seq::new(ss.len(), |i: int| JsonV::Str(ss[i]))
}

/// A list of numbers as a JSON array.
pub open spec fn render_nums(ns: Seq<u64>) -> Seq<JsonV> {
    Seq::new(ns.len(), |i: int| JsonV::Num(ns[i]))
}

/// An optional string as a string or `null`.
pub open spec fn render_opt_str(o: Option<Seq<char>>) -> JsonV {
    match o {
        Option::Some(s) => JsonV::Str(s),
        Option::None => JsonV::Null,
    }
}

/// An optional number as a number or `null`.
pub open spec fn render_opt_num(o: Option<u64>) -> JsonV {
    match o {
        Option::Some(n) => JsonV::Num(n),
        Option::None => JsonV::Null,
    }
}

/// The `user` object of a configuration.
pub open spec fn render_user(u: UserV) -> JsonV {
    JsonV::Obj(
        seq![
            ("uid"@, JsonV::Num(u.uid)),
            ("gid"@, JsonV::Num(u.gid)),
            ("umask"@, render_opt_num(u.umask)),
            (
                "additionalGids"@,
                match u.additional_gids {
                    Option::Some(gs) => JsonV::Arr(render_nums(gs)),
                    Option::None => JsonV::Null,
                },
            ),
        ],
    )
}

/// The `process` object of a configuration.
pub open spec fn render_process(p: ProcessV) -> JsonV {
    JsonV::Obj(
        seq![
            ("terminal"@, JsonV::Bool(p.terminal)),
            ("user"@, render_user(p.user)),
            ("cwd"@, JsonV::Str(p.cwd)),
            (
                "env"@,
                match p.env {
                    Option::Some(es) => JsonV::Arr(render_strs(es)),
                    Option::None => JsonV::Null,
                },
            ),
            ("args"@, JsonV::Arr(render_strs(p.args))),
        ],
    )
}

/// The `root` object of a configuration.
pub open spec fn render_root(r: RootFsV) -> JsonV {
    JsonV::Obj(seq![("path"@, JsonV::Str(r.path)), ("readonly"@, JsonV::Bool(r.readonly))])
}

/// One mount entry.
pub open spec fn render_mount(m: MountEntryV) -> JsonV {
    JsonV::Obj(
        seq![
            ("destination"@, JsonV::Str(m.destination)),
            ("source"@, render_opt_str(m.source)),
            (
                "options"@,
                match m.options {
                    Option::Some(os) => JsonV::Arr(render_strs(os)),
                    Option::None => JsonV::Null,
                },
            ),
        ],
    )
}

/// The mount list.
pub open spec fn render_mounts(ms: Seq<MountEntryV>) -> Seq<JsonV> {
    Seq::new(ms.len(), |i: int| render_mount(ms[i]))
}

/// One namespace entry.
pub open spec fn render_ns(n: NsEntryV) -> JsonV {
    JsonV::Obj(seq![("type"@, JsonV::Str(n.ns_type))])
}

/// The namespace list.
pub open spec fn render_nss(ns: Seq<NsEntryV>) -> Seq<JsonV> {
    Seq::new(ns.len(), |i: int| render_ns(ns[i]))
}

/// The `linux` object of a configuration.
pub open spec fn render_linux(l: LinuxCfgV) -> JsonV {
    JsonV::Obj(seq![("namespaces"@, JsonV::Arr(render_nss(l.namespaces)))])
}

/// The whole configuration as a JSON document tree.
pub open spec fn render_config(c: OciSpecV) -> JsonV {
    JsonV::Obj(
        seq![
            ("ociVersion"@, JsonV::Str(c.oci_version)),
            ("root"@, render_root(c.root)),
            ("process"@, render_process(c.process)),
            ("hostname"@, render_opt_str(c.hostname)),
            ("domainname"@, render_opt_str(c.domainname)),
            (
                "mounts"@,
                match c.mounts {
                    Option::Some(ms) => JsonV::Arr(render_mounts(ms)),
                    Option::None => JsonV::Null,
                },
            ),
            ("linux"@, render_opt_linux(c.linux)),
        ],
    )
}

/// The optional `linux` section.
pub open spec fn render_opt_linux(l: Option<LinuxCfgV>) -> JsonV {
    match l {
        Option::Some(l) => render_linux(l),
        Option::None => JsonV::Null,
    }
}

/// Reading a rendered number list gives the list back.
pub proof fn lemma_nums_round_trip(ns: Seq<u64>)
    ensures
        num_seq(render_nums(ns)) == Some(ns),
    decreases ns.len(),
{
    if ns.len() == 0 {
        assert(render_nums(ns) =~= Seq::<JsonV>::empty());
        assert(ns =~= Seq::<u64>::empty());
    } else {
        lemma_nums_round_trip(ns.drop_last());
        assert(render_nums(ns).drop_last() =~= render_nums(ns.drop_last()));
        assert(render_nums(ns).last() == JsonV::Num(ns.last()));
        assert(ns.drop_last().push(ns.last()) =~= ns);
    }
}

/// Reading a rendered string list gives the list back.
pub proof fn lemma_strs_round_trip(ss: Seq<Seq<char>>)
    ensures
        str_seq(render_strs(ss)) == Some(ss),
    decreases ss.len(),
{
    if ss.len() == 0 {
        assert(render_strs(ss) =~= Seq::<JsonV>::empty());
        assert(ss =~= Seq::<Seq<char>>::empty());
    } else {
        lemma_strs_round_trip(ss.drop_last());
        assert(render_strs(ss).drop_last() =~= render_strs(ss.drop_last()));
        assert(render_strs(ss).last() == JsonV::Str(ss.last()));
        assert(ss.drop_last().push(ss.last()) =~= ss);
    }
}

/// Reading a rendered `user` object gives the user back.
pub proof fn lemma_user_round_trip(u: UserV)
    ensures
        user_of(render_user(u)) == Some(u),
{
    reveal_strlit("uid");
    assert("uid"@ =~= seq!['u', 'i', 'd']);
    reveal_strlit("gid");
    assert("gid"@ =~= seq!['g', 'i', 'd']);
    reveal_strlit("umask");
    assert("umask"@ =~= seq!['u', 'm', 'a', 's', 'k']);
    reveal_strlit("additionalGids");
    assert("additionalGids"@ =~= seq!['a', 'd', 'd', 'i', 't', 'i', 'o', 'n', 'a', 'l', 'G', 'i', 'd', 's']);
    let m1 = ("uid"@, JsonV::Num(u.uid));
    let m2 = ("gid"@, JsonV::Num(u.gid));
    let m3 = ("umask"@, render_opt_num(u.umask));
    let m4 = (
        "additionalGids"@,
        match u.additional_gids {
            Option::Some(gs) => JsonV::Arr(render_nums(gs)),
            Option::None => JsonV::Null,
        },
    );
    let ms = seq![m1, m2, m3, m4];
    assert(ms.drop_first() =~= seq![m2, m3, m4]);
    assert(seq![m2, m3, m4].drop_first() =~= seq![m3, m4]);
    assert(seq![m3, m4].drop_first() =~= seq![m4]);
    assert(obj_get(ms, "uid"@) == Some(m1.1));
    assert(obj_get(ms, "gid"@) == obj_get(seq![m2, m3, m4], "gid"@));
    assert(obj_get(seq![m2, m3, m4], "gid"@) == Some(m2.1));
    assert(obj_get(ms, "gid"@) == Some(m2.1));
    assert(obj_get(ms, "umask"@) == obj_get(seq![m2, m3, m4], "umask"@));
    assert(obj_get(seq![m2, m3, m4], "umask"@) == obj_get(seq![m3, m4], "umask"@));
    assert(obj_get(seq![m3, m4], "umask"@) == Some(m3.1));
    assert(obj_get(ms, "umask"@) == Some(m3.1));
    assert(obj_get(ms, "additionalGids"@) == obj_get(seq![m2, m3, m4], "additionalGids"@));
    assert(obj_get(seq![m2, m3, m4], "additionalGids"@) == obj_get(seq![m3, m4], "additionalGids"@));
    assert(obj_get(seq![m3, m4], "additionalGids"@) == obj_get(seq![m4], "additionalGids"@));
    assert(obj_get(seq![m4], "additionalGids"@) == Some(m4.1));
    assert(obj_get(ms, "additionalGids"@) == Some(m4.1));
    assert(render_user(u) matches JsonV::Obj(s) && s.len() == 4 && s[0] == m1 && s[1] == m2 && s[2]
        == m3 && s[3] == m4);
    assert(render_user(u) matches JsonV::Obj(s) && s =~= ms);
    assert(render_user(u) == JsonV::Obj(ms));
    assert(crate::config::req_num(ms, "uid"@) == Some(u.uid));
    assert(crate::config::req_num(ms, "gid"@) == Some(u.gid));
    assert(crate::config::opt_num(ms, "umask"@) == Some(u.umask));
    match u.additional_gids {
        Option::Some(gs) => {
            lemma_nums_round_trip(gs);
        },
        Option::None => {},
    }
    match user_of(render_user(u)) {
        Option::Some(u2) => {
            assert(u2 =~= u);
        },
        Option::None => {
            assert(false);
        },
    }
}

/// Reading a rendered `root` object gives it back.
pub proof fn lemma_root_round_trip(r: RootFsV)
    ensures
        root_of(render_root(r)) == Some(r),
{
    reveal_strlit("path");
    assert("path"@ =~= seq!['p', 'a', 't', 'h']);
    reveal_strlit("readonly");
    assert("readonly"@ =~= seq!['r', 'e', 'a', 'd', 'o', 'n', 'l', 'y']);
    let m1 = ("path"@, JsonV::Str(r.path));
    let m2 = ("readonly"@, JsonV::Bool(r.readonly));
    let ms = seq![m1, m2];
    assert(ms.drop_first() =~= seq![m2]);
    assert(obj_get(ms, "path"@) == Some(m1.1));
    assert(obj_get(ms, "readonly"@) == obj_get(seq![m2], "readonly"@));
    assert(obj_get(seq![m2], "readonly"@) == Some(m2.1));
    assert(obj_get(ms, "readonly"@) == Some(m2.1));
    match root_of(render_root(r)) {
        Option::Some(r2) => {
            assert(r2 =~= r);
        },
        Option::None => {
            assert(false);
        },
    }
}

/// Reading a rendered `process` object gives it back, provided the
/// argument list is non-empty.
pub proof fn lemma_process_round_trip(p: ProcessV)
    requires
        p.args.len() > 0,
    ensures
        process_of(render_process(p)) == Some(p),
{
    reveal_strlit("terminal");
    assert("terminal"@ =~= seq!['t', 'e', 'r', 'm', 'i', 'n', 'a', 'l']);
    reveal_strlit("user");
    assert("user"@ =~= seq!['u', 's', 'e', 'r']);
    reveal_strlit("cwd");
    assert("cwd"@ =~= seq!['c', 'w', 'd']);
    reveal_strlit("env");
    assert("env"@ =~= seq!['e', 'n', 'v']);
    reveal_strlit("args");
    assert("args"@ =~= seq!['a', 'r', 'g', 's']);
    let m1 = ("terminal"@, JsonV::Bool(p.terminal));
    let m2 = ("user"@, render_user(p.user));
    let m3 = ("cwd"@, JsonV::Str(p.cwd));
    let m4 = (
        "env"@,
        match p.env {
            Option::Some(es) => JsonV::Arr(render_strs(es)),
            Option::None => JsonV::Null,
        },
    );
    let m5 = ("args"@, JsonV::Arr(render_strs(p.args)));
    let ms = seq![m1, m2, m3, m4, m5];
    assert(ms.drop_first() =~= seq![m2, m3, m4, m5]);
    assert(seq![m2, m3, m4, m5].drop_first() =~= seq![m3, m4, m5]);
    assert(seq![m3, m4, m5].drop_first() =~= seq![m4, m5]);
    assert(seq![m4, m5].drop_first() =~= seq![m5]);
    assert(obj_get(ms, "terminal"@) == Some(m1.1));
    assert(obj_get(ms, "user"@) == obj_get(seq![m2, m3, m4, m5], "user"@));
    assert(obj_get(seq![m2, m3, m4, m5], "user"@) == Some(m2.1));
    assert(obj_get(ms, "user"@) == Some(m2.1));
    assert(obj_get(ms, "cwd"@) == obj_get(seq![m2, m3, m4, m5], "cwd"@));
    assert(obj_get(seq![m2, m3, m4, m5], "cwd"@) == obj_get(seq![m3, m4, m5], "cwd"@));
    assert(obj_get(seq![m3, m4, m5], "cwd"@) == Some(m3.1));
    assert(obj_get(ms, "cwd"@) == Some(m3.1));
    assert(obj_get(ms, "env"@) == obj_get(seq![m2, m3, m4, m5], "env"@));
    assert(obj_get(seq![m2, m3, m4, m5], "env"@) == obj_get(seq![m3, m4, m5], "env"@));
    assert(obj_get(seq![m3, m4, m5], "env"@) == obj_get(seq![m4, m5], "env"@));
    assert(obj_get(seq![m4, m5], "env"@) == Some(m4.1));
    assert(obj_get(ms, "env"@) == Some(m4.1));
    assert(obj_get(ms, "args"@) == obj_get(seq![m2, m3, m4, m5], "args"@));
    assert(obj_get(seq![m2, m3, m4, m5], "args"@) == obj_get(seq![m3, m4, m5], "args"@));
    assert(obj_get(seq![m3, m4, m5], "args"@) == obj_get(seq![m4, m5], "args"@));
    assert(obj_get(seq![m4, m5], "args"@) == obj_get(seq![m5], "args"@));
    assert(obj_get(seq![m5], "args"@) == Some(m5.1));
    assert(obj_get(ms, "args"@) == Some(m5.1));
    assert(render_process(p) matches JsonV::Obj(s) && s.len() == 5 && s[0] == m1 && s[1] == m2 && s[2] == m3 && s[3] == m4 && s[4] == m5);
    assert(render_process(p) matches JsonV::Obj(s) && s =~= ms);
    assert(render_process(p) == JsonV::Obj(ms));
    lemma_user_round_trip(p.user);
    match p.env {
        Option::Some(es) => {
            lemma_strs_round_trip(es);
        },
        Option::None => {},
    }
    lemma_strs_round_trip(p.args);
    match process_of(render_process(p)) {
        Option::Some(p2) => {
            assert(p2 =~= p);
        },
        Option::None => {
            assert(false);
        },
    }
}

/// Reading a rendered mount entry gives it back.
pub proof fn lemma_mount_round_trip(m: MountEntryV)
    ensures
        mount_of(render_mount(m)) == Some(m),
{
    reveal_strlit("destination");
    assert("destination"@ =~= seq!['d', 'e', 's', 't', 'i', 'n', 'a', 't', 'i', 'o', 'n']);
    reveal_strlit("source");
    assert("source"@ =~= seq!['s', 'o', 'u', 'r', 'c', 'e']);
    reveal_strlit("options");
    assert("options"@ =~= seq!['o', 'p', 't', 'i', 'o', 'n', 's']);
    let m1 = ("destination"@, JsonV::Str(m.destination));
    let m2 = ("source"@, render_opt_str(m.source));
    let m3 = (
        "options"@,
        match m.options {
            Option::Some(os) => JsonV::Arr(render_strs(os)),
            Option::None => JsonV::Null,
        },
    );
    let ms = seq![m1, m2, m3];
    assert(ms.drop_first() =~= seq![m2, m3]);
    assert(seq![m2, m3].drop_first() =~= seq![m3]);
    assert(obj_get(ms, "destination"@) == Some(m1.1));
    assert(obj_get(ms, "source"@) == obj_get(seq![m2, m3], "source"@));
    assert(obj_get(seq![m2, m3], "source"@) == Some(m2.1));
    assert(obj_get(ms, "source"@) == Some(m2.1));
    assert(obj_get(ms, "options"@) == obj_get(seq![m2, m3], "options"@));
    assert(obj_get(seq![m2, m3], "options"@) == obj_get(seq![m3], "options"@));
    assert(obj_get(seq![m3], "options"@) == Some(m3.1));
    assert(obj_get(ms, "options"@) == Some(m3.1));
    assert(render_mount(m) matches JsonV::Obj(s) && s.len() == 3 && s[0] == m1 && s[1] == m2 && s[2] == m3);
    assert(render_mount(m) matches JsonV::Obj(s) && s =~= ms);
    assert(render_mount(m) == JsonV::Obj(ms));
    match m.options {
        Option::Some(os) => {
            lemma_strs_round_trip(os);
        },
        Option::None => {},
    }
    match mount_of(render_mount(m)) {
        Option::Some(m2x) => {
            assert(m2x =~= m);
        },
        Option::None => {
            assert(false);
        },
    }
}

/// Reading a rendered mount list gives the list back.
pub proof fn lemma_mounts_round_trip(ms: Seq<MountEntryV>)
    ensures
        mounts_seq(render_mounts(ms)) == Some(ms),
    decreases ms.len(),
{
    if ms.len() == 0 {
        assert(render_mounts(ms) =~= Seq::<JsonV>::empty());
        assert(ms =~= Seq::<MountEntryV>::empty());
    } else {
        lemma_mounts_round_trip(ms.drop_last());
        lemma_mount_round_trip(ms.last());
        assert(render_mounts(ms).drop_last() =~= render_mounts(ms.drop_last()));
        assert(render_mounts(ms).last() == render_mount(ms.last()));
        assert(ms.drop_last().push(ms.last()) =~= ms);
    }
}

/// Reading a rendered namespace entry gives it back.
pub proof fn lemma_ns_round_trip(n: NsEntryV)
    ensures
        ns_of(render_ns(n)) == Some(n),
{
    reveal_strlit("type");
    assert("type"@ =~= seq!['t', 'y', 'p', 'e']);
    let m1 = ("type"@, JsonV::Str(n.ns_type));
    let ms = seq![m1];
    assert(obj_get(ms, "type"@) == Some(m1.1));
    match ns_of(render_ns(n)) {
        Option::Some(n2) => {
            assert(n2 =~= n);
        },
        Option::None => {
            assert(false);
        },
    }
}

/// Reading a rendered namespace list gives the list back.
pub proof fn lemma_nss_round_trip(ns: Seq<NsEntryV>)
    ensures
        ns_seq(render_nss(ns)) == Some(ns),
    decreases ns.len(),
{
    if ns.len() == 0 {
        assert(render_nss(ns) =~= Seq::<JsonV>::empty());
        assert(ns =~= Seq::<NsEntryV>::empty());
    } else {
        lemma_nss_round_trip(ns.drop_last());
        lemma_ns_round_trip(ns.last());
        assert(render_nss(ns).drop_last() =~= render_nss(ns.drop_last()));
        assert(render_nss(ns).last() == render_ns(ns.last()));
        assert(ns.drop_last().push(ns.last()) =~= ns);
    }
}

/// Reading a rendered `linux` object gives it back.
pub proof fn lemma_linux_round_trip(l: LinuxCfgV)
    ensures
        linux_of(render_linux(l)) == Some(l),
{
    reveal_strlit("namespaces");
    assert("namespaces"@ =~= seq!['n', 'a', 'm', 'e', 's', 'p', 'a', 'c', 'e', 's']);
    let m1 = ("namespaces"@, JsonV::Arr(render_nss(l.namespaces)));
    let ms = seq![m1];
    assert(obj_get(ms, "namespaces"@) == Some(m1.1));
    lemma_nss_round_trip(l.namespaces);
    match linux_of(render_linux(l)) {
        Option::Some(l2) => {
            assert(l2 =~= l);
        },
        Option::None => {
            assert(false);
        },
    }
}

/// Round trip on the configuration subset: reading a rendered
/// well-formed configuration gives exactly the configuration back.
pub proof fn lemma_config_round_trip(c: OciSpecV)
    requires
        spec_wf(c),
    ensures
        spec_of_json(render_config(c)) == Some(c),
{
    reveal_strlit("ociVersion");
    assert("ociVersion"@ =~= seq!['o', 'c', 'i', 'V', 'e', 'r', 's', 'i', 'o', 'n']);
    reveal_strlit("root");
    assert("root"@ =~= seq!['r', 'o', 'o', 't']);
    reveal_strlit("process");
    assert("process"@ =~= seq!['p', 'r', 'o', 'c', 'e', 's', 's']);
    reveal_strlit("hostname");
    assert("hostname"@ =~= seq!['h', 'o', 's', 't', 'n', 'a', 'm', 'e']);
    reveal_strlit("domainname");
    assert("domainname"@ =~= seq!['d', 'o', 'm', 'a', 'i', 'n', 'n', 'a', 'm', 'e']);
    reveal_strlit("mounts");
    assert("mounts"@ =~= seq!['m', 'o', 'u', 'n', 't', 's']);
    reveal_strlit("linux");
    assert("linux"@ =~= seq!['l', 'i', 'n', 'u', 'x']);
    let m1 = ("ociVersion"@, JsonV::Str(c.oci_version));
    let m2 = ("root"@, render_root(c.root));
    let m3 = ("process"@, render_process(c.process));
    let m4 = ("hostname"@, render_opt_str(c.hostname));
    let m5 = ("domainname"@, render_opt_str(c.domainname));
    let m6 = (
        "mounts"@,
        match c.mounts {
            Option::Some(ms) => JsonV::Arr(render_mounts(ms)),
            Option::None => JsonV::Null,
        },
    );
    let m7 = ("linux"@, render_opt_linux(c.linux));
    let ms = seq![m1, m2, m3, m4, m5, m6, m7];
    assert(ms.drop_first() =~= seq![m2, m3, m4, m5, m6, m7]);
    assert(seq![m2, m3, m4, m5, m6, m7].drop_first() =~= seq![m3, m4, m5, m6, m7]);
    assert(seq![m3, m4, m5, m6, m7].drop_first() =~= seq![m4, m5, m6, m7]);
    assert(seq![m4, m5, m6, m7].drop_first() =~= seq![m5, m6, m7]);
    assert(seq![m5, m6, m7].drop_first() =~= seq![m6, m7]);
    assert(seq![m6, m7].drop_first() =~= seq![m7]);
    assert(obj_get(ms, "ociVersion"@) == Some(m1.1));
    assert(obj_get(ms, "root"@) == obj_get(seq![m2, m3, m4, m5, m6, m7], "root"@));
    assert(obj_get(seq![m2, m3, m4, m5, m6, m7], "root"@) == Some(m2.1));
    assert(obj_get(ms, "root"@) == Some(m2.1));
    assert(obj_get(ms, "process"@) == obj_get(seq![m2, m3, m4, m5, m6, m7], "process"@));
    assert(obj_get(seq![m2, m3, m4, m5, m6, m7], "process"@) == obj_get(seq![m3, m4, m5, m6, m7], "process"@));
    assert(obj_get(seq![m3, m4, m5, m6, m7], "process"@) == Some(m3.1));
    assert(obj_get(ms, "process"@) == Some(m3.1));
    assert(obj_get(ms, "hostname"@) == obj_get(seq![m2, m3, m4, m5, m6, m7], "hostname"@));
    assert(obj_get(seq![m2, m3, m4, m5, m6, m7], "hostname"@) == obj_get(seq![m3, m4, m5, m6, m7], "hostname"@));
    assert(obj_get(seq![m3, m4, m5, m6, m7], "hostname"@) == obj_get(seq![m4, m5, m6, m7], "hostname"@));
    assert(obj_get(seq![m4, m5, m6, m7], "hostname"@) == Some(m4.1));
    assert(obj_get(ms, "hostname"@) == Some(m4.1));
    assert(obj_get(ms, "domainname"@) == obj_get(seq![m2, m3, m4, m5, m6, m7], "domainname"@));
    assert(obj_get(seq![m2, m3, m4, m5, m6, m7], "domainname"@) == obj_get(seq![m3, m4, m5, m6, m7], "domainname"@));
    assert(obj_get(seq![m3, m4, m5, m6, m7], "domainname"@) == obj_get(seq![m4, m5, m6, m7], "domainname"@));
    assert(obj_get(seq![m4, m5, m6, m7], "domainname"@) == obj_get(seq![m5, m6, m7], "domainname"@));
    assert(obj_get(seq![m5, m6, m7], "domainname"@) == Some(m5.1));
    assert(obj_get(ms, "domainname"@) == Some(m5.1));
    assert(obj_get(ms, "mounts"@) == obj_get(seq![m2, m3, m4, m5, m6, m7], "mounts"@));
    assert(obj_get(seq![m2, m3, m4, m5, m6, m7], "mounts"@) == obj_get(seq![m3, m4, m5, m6, m7], "mounts"@));
    assert(obj_get(seq![m3, m4, m5, m6, m7], "mounts"@) == obj_get(seq![m4, m5, m6, m7], "mounts"@));
    assert(obj_get(seq![m4, m5, m6, m7], "mounts"@) == obj_get(seq![m5, m6, m7], "mounts"@));
    assert(obj_get(seq![m5, m6, m7], "mounts"@) == obj_get(seq![m6, m7], "mounts"@));
    assert(obj_get(seq![m6, m7], "mounts"@) == Some(m6.1));
    assert(obj_get(ms, "mounts"@) == Some(m6.1));
    assert(obj_get(ms, "linux"@) == obj_get(seq![m2, m3, m4, m5, m6, m7], "linux"@));
    assert(obj_get(seq![m2, m3, m4, m5, m6, m7], "linux"@) == obj_get(seq![m3, m4, m5, m6, m7], "linux"@));
    assert(obj_get(seq![m3, m4, m5, m6, m7], "linux"@) == obj_get(seq![m4, m5, m6, m7], "linux"@));
    assert(obj_get(seq![m4, m5, m6, m7], "linux"@) == obj_get(seq![m5, m6, m7], "linux"@));
    assert(obj_get(seq![m5, m6, m7], "linux"@) == obj_get(seq![m6, m7], "linux"@));
    assert(obj_get(seq![m6, m7], "linux"@) == obj_get(seq![m7], "linux"@));
    assert(obj_get(seq![m7], "linux"@) == Some(m7.1));
    assert(obj_get(ms, "linux"@) == Some(m7.1));
    assert(render_config(c) matches JsonV::Obj(s) && s.len() == 7 && s[0] == m1 && s[1] == m2 && s[2] == m3 && s[3] == m4 && s[4] == m5 && s[5] == m6 && s[6] == m7);
    assert(render_config(c) matches JsonV::Obj(s) && s =~= ms);
    assert(render_config(c) == JsonV::Obj(ms));
    lemma_root_round_trip(c.root);
    lemma_process_round_trip(c.process);
    match c.mounts {
        Option::Some(mv) => {
            lemma_mounts_round_trip(mv);
        },
        Option::None => {},
    }
    match c.linux {
        Option::Some(l) => {
            lemma_linux_round_trip(l);
        },
        Option::None => {},
    }
    match spec_of_json(render_config(c)) {
        Option::Some(c2) => {
            assert(c2 =~= c);
        },
        Option::None => {
            assert(false);
        },
    }
}

} // verus!
