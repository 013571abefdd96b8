//! Per-container filesystem paths.
//!
//! The runtime keeps one directory per container under the runtime
//! root, named by the first ten Unicode scalars of the container id,
//! and one exec-rendezvous socket inside it.

use vstd::prelude::*;
use vstd::string::*;

verus! {

/// The first ten Unicode scalars of a container id, or the whole id
/// when it is shorter.
pub open spec fn prefix10(s: Seq<char>) -> Seq<char> {
    if s.len() <= 10 {
        s
    } else {
        s.take(10)
    }
}

/// Directory name of a container: exactly the first ten Unicode
/// scalars of its id.
pub fn id_prefix(id: &str) -> (r: String)
    ensures
        r@ == prefix10(id@),
{
    let n = id.unicode_len();
    if n <= 10 {
        id.to_owned()
    } else {
        id.substring_char(0, 10).to_owned()
    }
}

/// The per-container directory under the runtime root; its last path
/// component is the ten-scalar prefix of the container id.
pub fn container_dir(runtime_root: &str, id: &str) -> (r: String)
    ensures
        r@ == runtime_root@ + "/"@ + prefix10(id@),
{
    let mut s = runtime_root.to_owned();
    s.append("/");
    let p = id_prefix(id);
    s.append(p.as_str());
    s
}

/// The exec-rendezvous socket path inside the per-container directory.
pub fn exec_sock_path(runtime_root: &str, id: &str) -> (r: String)
    ensures
        r@ == runtime_root@ + "/"@ + prefix10(id@) + "/exec.sock"@,
{
    let mut s = container_dir(runtime_root, id);
    s.append("/exec.sock");
    s
}

} // verus!
