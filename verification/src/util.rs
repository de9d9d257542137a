//! Descriptor-and-name helpers: turning a `(dirfd, name)` pair into an
//! absolute pathname for the syscalls that have no `*_at` form, such as the
//! unix-socket calls the wayland broker makes.

use vstd::prelude::*;

use crate::numfmt::{dec_chars, u32_to_dec};

verus! {

/// The kernel's sentinel descriptor naming the current working directory.
pub const AT_FDCWD: i32 = -100;

/// What `nameat` produces: the name itself for the working directory or an
/// absolute name, the magic `/proc` entry for the descriptor when the name
/// is empty, and the name under that entry otherwise.
pub open spec fn nameat_spec(fd: int, name: Seq<char>) -> Seq<char> {
    if fd == AT_FDCWD as int || (name.len() > 0 && name[0] == '/') {
        name
    } else if name.len() == 0 {
        "/proc/self/fd/"@ + dec_chars(if fd >= 0 {
            fd as nat
        } else {
            0 as nat
        })
    } else {
        "/proc/self/fd/"@ + dec_chars(if fd >= 0 {
            fd as nat
        } else {
            0 as nat
        }) + "/"@ + name
    }
}

/// Turns a `(dirfd, name)` pair into one pathname, as `AT_EMPTY_PATH` would
/// read it: an empty name means the descriptor itself.
pub fn nameat(fd: i32, name: &str) -> (r: String)
    requires
        fd >= 0 || fd == AT_FDCWD,
    ensures
        r@ == nameat_spec(fd as int, name@),
{
    if fd == AT_FDCWD || (!name.is_empty() && name.get_char(0) == '/') {
        return name.to_owned();
    }
    let mut s = String::new();
    s.append("/proc/self/fd/");
    let d = u32_to_dec(fd as u32);
    s.append(d.as_str());
    if name.is_empty() {
        return s;
    }
    s.append("/");
    s.append(name);
    s
}

} // verus!
