//! Filesystem-context plans: the filesystem type and the ordered options
//! that the launcher sets on a kernel fs-context before realizing it as a
//! detached mount. Numeric options are rendered exactly as the kernel
//! expects them: modes in octal, ids and fds in decimal.

use vstd::prelude::*;

use crate::numfmt::{dec_chars, oct_chars, u32_to_dec, u32_to_oct};
use crate::reference::Ref;

verus! {

/// One option of a filesystem context: a bare flag or a string value.
#[derive(Debug)]
pub enum FsOption {
    Flag(String),
    Str(String, String),
}

/// The mathematical shape of one option.
pub enum FsOptionV {
    Flag(Seq<char>),
    Str(Seq<char>, Seq<char>),
}

impl View for FsOption {
    type V = FsOptionV;

    open spec fn view(&self) -> FsOptionV {
        match self {
            FsOption::Flag(f) => FsOptionV::Flag(f@),
            FsOption::Str(k, v) => FsOptionV::Str(k@, v@),
        }
    }
}

pub open spec fn option_views(os: Seq<FsOption>) -> Seq<FsOptionV> {
    os.map_values(|o: FsOption| o@)
}

/// The mathematical shape of a plan.
pub struct FsPlanV {
    pub fstype: Seq<char>,
    pub options: Seq<FsOptionV>,
}

/// A plan for one filesystem context: the type it is opened with and the
/// options set on it, in order, before it is realized.
#[derive(Debug)]
pub struct FsPlan {
    pub fstype: String,
    pub options: Vec<FsOption>,
}

impl View for FsPlan {
    type V = FsPlanV;

    open spec fn view(&self) -> FsPlanV {
        FsPlanV { fstype: self.fstype@, options: option_views(self.options@) }
    }
}

impl FsPlan {
    /// Opens a plan for the named filesystem type with no options yet.
    pub fn open(name: &str) -> (r: FsPlan)
        ensures
            r@.fstype == name@,
            r@.options == Seq::<FsOptionV>::empty(),
    {
        let r = FsPlan { fstype: name.to_owned(), options: Vec::new() };
        proof {
            assert(option_views(r.options@) =~= Seq::<FsOptionV>::empty());
        }
        r
    }

    /// Appends a bare flag.
    pub fn set_flag(self, flag: &str) -> (r: FsPlan)
        ensures
            r@.fstype == self@.fstype,
            r@.options == self@.options.push(FsOptionV::Flag(flag@)),
    {
        let mut options = self.options;
        let ghost before = options@;
        options.push(FsOption::Flag(flag.to_owned()));
        proof {
            assert(option_views(options@) =~= option_views(before).push(FsOptionV::Flag(flag@)));
        }
        FsPlan { fstype: self.fstype, options }
    }

    /// Appends a string-valued option.
    pub fn set_string(self, key: &str, value: &str) -> (r: FsPlan)
        ensures
            r@.fstype == self@.fstype,
            r@.options == self@.options.push(FsOptionV::Str(key@, value@)),
    {
        let mut options = self.options;
        let ghost before = options@;
        options.push(FsOption::Str(key.to_owned(), value.to_owned()));
        proof {
            assert(option_views(options@) =~= option_views(before).push(
                FsOptionV::Str(key@, value@),
            ));
        }
        FsPlan { fstype: self.fstype, options }
    }

    /// Appends an integer option, rendered in decimal.
    pub fn set_int(self, key: &str, value: u32) -> (r: FsPlan)
        ensures
            r@.fstype == self@.fstype,
            r@.options == self@.options.push(FsOptionV::Str(key@, dec_chars(value as nat))),
    {
        let v = u32_to_dec(value);
        self.set_string(key, v.as_str())
    }

    /// Appends a mode option, rendered in octal without a prefix.
    pub fn set_mode(self, key: &str, value: u16) -> (r: FsPlan)
        ensures
            r@.fstype == self@.fstype,
            r@.options == self@.options.push(FsOptionV::Str(key@, oct_chars(value as nat))),
    {
        let v = u32_to_oct(value as u32);
        self.set_string(key, v.as_str())
    }

    /// Appends a descriptor option, rendered as its decimal number: the
    /// fuse protocol takes the `/dev/fuse` descriptor this way.
    pub fn set_fd_str(self, key: &str, fd: u32) -> (r: FsPlan)
        ensures
            r@.fstype == self@.fstype,
            r@.options == self@.options.push(FsOptionV::Str(key@, dec_chars(fd as nat))),
    {
        self.set_int(key, fd)
    }

    /// Realizes the plan as a mount. The handle starts detached: it names a
    /// mount in no namespace until the tree builder attaches it.
    pub fn mount(self) -> (r: MountHandle)
        ensures
            r.plan@ == self@,
    {
        MountHandle { plan: self }
    }
}

/// A realized mount held only as an object, visible in no mount namespace.
/// While a handle is held the mount stays detached: the one operation that
/// attaches it, the tree builder's `mount`, consumes the handle, so Rust's
/// ownership discipline is what keeps a held mount out of every namespace.
#[derive(Debug)]
pub struct MountHandle {
    pub plan: FsPlan,
}

/// The plan for a fresh tmpfs with the given source label and mode.
pub fn tmpfs_plan(name: &str, mode: u16) -> (r: FsPlan)
    ensures
        r@.fstype == "tmpfs"@,
        r@.options =~= seq![
            FsOptionV::Str("source"@, name@),
            FsOptionV::Str("mode"@, oct_chars(mode as nat)),
        ],
{
    FsPlan::open("tmpfs").set_string("source", name).set_mode("mode", mode)
}

/// The plan for a fresh devpts instance with the usual terminal modes.
pub fn devpts_plan() -> (r: FsPlan)
    ensures
        r@.fstype == "devpts"@,
        r@.options =~= seq![
            FsOptionV::Flag("newinstance"@),
            FsOptionV::Str("ptmxmode"@, oct_chars(0o666 as nat)),
            FsOptionV::Str("mode"@, oct_chars(0o620 as nat)),
        ],
{
    FsPlan::open("devpts").set_flag("newinstance").set_mode("ptmxmode", 0o666).set_mode(
        "mode",
        0o620,
    )
}

/// The source label of an image mount: `composefs-fuse:` and the reference.
pub fn fuse_source(r: &Ref) -> (s: String)
    ensures
        s@ == "composefs-fuse:"@ + r@,
{
    let mut s = String::new();
    s.append("composefs-fuse:");
    let text = r.serialize();
    s.append(text.as_str());
    s
}

/// The plan for one read-only fuse-served image: world-readable root, the
/// `/dev/fuse` descriptor passed by number, owned by the host identity.
/// Permission checking inside the mount is left to the server.
pub fn fuse_plan(reference: &Ref, fuse_fd: u32, uid: u32, gid: u32) -> (r: FsPlan)
    ensures
        r@.fstype == "fuse"@,
        r@.options =~= seq![
            FsOptionV::Flag("ro"@),
            FsOptionV::Flag("allow_other"@),
            FsOptionV::Str("source"@, "composefs-fuse:"@ + reference@),
            FsOptionV::Str("fd"@, dec_chars(fuse_fd as nat)),
            FsOptionV::Str("rootmode"@, oct_chars(0o40555 as nat)),
            FsOptionV::Str("user_id"@, dec_chars(uid as nat)),
            FsOptionV::Str("group_id"@, dec_chars(gid as nat)),
        ],
{
    let source = fuse_source(reference);
    FsPlan::open("fuse").set_flag("ro").set_flag("allow_other").set_string(
        "source",
        source.as_str(),
    ).set_fd_str("fd", fuse_fd).set_mode("rootmode", 0o40555).set_int("user_id", uid).set_int(
        "group_id",
        gid,
    )
}

} // verus!
