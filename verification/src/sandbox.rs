//! The sandbox descriptor and the construction of what the launcher
//! materializes: the environment handed to the child, the command chosen
//! for it, the synthesized identity files, and the root filesystem tree.

use vstd::prelude::*;

use crate::error::Error;
use crate::fstree::{
    dir_like, lemma_with_dirs_all_present, lemma_with_dirs_props, preserves_entries, with_dirs,
    DirBuilder, NodeV,
};
use crate::idmap::SandboxType;
use crate::instance::Instance;
use crate::manifest::{manifest_value, Manifest};
use crate::mountplan::{FsOptionV, FsPlan, FsPlanV, MountHandle};
use crate::numfmt::{dec_chars, lemma_dec_chars_digits, u32_to_dec};
use crate::reference::Ref;
use crate::text::{join_chars, lemma_split_join, lemma_split_one, lemma_split_two, no_sep, split_chars};

verus! {

/// Which host resources appear inside the sandbox.
#[derive(Debug)]
pub struct ShareSet {
    pub home: bool,
    pub xdg_runtime_dir: bool,
    pub session_bus: bool,
    pub wayland: bool,
}

/// The default shares: the home directory and the wayland display.
pub fn default_shares() -> (r: ShareSet)
    ensures
        r.home && !r.xdg_runtime_dir && !r.session_bus && r.wayland,
{
    ShareSet { home: true, xdg_runtime_dir: false, session_bus: false, wayland: true }
}

/// How the wayland display reaches the sandbox: not at all, the host
/// socket bind-mounted, or a restricted listener that the compositor's
/// security-context extension serves after the tree is materialized.
#[derive(Debug)]
pub enum WaylandMode {
    Unavailable,
    Fallback(String),
    Secure,
}

pub open spec fn opt_view(o: Option<String>) -> Option<Seq<char>> {
    match o {
        Some(s) => Some(s@),
        None => None,
    }
}

/// Environment overrides in order: a `Some` value sets the variable, a
/// `None` removes it; a later entry for the same name wins.
#[derive(Debug)]
pub struct EnvMap {
    pub entries: Vec<(String, Option<String>)>,
}

pub open spec fn env_map_of(entries: Seq<(String, Option<String>)>) -> Map<
    Seq<char>,
    Option<Seq<char>>,
>
    decreases entries.len(),
{
    if entries.len() == 0 {
        Map::empty()
    } else {
        env_map_of(entries.drop_last()).insert(entries.last().0@, opt_view(entries.last().1))
    }
}

impl View for EnvMap {
    type V = Map<Seq<char>, Option<Seq<char>>>;

    open spec fn view(&self) -> Map<Seq<char>, Option<Seq<char>>> {
        env_map_of(self.entries@)
    }
}

impl EnvMap {
    pub fn new() -> (r: EnvMap)
        ensures
            r@ == Map::<Seq<char>, Option<Seq<char>>>::empty(),
            r.entries@.len() == 0,
    {
        let r = EnvMap { entries: Vec::new() };
        proof {
            assert(r@ =~= Map::<Seq<char>, Option<Seq<char>>>::empty());
        }
        r
    }

    /// Sets a variable for the child.
    pub fn setenv(&mut self, key: &str, value: String)
        ensures
            final(self)@ == old(self)@.insert(key@, Some(value@)),
    {
        let ghost before = self.entries@;
        self.entries.push((key.to_owned(), Some(value)));
        proof {
            assert(self.entries@.drop_last() =~= before);
        }
    }

    /// Removes a variable from the child's environment.
    pub fn unsetenv(&mut self, key: &str)
        ensures
            final(self)@ == old(self)@.insert(key@, None),
    {
        let ghost before = self.entries@;
        self.entries.push((key.to_owned(), None));
        proof {
            assert(self.entries@.drop_last() =~= before);
        }
    }
}

/// The environment of manifest pairs alone: each key set to its value.
pub open spec fn env_of_pairs(pairs: Seq<(String, String)>) -> Map<Seq<char>, Option<Seq<char>>>
    decreases pairs.len(),
{
    if pairs.len() == 0 {
        Map::empty()
    } else {
        env_of_pairs(pairs.drop_last()).insert(pairs.last().0@, Some(pairs.last().1@))
    }
}

/// Entries applied in order over a base environment.
pub open spec fn apply_entries(
    m: Map<Seq<char>, Option<Seq<char>>>,
    es: Seq<(Seq<char>, Option<Seq<char>>)>,
) -> Map<Seq<char>, Option<Seq<char>>>
    decreases es.len(),
{
    if es.len() == 0 {
        m
    } else {
        apply_entries(m, es.drop_last()).insert(es.last().0, es.last().1)
    }
}

pub open spec fn env_entry_views(es: Seq<(String, Option<String>)>) -> Seq<
    (Seq<char>, Option<Seq<char>>),
> {
    es.map_values(|e: (String, Option<String>)| (e.0@, opt_view(e.1)))
}

/// What the child is handed: the runtime manifest's environment, the
/// descriptor's overrides in order, then the forced path, identity and
/// prompt variables.
pub open spec fn composed_env(
    runtime_env: Seq<(String, String)>,
    overrides: Seq<(Seq<char>, Option<Seq<char>>)>,
    ref_id: Seq<char>,
) -> Map<Seq<char>, Option<Seq<char>>> {
    apply_entries(env_of_pairs(runtime_env), overrides).insert(
        "PATH"@,
        Some("/app/bin:/usr/bin"@),
    ).insert("FLATPAK_ID"@, Some(ref_id)).insert("PS1"@, Some("[\u{1F4E6} $FLATPAK_ID \\W]\\$ "@))
}

/// Composes the child's environment.
#[verifier::loop_isolation(false)]
pub fn compose_env(runtime_env: &Vec<(String, String)>, overrides: &EnvMap, ref_id: &str) -> (r:
    EnvMap)
    ensures
        r@ == composed_env(runtime_env@, env_entry_views(overrides.entries@), ref_id@),
{
    let mut r = EnvMap::new();
    let mut i: usize = 0;
    proof {
        assert(runtime_env@.take(0) =~= Seq::<(String, String)>::empty());
        assert(env_of_pairs(runtime_env@.take(0)) =~= Map::<Seq<char>, Option<Seq<char>>>::empty());
    }
    while i < runtime_env.len()
        invariant
            i <= runtime_env@.len(),
            r@ == env_of_pairs(runtime_env@.take(i as int)),
        decreases runtime_env@.len() - i,
    {
        let ghost before = r.entries@;
        let k = runtime_env[i].0.clone();
        let v = runtime_env[i].1.clone();
        r.entries.push((k, Some(v)));
        proof {
            assert(r.entries@.drop_last() =~= before);
            assert(runtime_env@.take(i + 1).drop_last() =~= runtime_env@.take(i as int));
            assert(runtime_env@.take(i + 1).last() == runtime_env@[i as int]);
        }
        i += 1;
    }
    proof {
        assert(runtime_env@.take(runtime_env@.len() as int) =~= runtime_env@);
    }
    let ghost base = env_of_pairs(runtime_env@);
    let ghost ovs = env_entry_views(overrides.entries@);
    let mut j: usize = 0;
    proof {
        assert(ovs.take(0) =~= Seq::<(Seq<char>, Option<Seq<char>>)>::empty());
    }
    while j < overrides.entries.len()
        invariant
            j <= overrides.entries@.len(),
            ovs == env_entry_views(overrides.entries@),
            base == env_of_pairs(runtime_env@),
            r@ == apply_entries(base, ovs.take(j as int)),
        decreases overrides.entries@.len() - j,
    {
        let ghost before = r.entries@;
        let k = overrides.entries[j].0.clone();
        let v = match &overrides.entries[j].1 {
            Some(s) => Some(s.clone()),
            None => None,
        };
        r.entries.push((k, v));
        proof {
            assert(r.entries@.drop_last() =~= before);
            assert(ovs.take(j + 1).drop_last() =~= ovs.take(j as int));
            assert(ovs.take(j + 1).last() == ovs[j as int]);
        }
        j += 1;
    }
    proof {
        assert(ovs.take(overrides.entries@.len() as int) =~= ovs);
    }
    r.setenv("PATH", "/app/bin:/usr/bin".to_owned());
    r.setenv("FLATPAK_ID", ref_id.to_owned());
    r.setenv("PS1", "[\u{1F4E6} $FLATPAK_ID \\W]\\$ ".to_owned());
    r
}

/// Entries that never name `k` leave `k`'s binding alone.
proof fn lemma_apply_entries_absent(
    m: Map<Seq<char>, Option<Seq<char>>>,
    es: Seq<(Seq<char>, Option<Seq<char>>)>,
    k: Seq<char>,
)
    requires
        forall|i: int| 0 <= i < es.len() ==> (#[trigger] es[i]).0 != k,
    ensures
        apply_entries(m, es).dom().contains(k) == m.dom().contains(k),
        m.dom().contains(k) ==> apply_entries(m, es)[k] == m[k],
    decreases es.len(),
{
    if es.len() > 0 {
        assert forall|i: int| 0 <= i < es.drop_last().len() implies (
        #[trigger] es.drop_last()[i]).0 != k by {
            assert(es.drop_last()[i] == es[i]);
        }
        lemma_apply_entries_absent(m, es.drop_last(), k);
        assert(es.last() == es[es.len() - 1]);
    }
}

/// The binding of the last pair with a given key.
proof fn lemma_env_of_pairs_at(pairs: Seq<(String, String)>, i: int)
    requires
        0 <= i < pairs.len(),
        forall|j: int| i < j < pairs.len() ==> (#[trigger] pairs[j]).0@ != pairs[i].0@,
    ensures
        env_of_pairs(pairs).dom().contains(pairs[i].0@),
        env_of_pairs(pairs)[pairs[i].0@] == Some(pairs[i].1@),
    decreases pairs.len(),
{
    if i < pairs.len() - 1 {
        assert(pairs.drop_last()[i] == pairs[i]);
        assert forall|j: int| i < j < pairs.drop_last().len() implies (
        #[trigger] pairs.drop_last()[j]).0@ != pairs.drop_last()[i].0@ by {
            assert(pairs.drop_last()[j] == pairs[j]);
        }
        lemma_env_of_pairs_at(pairs.drop_last(), i);
        assert(pairs[i].0@ != pairs.last().0@) by {
            assert(pairs.last() == pairs[pairs.len() - 1]);
        }
    }
}

/// A manifest environment key that the overrides never name and that is
/// none of the forced names keeps the manifest's value in the composed
/// environment.
pub proof fn lemma_env_composition(
    runtime_env: Seq<(String, String)>,
    overrides: Seq<(Seq<char>, Option<Seq<char>>)>,
    ref_id: Seq<char>,
    i: int,
)
    requires
        0 <= i < runtime_env.len(),
        forall|j: int| i < j < runtime_env.len() ==> (#[trigger] runtime_env[j]).0@
            != runtime_env[i].0@,
        forall|o: int| 0 <= o < overrides.len() ==> (#[trigger] overrides[o]).0
            != runtime_env[i].0@,
        runtime_env[i].0@ != "PATH"@,
        runtime_env[i].0@ != "FLATPAK_ID"@,
        runtime_env[i].0@ != "PS1"@,
    ensures
        composed_env(runtime_env, overrides, ref_id).dom().contains(runtime_env[i].0@),
        composed_env(runtime_env, overrides, ref_id)[runtime_env[i].0@] == Some(
            runtime_env[i].1@,
        ),
{
    lemma_env_of_pairs_at(runtime_env, i);
    lemma_apply_entries_absent(env_of_pairs(runtime_env), overrides, runtime_env[i].0@);
}

/// The command the child runs: the command-line override first, then the
/// application manifest's `command`, then the shell.
pub fn choose_command(cli: Option<&str>, app_manifest: Option<&Manifest>) -> (r: Result<
    String,
    Error,
>)
    ensures
        cli matches Some(c) ==> (r matches Ok(s) && s@ == c@),
        cli is None && app_manifest is None ==> (r matches Ok(s) && s@ == "/bin/sh"@),
        (cli is None && app_manifest is Some) ==> (match manifest_value(
            (app_manifest->Some_0)@,
            "Application"@,
            "command"@,
        ) {
            Some(v) => r matches Ok(s) && s@ == v,
            None => r is Err && (r->Err_0 == Error::MissingSection || r->Err_0
                == Error::MissingKey),
        }),
{
    match cli {
        Some(c) => Ok(c.to_owned()),
        None => match app_manifest {
            Some(m) => match m.get("Application", "command") {
                Ok(v) => Ok(v.to_owned()),
                Err(e) => Err(e),
            },
            None => Ok("/bin/sh".to_owned()),
        },
    }
}

/// The synthesized `/etc/passwd`: root, the sandbox user, and a `host`
/// user owning what bind mounts carry in.
pub fn passwd_content(username: &str, uid: u32, gid: u32, gecos: &str, home: &str) -> (r: String)
    ensures
        r@ == "root:x:0:0:root:/root:/bin/bash\n"@ + username@ + ":x:"@ + dec_chars(uid as nat)
            + ":"@ + dec_chars(gid as nat) + ":"@ + gecos@ + ":"@ + home@
            + ":/bin/bash\nhost:x:65534:65534:Host files:/:/\n"@,
{
    let mut s = String::new();
    s.append("root:x:0:0:root:/root:/bin/bash\n");
    s.append(username);
    s.append(":x:");
    let u = u32_to_dec(uid);
    s.append(u.as_str());
    s.append(":");
    let g = u32_to_dec(gid);
    s.append(g.as_str());
    s.append(":");
    s.append(gecos);
    s.append(":");
    s.append(home);
    s.append(":/bin/bash\nhost:x:65534:65534:Host files:/:/\n");
    s
}

/// The synthesized `/etc/group`: root, the sandbox user's group, `host`.
pub fn group_content(groupname: &str, gid: u32) -> (r: String)
    ensures
        r@ == "root:x:0:0:\n"@ + groupname@ + ":x:"@ + dec_chars(gid as nat)
            + ":0:\nhost:x:65534:0:\n"@,
{
    let mut s = String::new();
    s.append("root:x:0:0:\n");
    s.append(groupname);
    s.append(":x:");
    let g = u32_to_dec(gid);
    s.append(g.as_str());
    s.append(":0:\nhost:x:65534:0:\n");
    s
}

/// The fixed `/etc/ld.so.conf`: application libraries first, then the
/// runtime's drop-ins and the pipewire jack directory.
pub fn ld_so_conf_content() -> (r: String)
    ensures
        r@ == (
        "include /run/flatpak/ld.so.conf.d/app-*.conf\ninclude /app/etc/ld.so.conf\ninclude /app/etc/ld.so.conf.d/*.conf\n/app/lib64\n/app/lib\ninclude /run/flatpak/ld.so.conf.d/runtime-*.conf\n/usr/lib64/pipewire-0.3/jack/\n")@,
{
    let mut s = String::new();
    s.append(
        "include /run/flatpak/ld.so.conf.d/app-*.conf\ninclude /app/etc/ld.so.conf\ninclude /app/etc/ld.so.conf.d/*.conf\n/app/lib64\n/app/lib\ninclude /run/flatpak/ld.so.conf.d/runtime-*.conf\n/usr/lib64/pipewire-0.3/jack/\n",
    );
    s
}

/// What the descriptor holds before the launcher unshares: the reference
/// to run, the instance id, the mapping strategy, the target and host
/// identities, the identity strings, the shares, and the environment
/// overrides gathered so far.
#[derive(Debug)]
pub struct Sandbox {
    pub reference: Ref,
    pub instance: Instance,
    pub sandbox_type: SandboxType,
    pub uid: u32,
    pub gid: u32,
    pub host_uid: u32,
    pub host_gid: u32,
    pub username: String,
    pub groupname: String,
    pub gecos: String,
    pub home: String,
    pub share: ShareSet,
    pub env: EnvMap,
}

/// All fields but the environment unchanged.
pub open spec fn same_but_env(a: &Sandbox, b: &Sandbox) -> bool {
    &&& a.reference == b.reference
    &&& a.instance == b.instance
    &&& a.sandbox_type == b.sandbox_type
    &&& a.uid == b.uid
    &&& a.gid == b.gid
    &&& a.host_uid == b.host_uid
    &&& a.host_gid == b.host_gid
    &&& a.username == b.username
    &&& a.groupname == b.groupname
    &&& a.gecos == b.gecos
    &&& a.home == b.home
    &&& a.share == b.share
}

/// What populating `/etc` needs of the tree: `etc` itself, if present,
/// can hold entries, and none of the five files exists yet.
pub open spec fn etc_populate_ok(m: Map<Seq<Seq<char>>, NodeV>) -> bool {
    &&& (m.dom().contains(seq!["etc"@]) ==> dir_like(m[seq!["etc"@]]))
    &&& !m.dom().contains(split_chars("etc/resolv.conf"@, '/'))
    &&& !m.dom().contains(split_chars("etc/localtime"@, '/'))
    &&& !m.dom().contains(split_chars("etc/passwd"@, '/'))
    &&& !m.dom().contains(split_chars("etc/group"@, '/'))
    &&& !m.dom().contains(split_chars("etc/ld.so.conf"@, '/'))
}

/// After a step of populating `/etc`: old entries keep their values, `etc`
/// stands as a directory-like entry, and nothing outside `etc` appeared.
pub open spec fn etc_step_kept(
    m: Map<Seq<Seq<char>>, NodeV>,
    mk: Map<Seq<Seq<char>>, NodeV>,
    etc: Seq<Seq<char>>,
) -> bool {
    &&& preserves_entries(m, mk)
    &&& mk.dom().contains(etc)
    &&& dir_like(mk[etc])
}

/// A two-component path of nonempty, separator-free parts is usable.
proof fn lemma_path_ok_two(a: Seq<char>, b: Seq<char>)
    requires
        a.len() > 0,
        b.len() > 0,
        no_sep(a, '/'),
        no_sep(b, '/'),
    ensures
        crate::fstree::path_ok(seq![a, b]),
{
    let p = seq![a, b];
    assert forall|t: int| 0 <= t < p.len() implies (#[trigger] p[t]).len() > 0 && no_sep(
        p[t],
        '/',
    ) by {
        if t == 0 {
            assert(p[0] == a);
        } else {
            assert(t == 1);
            assert(p[1] == b);
        }
    }
}

/// A two-component path whose parent stands as a directory-like entry has
/// its prefixes in order.
proof fn lemma_prefix_ok_two(
    m: Map<Seq<Seq<char>>, NodeV>,
    p: Seq<Seq<char>>,
    parent: Seq<Seq<char>>,
)
    requires
        p.len() == 2,
        p.take(1) == parent,
        m.dom().contains(parent) ==> dir_like(m[parent]),
    ensures
        crate::fstree::prefix_dirs_ok(m, p),
{
    assert forall|k: int|
        0 < k < p.len() && m.dom().contains(#[trigger] p.take(k)) implies dir_like(
        m[p.take(k)],
    ) by {
        assert(k == 1);
    }
}

/// A two-component path whose parent stands as a directory-like entry has
/// all its parents present.
proof fn lemma_parents_present_two(
    m: Map<Seq<Seq<char>>, NodeV>,
    p: Seq<Seq<char>>,
    d: Seq<Seq<char>>,
)
    requires
        p.len() == 2,
        p.take(1) == d,
        m.dom().contains(d),
        dir_like(m[d]),
    ensures
        crate::fstree::parents_present(m, p),
{
    assert forall|k: int| 0 < k < p.len() implies m.dom().contains(#[trigger] p.take(k))
        && dir_like(m[p.take(k)]) by {
        assert(k == 1);
    }
}


/// The tree path of the private runtime directory for a target uid.
pub open spec fn run_user_base(uid: u32) -> Seq<Seq<char>> {
    seq!["run"@, "user"@, dec_chars(uid as nat)]
}

/// The view of the private runtime-directory tmpfs plan: a 0o700 tmpfs
/// owned by the target identity.
pub open spec fn xdg_plan_view(uid: u32, gid: u32) -> FsPlanV {
    FsPlanV {
        fstype: "tmpfs"@,
        options: seq![
            FsOptionV::Str("source"@, "xdg-runtime-dir"@),
            FsOptionV::Str("mode"@, crate::numfmt::oct_chars(0o700 as nat)),
            FsOptionV::Str("uid"@, dec_chars(uid as nat)),
            FsOptionV::Str("gid"@, dec_chars(gid as nat)),
        ],
    }
}

/// What populating `/run/user/{uid}` needs of the tree: `run` and
/// `run/user`, if present, can hold entries, and the runtime directory
/// itself does not exist yet. A well-formed tree then holds nothing under
/// it either.
pub open spec fn run_user_populate_ok(m: Map<Seq<Seq<char>>, NodeV>, uid: u32) -> bool {
    &&& (m.dom().contains(seq!["run"@]) ==> dir_like(m[seq!["run"@]]))
    &&& (m.dom().contains(seq!["run"@, "user"@]) ==> dir_like(m[seq!["run"@, "user"@]]))
    &&& !m.dom().contains(run_user_base(uid))
}

/// A three-component path whose present prefixes are directory-like has
/// its prefixes in order.
proof fn lemma_prefix_ok_three(m: Map<Seq<Seq<char>>, NodeV>, p: Seq<Seq<char>>)
    requires
        p.len() == 3,
        m.dom().contains(p.take(1)) ==> dir_like(m[p.take(1)]),
        m.dom().contains(p.take(2)) ==> dir_like(m[p.take(2)]),
    ensures
        crate::fstree::prefix_dirs_ok(m, p),
{
    assert forall|k: int|
        0 < k < p.len() && m.dom().contains(#[trigger] p.take(k)) implies dir_like(
        m[p.take(k)],
    ) by {
        assert(k == 1 || k == 2);
    }
}

/// A four-component path whose present prefixes are directory-like has its
/// prefixes in order.
proof fn lemma_prefix_ok_four(m: Map<Seq<Seq<char>>, NodeV>, p: Seq<Seq<char>>)
    requires
        p.len() == 4,
        m.dom().contains(p.take(1)) ==> dir_like(m[p.take(1)]),
        m.dom().contains(p.take(2)) ==> dir_like(m[p.take(2)]),
        m.dom().contains(p.take(3)) ==> dir_like(m[p.take(3)]),
    ensures
        crate::fstree::prefix_dirs_ok(m, p),
{
    assert forall|k: int|
        0 < k < p.len() && m.dom().contains(#[trigger] p.take(k)) implies dir_like(
        m[p.take(k)],
    ) by {
        assert(k == 1 || k == 2 || k == 3);
    }
}

/// The runtime-directory paths split as expected and are usable.
proof fn lemma_run_user_paths(uid: u32)
    ensures
        split_chars("run/user/"@ + dec_chars(uid as nat), '/') == run_user_base(uid),
        split_chars("run/user/"@ + dec_chars(uid as nat) + "/wayland-0"@, '/') == run_user_base(
            uid,
        ).push("wayland-0"@),
        split_chars("run/user/"@ + dec_chars(uid as nat) + "/bus"@, '/') == run_user_base(
            uid,
        ).push("bus"@),
        crate::fstree::path_ok(run_user_base(uid)),
        crate::fstree::path_ok(run_user_base(uid).push("wayland-0"@)),
        crate::fstree::path_ok(run_user_base(uid).push("bus"@)),
        run_user_base(uid).take(1) == seq!["run"@],
        run_user_base(uid).take(2) == seq!["run"@, "user"@],
        run_user_base(uid).drop_last() == seq!["run"@, "user"@],
        run_user_base(uid).push("wayland-0"@).take(1) == seq!["run"@],
        run_user_base(uid).push("wayland-0"@).take(2) == seq!["run"@, "user"@],
        run_user_base(uid).push("wayland-0"@).take(3) == run_user_base(uid),
        run_user_base(uid).push("wayland-0"@).drop_last() == run_user_base(uid),
        run_user_base(uid).push("bus"@).take(1) == seq!["run"@],
        run_user_base(uid).push("bus"@).take(2) == seq!["run"@, "user"@],
        run_user_base(uid).push("bus"@).take(3) == run_user_base(uid),
        run_user_base(uid).push("bus"@).drop_last() == run_user_base(uid),
        run_user_base(uid).push("wayland-0"@) != run_user_base(uid).push("bus"@),
{
    let d = dec_chars(uid as nat);
    lemma_dec_chars_digits(uid as nat);
    reveal_strlit("run/user/");
    reveal_strlit("run");
    reveal_strlit("user");
    reveal_strlit("/wayland-0");
    reveal_strlit("wayland-0");
    reveal_strlit("/bus");
    reveal_strlit("bus");
    assert(no_sep(d, '/')) by {
        assert forall|k: int| 0 <= k < d.len() implies d[k] != '/' by {
            assert(crate::numfmt::is_dec_digit(d[k]));
            assert('/' as u32 == 47);
            assert('0' as u32 == 48);
        }
    }
    assert(no_sep("run"@, '/'));
    assert(no_sep("user"@, '/'));
    assert(no_sep("wayland-0"@, '/'));
    assert(no_sep("bus"@, '/'));
    let base = run_user_base(uid);
    assert(base[0] == "run"@);
    assert(base[1] == "user"@);
    assert(base[2] == d);
    assert(join_chars(base, '/') =~= "run/user/"@ + d) by {
        assert(base.drop_first() =~= seq!["user"@, d]);
        assert(seq!["user"@, d].drop_first() =~= seq![d]);
        assert(join_chars(seq![d], '/') == d);
        assert(join_chars(seq!["user"@, d], '/') == "user"@ + seq!['/'] + join_chars(
            seq![d],
            '/',
        ));
        assert(join_chars(base, '/') == "run"@ + seq!['/'] + join_chars(seq!["user"@, d], '/'));
    }
    assert forall|t: int| 0 <= t < base.len() implies no_sep(#[trigger] base[t], '/') by {
        assert(t == 0 || t == 1 || t == 2);
    }
    lemma_split_join(base, '/');
    let wp = base.push("wayland-0"@);
    assert(wp[0] == "run"@);
    assert(wp[1] == "user"@);
    assert(wp[2] == d);
    assert(wp[3] == "wayland-0"@);
    assert(join_chars(wp, '/') =~= "run/user/"@ + d + "/wayland-0"@) by {
        assert(wp.drop_first() =~= seq!["user"@, d, "wayland-0"@]);
        assert(seq!["user"@, d, "wayland-0"@].drop_first() =~= seq![d, "wayland-0"@]);
        assert(seq![d, "wayland-0"@].drop_first() =~= seq!["wayland-0"@]);
        assert(join_chars(seq!["wayland-0"@], '/') == "wayland-0"@);
        assert(join_chars(seq![d, "wayland-0"@], '/') == d + seq!['/'] + "wayland-0"@);
        assert(join_chars(seq!["user"@, d, "wayland-0"@], '/') == "user"@ + seq!['/'] + (d
            + seq!['/'] + "wayland-0"@));
        assert(join_chars(wp, '/') == "run"@ + seq!['/'] + join_chars(
            seq!["user"@, d, "wayland-0"@],
            '/',
        ));
        assert("/wayland-0"@ =~= seq!['/'] + "wayland-0"@);
    }
    assert forall|t: int| 0 <= t < wp.len() implies no_sep(#[trigger] wp[t], '/') by {
        assert(t == 0 || t == 1 || t == 2 || t == 3);
    }
    lemma_split_join(wp, '/');
    let bp = base.push("bus"@);
    assert(bp[0] == "run"@);
    assert(bp[1] == "user"@);
    assert(bp[2] == d);
    assert(bp[3] == "bus"@);
    assert(join_chars(bp, '/') =~= "run/user/"@ + d + "/bus"@) by {
        assert(bp.drop_first() =~= seq!["user"@, d, "bus"@]);
        assert(seq!["user"@, d, "bus"@].drop_first() =~= seq![d, "bus"@]);
        assert(seq![d, "bus"@].drop_first() =~= seq!["bus"@]);
        assert(join_chars(seq!["bus"@], '/') == "bus"@);
        assert(join_chars(seq![d, "bus"@], '/') == d + seq!['/'] + "bus"@);
        assert(join_chars(seq!["user"@, d, "bus"@], '/') == "user"@ + seq!['/'] + (d + seq!['/']
            + "bus"@));
        assert(join_chars(bp, '/') == "run"@ + seq!['/'] + join_chars(
            seq!["user"@, d, "bus"@],
            '/',
        ));
        assert("/bus"@ =~= seq!['/'] + "bus"@);
    }
    assert forall|t: int| 0 <= t < bp.len() implies no_sep(#[trigger] bp[t], '/') by {
        assert(t == 0 || t == 1 || t == 2 || t == 3);
    }
    lemma_split_join(bp, '/');
    assert(base.take(1) =~= seq!["run"@]);
    assert(base.take(2) =~= seq!["run"@, "user"@]);
    assert(base.drop_last() =~= seq!["run"@, "user"@]);
    assert(wp.take(1) =~= seq!["run"@]);
    assert(wp.take(2) =~= seq!["run"@, "user"@]);
    assert(wp.take(3) =~= base);
    assert(wp.drop_last() =~= base);
    assert(bp.take(1) =~= seq!["run"@]);
    assert(bp.take(2) =~= seq!["run"@, "user"@]);
    assert(bp.take(3) =~= base);
    assert(bp.drop_last() =~= base);
    assert(crate::fstree::path_ok(base)) by {
        assert forall|t: int| 0 <= t < base.len() implies (#[trigger] base[t]).len() > 0
            && no_sep(base[t], '/') by {
            assert(t == 0 || t == 1 || t == 2);
        }
    }
    assert(crate::fstree::path_ok(wp)) by {
        assert forall|t: int| 0 <= t < wp.len() implies (#[trigger] wp[t]).len() > 0 && no_sep(
            wp[t],
            '/',
        ) by {
            assert(t == 0 || t == 1 || t == 2 || t == 3);
        }
    }
    assert(crate::fstree::path_ok(bp)) by {
        assert forall|t: int| 0 <= t < bp.len() implies (#[trigger] bp[t]).len() > 0 && no_sep(
            bp[t],
            '/',
        ) by {
            assert(t == 0 || t == 1 || t == 2 || t == 3);
        }
    }
    assert("wayland-0"@.len() == 9);
    assert("bus"@.len() == 3);
    assert(wp != bp) by {
        assert(wp[3] == "wayland-0"@);
        assert(bp[3] == "bus"@);
    }
}


/// The view of the fresh `/tmp` tmpfs plan.
pub open spec fn tmp_plan_view() -> FsPlanV {
    FsPlanV {
        fstype: "tmpfs"@,
        options: seq![
            FsOptionV::Str("source"@, "tmp"@),
            FsOptionV::Str("mode"@, crate::numfmt::oct_chars(0o1777 as nat)),
        ],
    }
}

/// The home directory's tree path: the absolute host path with its leading
/// slash removed, split at the separators.
pub open spec fn home_rel(home: Seq<char>) -> Seq<Seq<char>> {
    split_chars(home.skip(1), '/')
}

/// A home text that cannot collide with what the root population creates:
/// either it is not absolute, so no entry is made for it, or it is a usable
/// path whose first component is none of the fixed top-level names.
pub open spec fn home_fresh(home: Seq<char>) -> bool {
    ||| home.len() == 0
    ||| home[0] != '/'
    ||| (crate::fstree::path_ok(home_rel(home)) && home_rel(home)[0] != "bin"@ && home_rel(home)[0] != "lib"@ && home_rel(home)[0] != "lib64"@ && home_rel(home)[0] != "sbin"@ && home_rel(home)[0] != "dev"@ && home_rel(home)[0] != "etc"@ && home_rel(home)[0] != "run"@ && home_rel(home)[0] != "var"@ && home_rel(home)[0] != "proc"@ && home_rel(home)[0] != "sys"@ && home_rel(home)[0] != "tmp"@ && home_rel(home)[0] != "usr"@ && home_rel(home)[0] != "app"@)
}


/// A fresh path whose first component no present entry shares can be
/// created: nothing blocks a prefix and the target is absent.
proof fn lemma_home_step_ok(m: Map<Seq<Seq<char>>, NodeV>, p: Seq<Seq<char>>)
    requires
        crate::fstree::path_ok(p),
        forall|q: Seq<Seq<char>>| #[trigger] m.dom().contains(q) ==> q.len() >= 1 && q[0] != p[0],
    ensures
        crate::fstree::dir_outcome(m, p, false) == Ok::<(), Error>(()),
{
    assert forall|k: int| 0 < k < p.len() implies !m.dom().contains(#[trigger] p.take(k)) by {
        if m.dom().contains(p.take(k)) {
            assert(p.take(k)[0] == p[0]);
        }
    }
    assert(crate::fstree::prefix_dirs_ok(m, p));
    assert(!m.dom().contains(p)) by {
        if m.dom().contains(p) {
            assert(p[0] != p[0]);
        }
    }
}

/// The view of the devpts plan mounted at `dev/pts`.
pub open spec fn devpts_plan_view() -> FsPlanV {
    FsPlanV {
        fstype: "devpts"@,
        options: seq![
            FsOptionV::Flag("newinstance"@),
            FsOptionV::Str("ptmxmode"@, crate::numfmt::oct_chars(0o666 as nat)),
            FsOptionV::Str("mode"@, crate::numfmt::oct_chars(0o620 as nat)),
        ],
    }
}

/// The view of the tmpfs plan mounted at `dev/shm`.
pub open spec fn shm_plan_view() -> FsPlanV {
    FsPlanV {
        fstype: "tmpfs"@,
        options: seq![
            FsOptionV::Str("source"@, "shm"@),
            FsOptionV::Str("mode"@, crate::numfmt::oct_chars(0o1777 as nat)),
        ],
    }
}

impl Sandbox {
    /// Populates `/dev`: the six bound device files, the controlling
    /// terminal when there is one, the descriptor symlinks, a fresh pts
    /// instance and a fresh shm. It succeeds exactly when nothing
    /// non-directory stands at `dev` and none of the entries exists yet.
    pub fn populate_dev(&self, tree: &mut DirBuilder, console: Option<&str>) -> (r: Result<
        (),
        Error,
    >)
        requires
            old(tree).wf(),
        ensures
            final(tree).wf(),
            r is Ok <==> dev_populate_ok(old(tree)@, console is Some),
            r is Ok ==> preserves_entries(old(tree)@, final(tree)@),
            r is Ok ==> forall|q: Seq<Seq<char>>| #[trigger] final(tree)@.dom().contains(q) ==> (
            old(tree)@.dom().contains(q) || (q.len() >= 1 && q[0] == "dev"@)),
            r is Ok ==> final(tree)@.dom().contains(split_chars("dev/full"@, '/')) && final(tree)@[split_chars("dev/full"@, '/')]
                == (NodeV::BindFile { source: "/dev/full"@ }),
            r is Ok ==> final(tree)@.dom().contains(split_chars("dev/null"@, '/')) && final(tree)@[split_chars("dev/null"@, '/')]
                == (NodeV::BindFile { source: "/dev/null"@ }),
            r is Ok ==> final(tree)@.dom().contains(split_chars("dev/random"@, '/')) && final(tree)@[split_chars("dev/random"@, '/')]
                == (NodeV::BindFile { source: "/dev/random"@ }),
            r is Ok ==> final(tree)@.dom().contains(split_chars("dev/tty"@, '/')) && final(tree)@[split_chars("dev/tty"@, '/')]
                == (NodeV::BindFile { source: "/dev/tty"@ }),
            r is Ok ==> final(tree)@.dom().contains(split_chars("dev/urandom"@, '/')) && final(tree)@[split_chars("dev/urandom"@, '/')]
                == (NodeV::BindFile { source: "/dev/urandom"@ }),
            r is Ok ==> final(tree)@.dom().contains(split_chars("dev/zero"@, '/')) && final(tree)@[split_chars("dev/zero"@, '/')]
                == (NodeV::BindFile { source: "/dev/zero"@ }),
            console matches Some(c) ==> (r is Ok ==> final(tree)@.dom().contains(
                split_chars("dev/console"@, '/'),
            ) && final(tree)@[split_chars("dev/console"@, '/')] == (NodeV::BindFile { source: c@ })),
            r is Ok ==> final(tree)@.dom().contains(split_chars("dev/stdin"@, '/')) && final(tree)@[split_chars("dev/stdin"@, '/')]
                == (NodeV::Symlink { target: "/proc/self/fd/0"@ }),
            r is Ok ==> final(tree)@.dom().contains(split_chars("dev/stdout"@, '/')) && final(tree)@[split_chars("dev/stdout"@, '/')]
                == (NodeV::Symlink { target: "/proc/self/fd/1"@ }),
            r is Ok ==> final(tree)@.dom().contains(split_chars("dev/stderr"@, '/')) && final(tree)@[split_chars("dev/stderr"@, '/')]
                == (NodeV::Symlink { target: "/proc/self/fd/2"@ }),
            r is Ok ==> final(tree)@.dom().contains(split_chars("dev/fd"@, '/')) && final(tree)@[split_chars("dev/fd"@, '/')]
                == (NodeV::Symlink { target: "/proc/self/fd"@ }),
            r is Ok ==> final(tree)@.dom().contains(split_chars("dev/ptmx"@, '/')) && final(tree)@[split_chars("dev/ptmx"@, '/')]
                == (NodeV::Symlink { target: "pts/ptmx"@ }),
            r is Ok ==> final(tree)@.dom().contains(split_chars("dev/pts"@, '/')) && final(tree)@[split_chars("dev/pts"@, '/')]
                == (NodeV::Mount { plan: devpts_plan_view() }),
            r is Ok ==> final(tree)@.dom().contains(split_chars("dev/shm"@, '/')) && final(tree)@[split_chars("dev/shm"@, '/')]
                == (NodeV::Mount { plan: shm_plan_view() }),
    {
        let ghost m = tree@;
        let ghost dev1 = seq!["dev"@];
        proof {
            lemma_dev_paths();
            assert(split_chars("dev/full"@, '/').take(1) =~= dev1);
            assert(split_chars("dev/full"@, '/').drop_last() =~= dev1);
            assert(split_chars("dev/null"@, '/').take(1) =~= dev1);
            assert(split_chars("dev/null"@, '/').drop_last() =~= dev1);
            assert(split_chars("dev/random"@, '/').take(1) =~= dev1);
            assert(split_chars("dev/random"@, '/').drop_last() =~= dev1);
            assert(split_chars("dev/tty"@, '/').take(1) =~= dev1);
            assert(split_chars("dev/tty"@, '/').drop_last() =~= dev1);
            assert(split_chars("dev/urandom"@, '/').take(1) =~= dev1);
            assert(split_chars("dev/urandom"@, '/').drop_last() =~= dev1);
            assert(split_chars("dev/zero"@, '/').take(1) =~= dev1);
            assert(split_chars("dev/zero"@, '/').drop_last() =~= dev1);
            assert(split_chars("dev/console"@, '/').take(1) =~= dev1);
            assert(split_chars("dev/console"@, '/').drop_last() =~= dev1);
            assert(split_chars("dev/stdin"@, '/').take(1) =~= dev1);
            assert(split_chars("dev/stdin"@, '/').drop_last() =~= dev1);
            assert(split_chars("dev/stdout"@, '/').take(1) =~= dev1);
            assert(split_chars("dev/stdout"@, '/').drop_last() =~= dev1);
            assert(split_chars("dev/stderr"@, '/').take(1) =~= dev1);
            assert(split_chars("dev/stderr"@, '/').drop_last() =~= dev1);
            assert(split_chars("dev/fd"@, '/').take(1) =~= dev1);
            assert(split_chars("dev/fd"@, '/').drop_last() =~= dev1);
            assert(split_chars("dev/ptmx"@, '/').take(1) =~= dev1);
            assert(split_chars("dev/ptmx"@, '/').drop_last() =~= dev1);
            assert(split_chars("dev/pts"@, '/').take(1) =~= dev1);
            assert(split_chars("dev/pts"@, '/').drop_last() =~= dev1);
            assert(split_chars("dev/shm"@, '/').take(1) =~= dev1);
            assert(split_chars("dev/shm"@, '/').drop_last() =~= dev1);
        }
        if let Err(e) = tree.bind_file("dev/full", "/dev/full") {
            return Err(e);
        }
        let ghost m1 = tree@;
        proof {
            lemma_with_dirs_props(m, dev1, 0o755u32);
            assert(m1 == with_dirs(m, dev1, 0o755u32).insert(split_chars("dev/full"@, '/'), NodeV::BindFile {
                source: "/dev/full"@,
            }));
            assert(preserves_entries(m, m1));
            assert(m1.dom().contains(dev1) && dir_like(m1[dev1]));
            assert forall|q: Seq<Seq<char>>| #[trigger] m1.dom().contains(q) implies m.dom().contains(q) || q == dev1 || q == split_chars("dev/full"@, '/') by {
                if q != split_chars("dev/full"@, '/') {
                    assert(with_dirs(m, dev1, 0o755u32).dom().contains(q));
                    if !m.dom().contains(q) {
                        assert(crate::fstree::is_prefix(q, dev1));
                        assert(q =~= dev1);
                    }
                }
            }
        }
        proof {
            assert(with_dirs(m1, dev1, 0o755u32) == m1) by {
                lemma_with_dirs_all_present(m1, dev1, 0o755u32);
            }
        }
        if let Err(e) = tree.bind_file("dev/null", "/dev/null") {
            proof {
                assert(!dev_populate_ok(m, console is Some)) by {
                    lemma_prefix_ok_two(m1, split_chars("dev/null"@, '/'), dev1);
                    assert(m1.dom().contains(split_chars("dev/null"@, '/')));
                    assert(m.dom().contains(split_chars("dev/null"@, '/')));
                }
            }
            return Err(e);
        }
        let ghost m2 = tree@;
        proof {
            assert(m2 == m1.insert(split_chars("dev/null"@, '/'), NodeV::BindFile { source: "/dev/null"@ }));
            assert(preserves_entries(m, m2));
            assert(m2.dom().contains(dev1) && dir_like(m2[dev1]));
            assert forall|q: Seq<Seq<char>>| #[trigger] m2.dom().contains(q) implies m.dom().contains(q) || q == dev1 || q == split_chars("dev/full"@, '/') || q == split_chars("dev/null"@, '/') by {
                if q != split_chars("dev/null"@, '/') {
                    assert(m1.dom().contains(q));
                }
            }
        }
        proof {
            assert(with_dirs(m2, dev1, 0o755u32) == m2) by {
                lemma_with_dirs_all_present(m2, dev1, 0o755u32);
            }
        }
        if let Err(e) = tree.bind_file("dev/random", "/dev/random") {
            proof {
                assert(!dev_populate_ok(m, console is Some)) by {
                    lemma_prefix_ok_two(m2, split_chars("dev/random"@, '/'), dev1);
                    assert(m2.dom().contains(split_chars("dev/random"@, '/')));
                    assert(m.dom().contains(split_chars("dev/random"@, '/')));
                }
            }
            return Err(e);
        }
        let ghost m3 = tree@;
        proof {
            assert(m3 == m2.insert(split_chars("dev/random"@, '/'), NodeV::BindFile { source: "/dev/random"@ }));
            assert(preserves_entries(m, m3));
            assert(m3.dom().contains(dev1) && dir_like(m3[dev1]));
            assert forall|q: Seq<Seq<char>>| #[trigger] m3.dom().contains(q) implies m.dom().contains(q) || q == dev1 || q == split_chars("dev/full"@, '/') || q == split_chars("dev/null"@, '/') || q == split_chars("dev/random"@, '/') by {
                if q != split_chars("dev/random"@, '/') {
                    assert(m2.dom().contains(q));
                }
            }
        }
        proof {
            assert(with_dirs(m3, dev1, 0o755u32) == m3) by {
                lemma_with_dirs_all_present(m3, dev1, 0o755u32);
            }
        }
        if let Err(e) = tree.bind_file("dev/tty", "/dev/tty") {
            proof {
                assert(!dev_populate_ok(m, console is Some)) by {
                    lemma_prefix_ok_two(m3, split_chars("dev/tty"@, '/'), dev1);
                    assert(m3.dom().contains(split_chars("dev/tty"@, '/')));
                    assert(m.dom().contains(split_chars("dev/tty"@, '/')));
                }
            }
            return Err(e);
        }
        let ghost m4 = tree@;
        proof {
            assert(m4 == m3.insert(split_chars("dev/tty"@, '/'), NodeV::BindFile { source: "/dev/tty"@ }));
            assert(preserves_entries(m, m4));
            assert(m4.dom().contains(dev1) && dir_like(m4[dev1]));
            assert forall|q: Seq<Seq<char>>| #[trigger] m4.dom().contains(q) implies m.dom().contains(q) || q == dev1 || q == split_chars("dev/full"@, '/') || q == split_chars("dev/null"@, '/') || q == split_chars("dev/random"@, '/') || q == split_chars("dev/tty"@, '/') by {
                if q != split_chars("dev/tty"@, '/') {
                    assert(m3.dom().contains(q));
                }
            }
        }
        proof {
            assert(with_dirs(m4, dev1, 0o755u32) == m4) by {
                lemma_with_dirs_all_present(m4, dev1, 0o755u32);
            }
        }
        if let Err(e) = tree.bind_file("dev/urandom", "/dev/urandom") {
            proof {
                assert(!dev_populate_ok(m, console is Some)) by {
                    lemma_prefix_ok_two(m4, split_chars("dev/urandom"@, '/'), dev1);
                    assert(m4.dom().contains(split_chars("dev/urandom"@, '/')));
                    assert(m.dom().contains(split_chars("dev/urandom"@, '/')));
                }
            }
            return Err(e);
        }
        let ghost m5 = tree@;
        proof {
            assert(m5 == m4.insert(split_chars("dev/urandom"@, '/'), NodeV::BindFile { source: "/dev/urandom"@ }));
            assert(preserves_entries(m, m5));
            assert(m5.dom().contains(dev1) && dir_like(m5[dev1]));
            assert forall|q: Seq<Seq<char>>| #[trigger] m5.dom().contains(q) implies m.dom().contains(q) || q == dev1 || q == split_chars("dev/full"@, '/') || q == split_chars("dev/null"@, '/') || q == split_chars("dev/random"@, '/') || q == split_chars("dev/tty"@, '/') || q == split_chars("dev/urandom"@, '/') by {
                if q != split_chars("dev/urandom"@, '/') {
                    assert(m4.dom().contains(q));
                }
            }
        }
        proof {
            assert(with_dirs(m5, dev1, 0o755u32) == m5) by {
                lemma_with_dirs_all_present(m5, dev1, 0o755u32);
            }
        }
        if let Err(e) = tree.bind_file("dev/zero", "/dev/zero") {
            proof {
                assert(!dev_populate_ok(m, console is Some)) by {
                    lemma_prefix_ok_two(m5, split_chars("dev/zero"@, '/'), dev1);
                    assert(m5.dom().contains(split_chars("dev/zero"@, '/')));
                    assert(m.dom().contains(split_chars("dev/zero"@, '/')));
                }
            }
            return Err(e);
        }
        let ghost m6 = tree@;
        proof {
            assert(m6 == m5.insert(split_chars("dev/zero"@, '/'), NodeV::BindFile { source: "/dev/zero"@ }));
            assert(preserves_entries(m, m6));
            assert(m6.dom().contains(dev1) && dir_like(m6[dev1]));
            assert forall|q: Seq<Seq<char>>| #[trigger] m6.dom().contains(q) implies m.dom().contains(q) || q == dev1 || q == split_chars("dev/full"@, '/') || q == split_chars("dev/null"@, '/') || q == split_chars("dev/random"@, '/') || q == split_chars("dev/tty"@, '/') || q == split_chars("dev/urandom"@, '/') || q == split_chars("dev/zero"@, '/') by {
                if q != split_chars("dev/zero"@, '/') {
                    assert(m5.dom().contains(q));
                }
            }
        }
        if let Some(name) = console {
            proof {
                assert(with_dirs(m6, dev1, 0o755u32) == m6) by {
                    lemma_with_dirs_all_present(m6, dev1, 0o755u32);
                }
            }
            if let Err(e) = tree.bind_file("dev/console", name) {
                proof {
                    assert(!dev_populate_ok(m, console is Some)) by {
                        lemma_prefix_ok_two(m6, split_chars("dev/console"@, '/'), dev1);
                        assert(m6.dom().contains(split_chars("dev/console"@, '/')));
                        assert(m.dom().contains(split_chars("dev/console"@, '/')));
                    }
                }
                return Err(e);
            }
            proof {
                assert(tree@ == m6.insert(split_chars("dev/console"@, '/'), NodeV::BindFile { source: name@ }));
            }
        }
        let ghost mc = tree@;
        proof {
            assert(preserves_entries(m, mc));
            assert(mc.dom().contains(dev1) && dir_like(mc[dev1]));
            assert forall|q: Seq<Seq<char>>| #[trigger] mc.dom().contains(q) implies m.dom().contains(q) || q == dev1 || q == split_chars("dev/full"@, '/') || q == split_chars("dev/null"@, '/') || q == split_chars("dev/random"@, '/') || q == split_chars("dev/tty"@, '/') || q == split_chars("dev/urandom"@, '/') || q == split_chars("dev/zero"@, '/') || q == split_chars("dev/console"@, '/') by {
                if !m6.dom().contains(q) {
                    assert(q == split_chars("dev/console"@, '/'));
                }
            }
            assert(console matches Some(c) ==> mc.dom().contains(split_chars("dev/console"@, '/'))
                && mc[split_chars("dev/console"@, '/')] == (NodeV::BindFile { source: c@ }));
            assert(mc.dom().contains(split_chars("dev/full"@, '/')) && mc[split_chars("dev/full"@, '/')] == m6[split_chars("dev/full"@, '/')]);
            assert(mc.dom().contains(split_chars("dev/null"@, '/')) && mc[split_chars("dev/null"@, '/')] == m6[split_chars("dev/null"@, '/')]);
            assert(mc.dom().contains(split_chars("dev/random"@, '/')) && mc[split_chars("dev/random"@, '/')] == m6[split_chars("dev/random"@, '/')]);
            assert(mc.dom().contains(split_chars("dev/tty"@, '/')) && mc[split_chars("dev/tty"@, '/')] == m6[split_chars("dev/tty"@, '/')]);
            assert(mc.dom().contains(split_chars("dev/urandom"@, '/')) && mc[split_chars("dev/urandom"@, '/')] == m6[split_chars("dev/urandom"@, '/')]);
            assert(mc.dom().contains(split_chars("dev/zero"@, '/')) && mc[split_chars("dev/zero"@, '/')] == m6[split_chars("dev/zero"@, '/')]);
        }
        if let Err(e) = tree.symlink("dev/stdin", "/proc/self/fd/0") {
            proof {
                assert(!dev_populate_ok(m, console is Some)) by {
                    lemma_prefix_ok_two(mc, split_chars("dev/stdin"@, '/'), dev1);
                    lemma_parents_present_two(mc, split_chars("dev/stdin"@, '/'), dev1);
                    assert(mc.dom().contains(split_chars("dev/stdin"@, '/')));
                    assert(m.dom().contains(split_chars("dev/stdin"@, '/')));
                }
            }
            return Err(e);
        }
        let ghost s1 = tree@;
        proof {
            assert(s1 == mc.insert(split_chars("dev/stdin"@, '/'), NodeV::Symlink { target: "/proc/self/fd/0"@ }));
            assert(preserves_entries(m, s1));
            assert(s1.dom().contains(dev1) && dir_like(s1[dev1]));
            assert forall|q: Seq<Seq<char>>| #[trigger] s1.dom().contains(q) implies m.dom().contains(q) || q == dev1 || q == split_chars("dev/full"@, '/') || q == split_chars("dev/null"@, '/') || q == split_chars("dev/random"@, '/') || q == split_chars("dev/tty"@, '/') || q == split_chars("dev/urandom"@, '/') || q == split_chars("dev/zero"@, '/') || q == split_chars("dev/console"@, '/') || q == split_chars("dev/stdin"@, '/') by {
                if q != split_chars("dev/stdin"@, '/') {
                    assert(mc.dom().contains(q));
                }
            }
        }
        if let Err(e) = tree.symlink("dev/stdout", "/proc/self/fd/1") {
            proof {
                assert(!dev_populate_ok(m, console is Some)) by {
                    lemma_prefix_ok_two(s1, split_chars("dev/stdout"@, '/'), dev1);
                    lemma_parents_present_two(s1, split_chars("dev/stdout"@, '/'), dev1);
                    assert(s1.dom().contains(split_chars("dev/stdout"@, '/')));
                    assert(m.dom().contains(split_chars("dev/stdout"@, '/')));
                }
            }
            return Err(e);
        }
        let ghost s2 = tree@;
        proof {
            assert(s2 == s1.insert(split_chars("dev/stdout"@, '/'), NodeV::Symlink { target: "/proc/self/fd/1"@ }));
            assert(preserves_entries(m, s2));
            assert(s2.dom().contains(dev1) && dir_like(s2[dev1]));
            assert forall|q: Seq<Seq<char>>| #[trigger] s2.dom().contains(q) implies m.dom().contains(q) || q == dev1 || q == split_chars("dev/full"@, '/') || q == split_chars("dev/null"@, '/') || q == split_chars("dev/random"@, '/') || q == split_chars("dev/tty"@, '/') || q == split_chars("dev/urandom"@, '/') || q == split_chars("dev/zero"@, '/') || q == split_chars("dev/console"@, '/') || q == split_chars("dev/stdin"@, '/') || q == split_chars("dev/stdout"@, '/') by {
                if q != split_chars("dev/stdout"@, '/') {
                    assert(s1.dom().contains(q));
                }
            }
        }
        if let Err(e) = tree.symlink("dev/stderr", "/proc/self/fd/2") {
            proof {
                assert(!dev_populate_ok(m, console is Some)) by {
                    lemma_prefix_ok_two(s2, split_chars("dev/stderr"@, '/'), dev1);
                    lemma_parents_present_two(s2, split_chars("dev/stderr"@, '/'), dev1);
                    assert(s2.dom().contains(split_chars("dev/stderr"@, '/')));
                    assert(m.dom().contains(split_chars("dev/stderr"@, '/')));
                }
            }
            return Err(e);
        }
        let ghost s3 = tree@;
        proof {
            assert(s3 == s2.insert(split_chars("dev/stderr"@, '/'), NodeV::Symlink { target: "/proc/self/fd/2"@ }));
            assert(preserves_entries(m, s3));
            assert(s3.dom().contains(dev1) && dir_like(s3[dev1]));
            assert forall|q: Seq<Seq<char>>| #[trigger] s3.dom().contains(q) implies m.dom().contains(q) || q == dev1 || q == split_chars("dev/full"@, '/') || q == split_chars("dev/null"@, '/') || q == split_chars("dev/random"@, '/') || q == split_chars("dev/tty"@, '/') || q == split_chars("dev/urandom"@, '/') || q == split_chars("dev/zero"@, '/') || q == split_chars("dev/console"@, '/') || q == split_chars("dev/stdin"@, '/') || q == split_chars("dev/stdout"@, '/') || q == split_chars("dev/stderr"@, '/') by {
                if q != split_chars("dev/stderr"@, '/') {
                    assert(s2.dom().contains(q));
                }
            }
        }
        if let Err(e) = tree.symlink("dev/fd", "/proc/self/fd") {
            proof {
                assert(!dev_populate_ok(m, console is Some)) by {
                    lemma_prefix_ok_two(s3, split_chars("dev/fd"@, '/'), dev1);
                    lemma_parents_present_two(s3, split_chars("dev/fd"@, '/'), dev1);
                    assert(s3.dom().contains(split_chars("dev/fd"@, '/')));
                    assert(m.dom().contains(split_chars("dev/fd"@, '/')));
                }
            }
            return Err(e);
        }
        let ghost s4 = tree@;
        proof {
            assert(s4 == s3.insert(split_chars("dev/fd"@, '/'), NodeV::Symlink { target: "/proc/self/fd"@ }));
            assert(preserves_entries(m, s4));
            assert(s4.dom().contains(dev1) && dir_like(s4[dev1]));
            assert forall|q: Seq<Seq<char>>| #[trigger] s4.dom().contains(q) implies m.dom().contains(q) || q == dev1 || q == split_chars("dev/full"@, '/') || q == split_chars("dev/null"@, '/') || q == split_chars("dev/random"@, '/') || q == split_chars("dev/tty"@, '/') || q == split_chars("dev/urandom"@, '/') || q == split_chars("dev/zero"@, '/') || q == split_chars("dev/console"@, '/') || q == split_chars("dev/stdin"@, '/') || q == split_chars("dev/stdout"@, '/') || q == split_chars("dev/stderr"@, '/') || q == split_chars("dev/fd"@, '/') by {
                if q != split_chars("dev/fd"@, '/') {
                    assert(s3.dom().contains(q));
                }
            }
        }
        if let Err(e) = tree.symlink("dev/ptmx", "pts/ptmx") {
            proof {
                assert(!dev_populate_ok(m, console is Some)) by {
                    lemma_prefix_ok_two(s4, split_chars("dev/ptmx"@, '/'), dev1);
                    lemma_parents_present_two(s4, split_chars("dev/ptmx"@, '/'), dev1);
                    assert(s4.dom().contains(split_chars("dev/ptmx"@, '/')));
                    assert(m.dom().contains(split_chars("dev/ptmx"@, '/')));
                }
            }
            return Err(e);
        }
        let ghost s5 = tree@;
        proof {
            assert(s5 == s4.insert(split_chars("dev/ptmx"@, '/'), NodeV::Symlink { target: "pts/ptmx"@ }));
            assert(preserves_entries(m, s5));
            assert(s5.dom().contains(dev1) && dir_like(s5[dev1]));
            assert forall|q: Seq<Seq<char>>| #[trigger] s5.dom().contains(q) implies m.dom().contains(q) || q == dev1 || q == split_chars("dev/full"@, '/') || q == split_chars("dev/null"@, '/') || q == split_chars("dev/random"@, '/') || q == split_chars("dev/tty"@, '/') || q == split_chars("dev/urandom"@, '/') || q == split_chars("dev/zero"@, '/') || q == split_chars("dev/console"@, '/') || q == split_chars("dev/stdin"@, '/') || q == split_chars("dev/stdout"@, '/') || q == split_chars("dev/stderr"@, '/') || q == split_chars("dev/fd"@, '/') || q == split_chars("dev/ptmx"@, '/') by {
                if q != split_chars("dev/ptmx"@, '/') {
                    assert(s4.dom().contains(q));
                }
            }
        }
        proof {
            assert(with_dirs(s5, dev1, 0o755u32) == s5) by {
                lemma_with_dirs_all_present(s5, dev1, 0o755u32);
            }
        }
        let pts = crate::mountplan::devpts_plan();
        let pts_handle = pts.mount();
        let ghost pts_plan = pts_handle.plan@;
        if let Err(e) = tree.mount("dev/pts", pts_handle) {
            proof {
                assert(!dev_populate_ok(m, console is Some)) by {
                    lemma_prefix_ok_two(s5, split_chars("dev/pts"@, '/'), dev1);
                    assert(s5.dom().contains(split_chars("dev/pts"@, '/')));
                    assert(m.dom().contains(split_chars("dev/pts"@, '/')));
                }
            }
            return Err(e);
        }
        let ghost mp = tree@;
        proof {
            assert(pts_plan == devpts_plan_view());
            assert(mp == s5.insert(split_chars("dev/pts"@, '/'), NodeV::Mount { plan: devpts_plan_view() }));
            assert(preserves_entries(m, mp));
            assert(mp.dom().contains(dev1) && dir_like(mp[dev1]));
            assert forall|q: Seq<Seq<char>>| #[trigger] mp.dom().contains(q) implies m.dom().contains(q) || q == dev1 || q == split_chars("dev/full"@, '/') || q == split_chars("dev/null"@, '/') || q == split_chars("dev/random"@, '/') || q == split_chars("dev/tty"@, '/') || q == split_chars("dev/urandom"@, '/') || q == split_chars("dev/zero"@, '/') || q == split_chars("dev/console"@, '/') || q == split_chars("dev/stdin"@, '/') || q == split_chars("dev/stdout"@, '/') || q == split_chars("dev/stderr"@, '/') || q == split_chars("dev/fd"@, '/') || q == split_chars("dev/ptmx"@, '/') || q == split_chars("dev/pts"@, '/') by {
                if q != split_chars("dev/pts"@, '/') {
                    assert(s5.dom().contains(q));
                }
            }
        }
        proof {
            assert(with_dirs(mp, dev1, 0o755u32) == mp) by {
                lemma_with_dirs_all_present(mp, dev1, 0o755u32);
            }
        }
        let shm = crate::mountplan::tmpfs_plan("shm", 0o1777);
        let shm_handle = shm.mount();
        let ghost shm_plan = shm_handle.plan@;
        if let Err(e) = tree.mount("dev/shm", shm_handle) {
            proof {
                assert(!dev_populate_ok(m, console is Some)) by {
                    lemma_prefix_ok_two(mp, split_chars("dev/shm"@, '/'), dev1);
                    assert(mp.dom().contains(split_chars("dev/shm"@, '/')));
                    assert(m.dom().contains(split_chars("dev/shm"@, '/')));
                }
            }
            return Err(e);
        }
        proof {
            assert(shm_plan == shm_plan_view());
            assert(tree@ == mp.insert(split_chars("dev/shm"@, '/'), NodeV::Mount { plan: shm_plan_view() }));
            assert(preserves_entries(m, tree@));
            assert(dev_populate_ok(m, console is Some));
            assert forall|q: Seq<Seq<char>>| #[trigger] tree@.dom().contains(q) implies (
            m.dom().contains(q) || (q.len() >= 1 && q[0] == "dev"@)) by {
                if q != split_chars("dev/shm"@, '/') {
                    assert(mp.dom().contains(q));
                }
                assert(dev1[0] == "dev"@);
                assert(split_chars("dev/full"@, '/')[0] == "dev"@);
                assert(split_chars("dev/null"@, '/')[0] == "dev"@);
                assert(split_chars("dev/random"@, '/')[0] == "dev"@);
                assert(split_chars("dev/tty"@, '/')[0] == "dev"@);
                assert(split_chars("dev/urandom"@, '/')[0] == "dev"@);
                assert(split_chars("dev/zero"@, '/')[0] == "dev"@);
                assert(split_chars("dev/console"@, '/')[0] == "dev"@);
                assert(split_chars("dev/stdin"@, '/')[0] == "dev"@);
                assert(split_chars("dev/stdout"@, '/')[0] == "dev"@);
                assert(split_chars("dev/stderr"@, '/')[0] == "dev"@);
                assert(split_chars("dev/fd"@, '/')[0] == "dev"@);
                assert(split_chars("dev/ptmx"@, '/')[0] == "dev"@);
                assert(split_chars("dev/pts"@, '/')[0] == "dev"@);
                assert(split_chars("dev/shm"@, '/')[0] == "dev"@);
            }
            assert(tree@[split_chars("dev/full"@, '/')] == mc[split_chars("dev/full"@, '/')]);
            assert(tree@[split_chars("dev/null"@, '/')] == mc[split_chars("dev/null"@, '/')]);
            assert(tree@[split_chars("dev/random"@, '/')] == mc[split_chars("dev/random"@, '/')]);
            assert(tree@[split_chars("dev/tty"@, '/')] == mc[split_chars("dev/tty"@, '/')]);
            assert(tree@[split_chars("dev/urandom"@, '/')] == mc[split_chars("dev/urandom"@, '/')]);
            assert(tree@[split_chars("dev/zero"@, '/')] == mc[split_chars("dev/zero"@, '/')]);
            assert(console matches Some(c) ==> tree@.dom().contains(split_chars("dev/console"@, '/'))
                && tree@[split_chars("dev/console"@, '/')] == (NodeV::BindFile { source: c@ }));
            assert(tree@[split_chars("dev/stdin"@, '/')] == s1[split_chars("dev/stdin"@, '/')]);
            assert(tree@[split_chars("dev/stdout"@, '/')] == s2[split_chars("dev/stdout"@, '/')]);
            assert(tree@[split_chars("dev/stderr"@, '/')] == s3[split_chars("dev/stderr"@, '/')]);
            assert(tree@[split_chars("dev/fd"@, '/')] == s4[split_chars("dev/fd"@, '/')]);
            assert(tree@[split_chars("dev/ptmx"@, '/')] == s5[split_chars("dev/ptmx"@, '/')]);
            assert(tree@[split_chars("dev/pts"@, '/')] == mp[split_chars("dev/pts"@, '/')]);
        }
        Ok(())
    }

    /// Populates `/etc`: host name-resolution and clock files bound in,
    /// and the synthesized identity and loader files. It succeeds exactly
    /// when nothing non-directory stands at `etc` and none of the five
    /// files it creates exists yet.
    pub fn populate_etc(&self, tree: &mut DirBuilder) -> (r: Result<(), Error>)
        requires
            old(tree).wf(),
        ensures
            final(tree).wf(),
            r is Ok <==> etc_populate_ok(old(tree)@),
            r is Ok ==> preserves_entries(old(tree)@, final(tree)@),
            r is Ok ==> forall|q: Seq<Seq<char>>| #[trigger] final(tree)@.dom().contains(q) ==> (
            old(tree)@.dom().contains(q) || (q.len() >= 1 && q[0] == "etc"@)),
            r is Ok ==> final(tree)@.dom().contains(split_chars("etc/resolv.conf"@, '/')) && final(tree)@[split_chars("etc/resolv.conf"@, '/')] == (NodeV::BindFile {
                source: "/etc/resolv.conf"@,
            }),
            r is Ok ==> final(tree)@.dom().contains(split_chars("etc/localtime"@, '/')) && final(tree)@[split_chars("etc/localtime"@, '/')] == (NodeV::BindFile {
                source: "/etc/localtime"@,
            }),
            r is Ok ==> final(tree)@.dom().contains(split_chars("etc/passwd"@, '/')) && final(tree)@[split_chars("etc/passwd"@, '/')] == (NodeV::File {
                mode: 0o644u32,
                content: "root:x:0:0:root:/root:/bin/bash\n"@ + self.username@ + ":x:"@
                    + dec_chars(self.uid as nat) + ":"@ + dec_chars(self.gid as nat) + ":"@
                    + self.gecos@ + ":"@ + self.home@
                    + ":/bin/bash\nhost:x:65534:65534:Host files:/:/\n"@,
            }),
            r is Ok ==> final(tree)@.dom().contains(split_chars("etc/group"@, '/')) && final(tree)@[
                split_chars("etc/group"@, '/')] == (NodeV::File {
                mode: 0o644u32,
                content: "root:x:0:0:\n"@ + self.groupname@ + ":x:"@ + dec_chars(self.gid as nat)
                    + ":0:\nhost:x:65534:0:\n"@,
            }),
            r is Ok ==> final(tree)@.dom().contains(split_chars("etc/ld.so.conf"@, '/')) && final(tree)@[split_chars("etc/ld.so.conf"@, '/')] == (NodeV::File {
                mode: 0o644u32,
                content: (
                "include /run/flatpak/ld.so.conf.d/app-*.conf\ninclude /app/etc/ld.so.conf\ninclude /app/etc/ld.so.conf.d/*.conf\n/app/lib64\n/app/lib\ninclude /run/flatpak/ld.so.conf.d/runtime-*.conf\n/usr/lib64/pipewire-0.3/jack/\n")@,
            }),
    {
        let ghost m = tree@;
        let ghost etc = seq!["etc"@];
        proof {
            lemma_etc_paths();
            assert(split_chars("etc/resolv.conf"@, '/').take(1) =~= etc);
            assert(split_chars("etc/localtime"@, '/').take(1) =~= etc);
            assert(split_chars("etc/passwd"@, '/').take(1) =~= etc);
            assert(split_chars("etc/group"@, '/').take(1) =~= etc);
            assert(split_chars("etc/ld.so.conf"@, '/').take(1) =~= etc);
            assert(split_chars("etc/resolv.conf"@, '/').drop_last() =~= etc);
            assert(split_chars("etc/localtime"@, '/').drop_last() =~= etc);
            assert(split_chars("etc/passwd"@, '/').drop_last() =~= etc);
            assert(split_chars("etc/group"@, '/').drop_last() =~= etc);
            assert(split_chars("etc/ld.so.conf"@, '/').drop_last() =~= etc);
        }
        if let Err(e) = tree.bind_file("etc/resolv.conf", "/etc/resolv.conf") {
            return Err(e);
        }
        let ghost m1 = tree@;
        proof {
            lemma_with_dirs_props(m, etc, 0o755u32);
            assert(etc_step_kept(m, m1, etc));
        }
        if let Err(e) = tree.bind_file("etc/localtime", "/etc/localtime") {
            proof {
                assert(!etc_populate_ok(m)) by {
                    let p = split_chars("etc/localtime"@, '/');
                    lemma_prefix_ok_two(m1, p, etc);
                    assert(m1.dom().contains(p));
                    assert(m.dom().contains(p));
                }
            }
            return Err(e);
        }
        let ghost m2 = tree@;
        proof {
            assert(with_dirs(m1, etc, 0o755u32) == m1) by {
                lemma_with_dirs_all_present(m1, etc, 0o755u32);
            }
            assert(etc_step_kept(m, m2, etc));
        }
        let passwd = passwd_content(
            self.username.as_str(),
            self.uid,
            self.gid,
            self.gecos.as_str(),
            self.home.as_str(),
        );
        if let Err(e) = tree.write("etc/passwd", passwd.as_str()) {
            proof {
                assert(!etc_populate_ok(m)) by {
                    let p = split_chars("etc/passwd"@, '/');
                    lemma_prefix_ok_two(m2, p, etc);
                    assert(m2.dom().contains(p));
                    assert(m.dom().contains(p));
                }
            }
            return Err(e);
        }
        let ghost m_passwd = tree@;
        proof {
            assert(with_dirs(m2, etc, 0o755u32) == m2) by {
                lemma_with_dirs_all_present(m2, etc, 0o755u32);
            }
            assert(etc_step_kept(m, m_passwd, etc));
        }
        let group = group_content(self.groupname.as_str(), self.gid);
        if let Err(e) = tree.write("etc/group", group.as_str()) {
            proof {
                assert(!etc_populate_ok(m)) by {
                    let p = split_chars("etc/group"@, '/');
                    lemma_prefix_ok_two(m_passwd, p, etc);
                    assert(m_passwd.dom().contains(p));
                    assert(m.dom().contains(p));
                }
            }
            return Err(e);
        }
        let ghost m_group = tree@;
        proof {
            assert(with_dirs(m_passwd, etc, 0o755u32) == m_passwd) by {
                lemma_with_dirs_all_present(m_passwd, etc, 0o755u32);
            }
            assert(etc_step_kept(m, m_group, etc));
        }
        let ld = ld_so_conf_content();
        if let Err(e) = tree.write("etc/ld.so.conf", ld.as_str()) {
            proof {
                assert(!etc_populate_ok(m)) by {
                    let p = split_chars("etc/ld.so.conf"@, '/');
                    lemma_prefix_ok_two(m_group, p, etc);
                    assert(m_group.dom().contains(p));
                    assert(m.dom().contains(p));
                }
            }
            return Err(e);
        }
        proof {
            assert(with_dirs(m_group, etc, 0o755u32) == m_group) by {
                lemma_with_dirs_all_present(m_group, etc, 0o755u32);
            }
            assert(etc_populate_ok(m));
            let p_resolv = split_chars("etc/resolv.conf"@, '/');
            let p_lt = split_chars("etc/localtime"@, '/');
            let p_passwd = split_chars("etc/passwd"@, '/');
            let p_group = split_chars("etc/group"@, '/');
            let p_ld = split_chars("etc/ld.so.conf"@, '/');
            // each later step is one insert over the step before
            assert(m2 == m1.insert(p_lt, NodeV::BindFile { source: "/etc/localtime"@ }));
            assert(m_passwd == m2.insert(
                p_passwd,
                NodeV::File { mode: 0o644u32, content: passwd@ },
            ));
            assert(m_group == m_passwd.insert(
                p_group,
                NodeV::File { mode: 0o644u32, content: group@ },
            ));
            assert(tree@ == m_group.insert(p_ld, NodeV::File { mode: 0o644u32, content: ld@ }));
            // the earlier files keep their nodes through the later inserts
            assert(tree@[p_resolv] == m1[p_resolv]);
            assert(tree@[p_lt] == m2[p_lt]);
            assert(tree@[p_passwd] == m_passwd[p_passwd]);
            assert(tree@[p_group] == m_group[p_group]);
            // entries of the incoming tree keep their nodes: the five
            // targets are absent from it, so no insert lands on one
            assert forall|q: Seq<Seq<char>>| #[trigger] m.dom().contains(q) implies
                tree@.dom().contains(q) && tree@[q] == m[q] by {
                assert(m1.dom().contains(q) && m1[q] == m[q]);
            }
            // everything new sits under etc
            assert forall|q: Seq<Seq<char>>| #[trigger] tree@.dom().contains(q) implies (
            m.dom().contains(q) || (q.len() >= 1 && q[0] == "etc"@)) by {
                if q != p_ld && q != p_group && q != p_passwd && q != p_lt && q != p_resolv {
                    assert(with_dirs(m, etc, 0o755u32).dom().contains(q));
                    if !m.dom().contains(q) {
                        assert(crate::fstree::is_prefix(q, etc));
                        assert(q =~= etc);
                    }
                } else {
                    assert(q[0] == "etc"@);
                }
            }
        }
        Ok(())
    }

    /// Populates `/run/user/{uid}`: the host runtime directory bound whole
    /// when shared; otherwise a fresh private tmpfs owned by the target
    /// identity, holding the wayland socket and the session bus as asked.
    /// It succeeds exactly when nothing non-directory blocks `run/user` and
    /// the runtime directory does not exist yet.
    pub fn populate_run_user(&mut self, tree: &mut DirBuilder, wayland: &WaylandMode, host_runtime_dir: &str) -> (r:
        Result<(), Error>)
        requires
            old(tree).wf(),
        ensures
            final(tree).wf(),
            same_but_env(old(self), final(self)),
            r is Ok <==> run_user_populate_ok(old(tree)@, old(self).uid),
            r is Ok ==> preserves_entries(old(tree)@, final(tree)@),
            r is Ok ==> forall|q: Seq<Seq<char>>| #[trigger] final(tree)@.dom().contains(q) ==> (
            old(tree)@.dom().contains(q) || (q.len() >= 1 && q[0] == "run"@)),
            r is Ok && old(self).share.xdg_runtime_dir ==> final(self).env@ == old(
                self,
            ).env@.insert(
                "XDG_RUNTIME_DIR"@,
                Some("/run/user/"@ + dec_chars(old(self).uid as nat)),
            ),
            r is Ok && !old(self).share.xdg_runtime_dir ==> final(self).env@ == old(
                self,
            ).env@.insert(
                "XDG_RUNTIME_DIR"@,
                Some("/run/user/"@ + dec_chars(old(self).uid as nat)),
            ).insert("WAYLAND_DISPLAY"@, wayland_env(wayland)),
            old(self).share.xdg_runtime_dir ==> (r is Ok ==> final(tree)@.dom().contains(
                run_user_base(old(self).uid),
            ) && final(tree)@[run_user_base(old(self).uid)] == (NodeV::BindDir {
                source: host_runtime_dir@,
            })),
            !old(self).share.xdg_runtime_dir ==> (r is Ok ==> final(tree)@.dom().contains(
                run_user_base(old(self).uid),
            ) && final(tree)@[run_user_base(old(self).uid)] == (NodeV::Mount {
                plan: xdg_plan_view(old(self).uid, old(self).gid),
            })),
            wayland matches WaylandMode::Fallback(sock) ==> ((r is Ok && !old(
                self,
            ).share.xdg_runtime_dir) ==> final(tree)@.dom().contains(
                run_user_base(old(self).uid).push("wayland-0"@),
            ) && final(tree)@[run_user_base(old(self).uid).push("wayland-0"@)] == (
            NodeV::BindFile { source: sock@ })),
            (!old(self).share.xdg_runtime_dir && old(self).share.session_bus) ==> (r is Ok
                ==> final(tree)@.dom().contains(run_user_base(old(self).uid).push("bus"@))
                && final(tree)@[run_user_base(old(self).uid).push("bus"@)] == (NodeV::BindFile {
                source: host_runtime_dir@ + "/bus"@,
            })),
    {
        let ghost m = tree@;
        let ghost bpath = run_user_base(self.uid);
        let ghost run1 = seq!["run"@];
        let ghost run2 = seq!["run"@, "user"@];
        proof {
            lemma_run_user_paths(self.uid);
        }
        let uid_dec = u32_to_dec(self.uid);
        let mut base = String::new();
        base.append("run/user/");
        base.append(uid_dec.as_str());
        let mut inside = String::new();
        inside.append("/run/user/");
        inside.append(uid_dec.as_str());
        self.env.setenv("XDG_RUNTIME_DIR", inside);
        if self.share.xdg_runtime_dir {
            if let Err(e) = tree.bind_dir(base.as_str(), host_runtime_dir) {
                return Err(e);
            }
            proof {
                lemma_with_dirs_props(m, bpath.drop_last(), 0o755u32);
                assert(tree@ == with_dirs(m, bpath.drop_last(), 0o755u32).insert(
                    bpath,
                    NodeV::BindDir { source: host_runtime_dir@ },
                ));
                assert(preserves_entries(m, tree@));
                assert(run_user_populate_ok(m, self.uid));
                assert forall|q: Seq<Seq<char>>| #[trigger] tree@.dom().contains(q) implies (
                m.dom().contains(q) || (q.len() >= 1 && q[0] == "run"@)) by {
                    if q != bpath {
                        assert(with_dirs(m, bpath.drop_last(), 0o755u32).dom().contains(q));
                        if !m.dom().contains(q) {
                            assert(crate::fstree::is_prefix(q, bpath.drop_last()));
                            assert(q == bpath.drop_last().take(q.len() as int));
                            assert(q[0] == bpath.drop_last()[0]);
                        }
                    } else {
                        assert(q[0] == "run"@);
                    }
                }
            }
            return Ok(());
        }
        let plan = FsPlan::open("tmpfs").set_string("source", "xdg-runtime-dir").set_mode(
            "mode",
            0o700,
        ).set_int("uid", self.uid).set_int("gid", self.gid);
        let handle = plan.mount();
        let ghost plan_v = handle.plan@;
        if let Err(e) = tree.mount(base.as_str(), handle) {
            return Err(e);
        }
        let ghost mb = tree@;
        proof {
            assert(plan_v.options =~= xdg_plan_view(self.uid, self.gid).options);
            assert(plan_v == xdg_plan_view(self.uid, self.gid));
            lemma_with_dirs_props(m, bpath.drop_last(), 0o755u32);
            assert(mb == with_dirs(m, bpath.drop_last(), 0o755u32).insert(
                bpath,
                NodeV::Mount { plan: plan_v },
            ));
            assert(preserves_entries(m, mb));
            assert(run_user_populate_ok(m, self.uid));
            // the two prefix directories stand, and the base is the mount
            assert(mb.dom().contains(run1) && dir_like(mb[run1])) by {
                assert(bpath.drop_last().take(1) =~= run1);
                assert(with_dirs(m, bpath.drop_last(), 0o755u32).dom().contains(
                    bpath.drop_last().take(1),
                ));
                if m.dom().contains(run1) {
                    assert(with_dirs(m, bpath.drop_last(), 0o755u32)[run1] == m[run1]);
                }
            }
            assert(mb.dom().contains(run2) && dir_like(mb[run2])) by {
                assert(bpath.drop_last().take(2) =~= run2);
                assert(with_dirs(m, bpath.drop_last(), 0o755u32).dom().contains(
                    bpath.drop_last().take(2),
                ));
                if m.dom().contains(run2) {
                    assert(with_dirs(m, bpath.drop_last(), 0o755u32)[run2] == m[run2]);
                }
            }
            assert(mb.dom().contains(bpath) && dir_like(mb[bpath]));
            assert forall|q: Seq<Seq<char>>| #[trigger] mb.dom().contains(q) implies (
            m.dom().contains(q) || q == run1 || q == run2 || q == bpath) by {
                if q != bpath {
                    assert(with_dirs(m, bpath.drop_last(), 0o755u32).dom().contains(q));
                    if !m.dom().contains(q) {
                        assert(crate::fstree::is_prefix(q, bpath.drop_last()));
                        if q.len() == 1 {
                            assert(q =~= run1);
                        } else {
                            assert(q =~= run2);
                        }
                    }
                }
            }
        }
        let ghost wpath = run_user_base(self.uid).push("wayland-0"@);
        let ghost buspath = run_user_base(self.uid).push("bus"@);
        match wayland {
            WaylandMode::Unavailable => {
                self.env.unsetenv("WAYLAND_DISPLAY");
            },
            WaylandMode::Fallback(host_socket) => {
                let mut p = base.clone();
                p.append("/wayland-0");
                if let Err(e) = tree.bind_file(p.as_str(), host_socket.as_str()) {
                    proof {
                        assert(!run_user_populate_ok(m, self.uid)) by {
                            lemma_prefix_ok_four(mb, wpath);
                            assert(mb.dom().contains(wpath));
                            assert(m.dom().contains(wpath));
                            crate::fstree::lemma_wf_ancestors(m, wpath);
                            assert(m.dom().contains(wpath.take(3)));
                        }
                    }
                    return Err(e);
                }
                proof {
                    assert(with_dirs(mb, wpath.drop_last(), 0o755u32) == mb) by {
                        assert(bpath.take(3) =~= bpath);
                        assert forall|k: int| 0 < k <= bpath.len() implies mb.dom().contains(
                            #[trigger] bpath.take(k),
                        ) by {
                            assert(k == 1 || k == 2 || k == 3);
                        }
                        lemma_with_dirs_all_present(mb, bpath, 0o755u32);
                    }
                    assert(tree@ == mb.insert(
                        wpath,
                        NodeV::BindFile { source: host_socket@ },
                    ));
                }
                self.env.setenv("WAYLAND_DISPLAY", "wayland-0".to_owned());
            },
            WaylandMode::Secure => {
                self.env.setenv("WAYLAND_DISPLAY", "wayland-0".to_owned());
            },
        }
        let ghost mw = tree@;
        proof {
            assert(preserves_entries(m, mw));
            assert(mw.dom().contains(run1) && dir_like(mw[run1]));
            assert(mw.dom().contains(run2) && dir_like(mw[run2]));
            assert(mw.dom().contains(bpath) && dir_like(mw[bpath]));
            assert(mw.dom().contains(bpath) && mw[bpath] == mb[bpath]);
            assert forall|q: Seq<Seq<char>>| #[trigger] mw.dom().contains(q) implies (
            m.dom().contains(q) || q == run1 || q == run2 || q == bpath || q == wpath) by {
                if !mb.dom().contains(q) {
                    assert(q == wpath);
                }
            }
        }
        if self.share.session_bus {
            let mut p = base.clone();
            p.append("/bus");
            let mut hostbus = host_runtime_dir.to_owned();
            hostbus.append("/bus");
            if let Err(e) = tree.bind_file(p.as_str(), hostbus.as_str()) {
                proof {
                    assert(!run_user_populate_ok(m, self.uid)) by {
                        lemma_prefix_ok_four(mw, buspath);
                        assert(mw.dom().contains(buspath));
                        assert(m.dom().contains(buspath));
                        crate::fstree::lemma_wf_ancestors(m, buspath);
                        assert(m.dom().contains(buspath.take(3)));
                    }
                }
                return Err(e);
            }
            proof {
                assert(with_dirs(mw, buspath.drop_last(), 0o755u32) == mw) by {
                    assert(bpath.take(3) =~= bpath);
                    assert forall|k: int| 0 < k <= bpath.len() implies mw.dom().contains(
                        #[trigger] bpath.take(k),
                    ) by {
                        assert(k == 1 || k == 2 || k == 3);
                    }
                    lemma_with_dirs_all_present(mw, bpath, 0o755u32);
                }
                assert(tree@ == mw.insert(
                    buspath,
                    NodeV::BindFile { source: host_runtime_dir@ + "/bus"@ },
                ));
            }
        }
        proof {
            assert(preserves_entries(m, tree@));
            assert(tree@.dom().contains(bpath) && tree@[bpath] == mb[bpath]);
            assert(wayland matches WaylandMode::Fallback(sock) ==> tree@.dom().contains(wpath)
                && tree@[wpath] == (NodeV::BindFile { source: sock@ }));
            assert forall|q: Seq<Seq<char>>| #[trigger] tree@.dom().contains(q) implies (
            m.dom().contains(q) || (q.len() >= 1 && q[0] == "run"@)) by {
                if !mw.dom().contains(q) {
                    assert(q == buspath);
                }
                assert(run1[0] == "run"@);
                assert(run2[0] == "run"@);
                assert(bpath[0] == "run"@);
                assert(wpath[0] == "run"@);
                assert(buspath[0] == "run"@);
            }
        }
        Ok(())
    }

    /// Populates the whole root: the `usr` symlinks, `/dev`, `/etc`,
    /// `/run`, `/var/run`, the host `/proc` and `/sys`, a fresh `/tmp`,
    /// and the home directory, bound or empty by the share. On an empty
    /// tree it succeeds whenever the home text cannot collide with the
    /// fixed entries.
    pub fn populate_root(&mut self, tree: &mut DirBuilder, console: Option<&str>, wayland: &WaylandMode, host_runtime_dir: &str) -> (r:
        Result<(), Error>)
        requires
            old(tree).wf(),
        ensures
            final(tree).wf(),
            same_but_env(old(self), final(self)),
            r is Ok ==> preserves_entries(old(tree)@, final(tree)@),
            r is Ok ==> forall|q: Seq<Seq<char>>| #[trigger] final(tree)@.dom().contains(q) ==> (
            old(tree)@.dom().contains(q) || (q.len() >= 1 && (q[0] == "bin"@ || q[0] == "lib"@
                || q[0] == "lib64"@ || q[0] == "sbin"@ || q[0] == "dev"@ || q[0] == "etc"@ || q[0]
                == "run"@ || q[0] == "var"@ || q[0] == "proc"@ || q[0] == "sys"@ || q[0] == "tmp"@
                || (old(self).home@.len() > 0 && old(self).home@[0] == '/' && q[0] == home_rel(
                    old(self).home@,
                )[0])))),
            old(tree)@ == Map::<Seq<Seq<char>>, NodeV>::empty() && home_fresh(old(self).home@)
                ==> r is Ok,
            r is Ok ==> final(tree)@.dom().contains(split_chars("etc/resolv.conf"@, '/')) && final(tree)@[split_chars("etc/resolv.conf"@, '/')] == (NodeV::BindFile {
                source: "/etc/resolv.conf"@,
            }),
            r is Ok ==> final(tree)@.dom().contains(split_chars("etc/localtime"@, '/')) && final(tree)@[split_chars("etc/localtime"@, '/')] == (NodeV::BindFile {
                source: "/etc/localtime"@,
            }),
            r is Ok ==> final(tree)@.dom().contains(split_chars("etc/passwd"@, '/')) && final(tree)@[split_chars("etc/passwd"@, '/')] == (NodeV::File {
                mode: 0o644u32,
                content: "root:x:0:0:root:/root:/bin/bash\n"@ + old(self).username@ + ":x:"@
                    + dec_chars(old(self).uid as nat) + ":"@ + dec_chars(old(self).gid as nat)
                    + ":"@ + old(self).gecos@ + ":"@ + old(self).home@
                    + ":/bin/bash\nhost:x:65534:65534:Host files:/:/\n"@,
            }),
            r is Ok ==> final(tree)@.dom().contains(split_chars("etc/group"@, '/')) && final(tree)@[split_chars("etc/group"@, '/')] == (NodeV::File {
                mode: 0o644u32,
                content: "root:x:0:0:\n"@ + old(self).groupname@ + ":x:"@ + dec_chars(
                    old(self).gid as nat,
                ) + ":0:\nhost:x:65534:0:\n"@,
            }),
            r is Ok ==> final(tree)@.dom().contains(split_chars("etc/ld.so.conf"@, '/')) && final(tree)@[split_chars("etc/ld.so.conf"@, '/')] == (NodeV::File {
                mode: 0o644u32,
                content: (
                "include /run/flatpak/ld.so.conf.d/app-*.conf\ninclude /app/etc/ld.so.conf\ninclude /app/etc/ld.so.conf.d/*.conf\n/app/lib64\n/app/lib\ninclude /run/flatpak/ld.so.conf.d/runtime-*.conf\n/usr/lib64/pipewire-0.3/jack/\n")@,
            }),
            r is Ok ==> final(tree)@.dom().contains(seq!["bin"@]) && final(tree)@[seq!["bin"@]]
                == (NodeV::Symlink { target: "usr/bin"@ }),
            r is Ok ==> final(tree)@.dom().contains(seq!["lib"@]) && final(tree)@[seq!["lib"@]]
                == (NodeV::Symlink { target: "usr/lib"@ }),
            r is Ok ==> final(tree)@.dom().contains(seq!["lib64"@]) && final(tree)@[seq!["lib64"@]]
                == (NodeV::Symlink { target: "usr/lib64"@ }),
            r is Ok ==> final(tree)@.dom().contains(seq!["sbin"@]) && final(tree)@[seq!["sbin"@]]
                == (NodeV::Symlink { target: "usr/sbin"@ }),
            r is Ok ==> final(tree)@.dom().contains(seq!["var"@, "run"@]) && final(tree)@[
                seq!["var"@, "run"@]] == (NodeV::Symlink { target: "../run"@ }),
            r is Ok ==> final(tree)@.dom().contains(seq!["proc"@]) && final(tree)@[seq!["proc"@]]
                == (NodeV::BindDir { source: "/proc"@ }),
            r is Ok ==> final(tree)@.dom().contains(seq!["sys"@]) && final(tree)@[seq!["sys"@]]
                == (NodeV::BindDir { source: "/sys"@ }),
            r is Ok ==> final(tree)@.dom().contains(seq!["tmp"@]) && final(tree)@[seq!["tmp"@]]
                == (NodeV::Mount { plan: tmp_plan_view() }),
            (old(self).home@.len() > 0 && old(self).home@[0] == '/' && old(self).share.home) ==> (r
                is Ok ==> final(tree)@.dom().contains(home_rel(old(self).home@)) && final(tree)@[
                home_rel(old(self).home@)] == (NodeV::BindDir { source: old(self).home@ })),
            (old(self).home@.len() > 0 && old(self).home@[0] == '/' && !old(self).share.home) ==> (
            r is Ok ==> final(tree)@.dom().contains(home_rel(old(self).home@)) && final(tree)@[
                home_rel(old(self).home@)] == (NodeV::Dir { mode: 0o755u32 })),
            r is Ok && old(self).share.xdg_runtime_dir ==> final(self).env@ == old(
                self,
            ).env@.insert(
                "XDG_RUNTIME_DIR"@,
                Some("/run/user/"@ + dec_chars(old(self).uid as nat)),
            ),
            r is Ok && !old(self).share.xdg_runtime_dir ==> final(self).env@ == old(
                self,
            ).env@.insert(
                "XDG_RUNTIME_DIR"@,
                Some("/run/user/"@ + dec_chars(old(self).uid as nat)),
            ).insert("WAYLAND_DISPLAY"@, wayland_env(wayland)),
    {
        let ghost m = tree@;
        let ghost fresh = m == Map::<Seq<Seq<char>>, NodeV>::empty();
        proof {
            lemma_root_names();
            lemma_etc_paths();
            lemma_dev_paths();
        }
        if let Err(e) = tree.symlink("bin", "usr/bin") {
            proof {
                if fresh {
                    assert(false);
                }
            }
            return Err(e);
        }
        let ghost m1 = tree@;
        proof {
            assert(m1 == m.insert(seq!["bin"@], NodeV::Symlink { target: "usr/bin"@ }));
            if fresh {
                assert forall|q: Seq<Seq<char>>| #[trigger] m1.dom().contains(q) implies q == seq!["bin"@] by {}
            }
        }
        if let Err(e) = tree.symlink("lib", "usr/lib") {
            proof {
                if fresh {
                    assert(false);
                }
            }
            return Err(e);
        }
        let ghost m2 = tree@;
        proof {
            assert(m2 == m1.insert(seq!["lib"@], NodeV::Symlink { target: "usr/lib"@ }));
            if fresh {
                assert forall|q: Seq<Seq<char>>| #[trigger] m2.dom().contains(q) implies q == seq!["bin"@] || q == seq!["lib"@] by {}
            }
        }
        if let Err(e) = tree.symlink("lib64", "usr/lib64") {
            proof {
                if fresh {
                    assert(false);
                }
            }
            return Err(e);
        }
        let ghost m3 = tree@;
        proof {
            assert(m3 == m2.insert(seq!["lib64"@], NodeV::Symlink { target: "usr/lib64"@ }));
            if fresh {
                assert forall|q: Seq<Seq<char>>| #[trigger] m3.dom().contains(q) implies q == seq!["bin"@] || q == seq!["lib"@] || q == seq!["lib64"@] by {}
            }
        }
        if let Err(e) = tree.symlink("sbin", "usr/sbin") {
            proof {
                if fresh {
                    assert(false);
                }
            }
            return Err(e);
        }
        let ghost m4 = tree@;
        proof {
            assert(m4 == m3.insert(seq!["sbin"@], NodeV::Symlink { target: "usr/sbin"@ }));
            if fresh {
                assert forall|q: Seq<Seq<char>>| #[trigger] m4.dom().contains(q) implies q == seq!["bin"@] || q == seq!["lib"@] || q == seq!["lib64"@] || q == seq!["sbin"@] by {}
            }
        }
        if let Err(e) = self.populate_dev(tree, console) {
            proof {
                if fresh {
                    assert(dev_populate_ok(m4, console is Some));
                    assert(false);
                }
            }
            return Err(e);
        }
        let ghost m5 = tree@;
        proof {
            assert(preserves_entries(m4, m5));
            if fresh {
                assert(dev_populate_ok(m4, console is Some));
                assert forall|q: Seq<Seq<char>>| #[trigger] m5.dom().contains(q) implies (
                q == seq!["bin"@] || q == seq!["lib"@] || q == seq!["lib64"@] || q == seq!["sbin"@] || (q.len() >= 1 && q[0] == "dev"@)) by {}
            }
        }
        if let Err(e) = self.populate_etc(tree) {
            proof {
                if fresh {
                    assert(etc_populate_ok(m5));
                    assert(false);
                }
            }
            return Err(e);
        }
        let ghost m6 = tree@;
        proof {
            assert(preserves_entries(m5, m6));
            if fresh {
                assert(etc_populate_ok(m5));
                assert forall|q: Seq<Seq<char>>| #[trigger] m6.dom().contains(q) implies (
                q == seq!["bin"@] || q == seq!["lib"@] || q == seq!["lib64"@] || q == seq!["sbin"@] || (q.len() >= 1 && (q[0] == "dev"@ || q[0] == "etc"@))) by {}
            }
        }
        if let Err(e) = self.populate_run_user(tree, wayland, host_runtime_dir) {
            proof {
                if fresh {
                    assert(run_user_populate_ok(m6, old(self).uid));
                    assert(false);
                }
            }
            return Err(e);
        }
        let ghost m7 = tree@;
        proof {
            assert(preserves_entries(m6, m7));
            if fresh {
                assert(run_user_populate_ok(m6, old(self).uid));
                assert forall|q: Seq<Seq<char>>| #[trigger] m7.dom().contains(q) implies (
                q == seq!["bin"@] || q == seq!["lib"@] || q == seq!["lib64"@] || q == seq!["sbin"@] || (q.len() >= 1 && (q[0] == "dev"@ || q[0] == "etc"@ || q[0]
                    == "run"@))) by {}
            }
        }
        if let Err(e) = tree.create_dir("var", 0o755, false) {
            proof {
                if fresh {
                    assert(false);
                }
            }
            return Err(e);
        }
        let ghost m8 = tree@;
        proof {
            assert(seq!["var"@].drop_last() =~= Seq::<Seq<char>>::empty());
            assert(split_chars("var"@, '/') == seq!["var"@]);
            assert(!m7.dom().contains(seq!["var"@]));
            assert(with_dirs(m7, seq!["var"@].drop_last(), 0o755u32) == m7);
            assert(with_dirs(m7, seq!["var"@], 0o755u32) == m7.insert(
                seq!["var"@],
                NodeV::Dir { mode: 0o755u32 },
            ));
            assert(m8 == m7.insert(seq!["var"@], NodeV::Dir { mode: 0o755u32 }));
            if fresh {
                assert forall|q: Seq<Seq<char>>| #[trigger] m8.dom().contains(q) implies (
                q == seq!["bin"@] || q == seq!["lib"@] || q == seq!["lib64"@] || q == seq!["sbin"@] || q == seq!["var"@] || (q.len() >= 1 && (q[0] == "dev"@ || q[0] == "etc"@ || q[0] == "run"@))) by {}
            }
        }
        if let Err(e) = tree.symlink("var/run", "../run") {
            proof {
                if fresh {
                    assert(false) by {
                        assert(seq!["var"@, "run"@].take(1) =~= seq!["var"@]);
                        lemma_prefix_ok_two(m8, seq!["var"@, "run"@], seq!["var"@]);
                        lemma_parents_present_two(m8, seq!["var"@, "run"@], seq!["var"@]);
                        assert(!m8.dom().contains(seq!["var"@, "run"@]));
                    }
                }
            }
            return Err(e);
        }
        let ghost m9 = tree@;
        proof {
            assert(m9 == m8.insert(seq!["var"@, "run"@], NodeV::Symlink { target: "../run"@ }));
            if fresh {
                assert forall|q: Seq<Seq<char>>| #[trigger] m9.dom().contains(q) implies (
                q == seq!["bin"@] || q == seq!["lib"@] || q == seq!["lib64"@] || q == seq!["sbin"@] || q == seq!["var"@] || q == seq!["var"@, "run"@] || (q.len() >= 1 && (q[0] == "dev"@ || q[0] == "etc"@ || q[0] == "run"@))) by {}
            }
        }
        if let Err(e) = tree.bind_dir("proc", "/proc") {
            proof {
                if fresh {
                    assert(false);
                }
            }
            return Err(e);
        }
        let ghost m10 = tree@;
        proof {
            assert(seq!["proc"@].drop_last() =~= Seq::<Seq<char>>::empty());
            assert(m10 == m9.insert(seq!["proc"@], NodeV::BindDir { source: "/proc"@ }));
            if fresh {
                assert forall|q: Seq<Seq<char>>| #[trigger] m10.dom().contains(q) implies (
                q == seq!["bin"@] || q == seq!["lib"@] || q == seq!["lib64"@] || q == seq!["sbin"@] || q == seq!["var"@] || q == seq!["var"@, "run"@] || q == seq!["proc"@] || (q.len() >= 1 && (q[0] == "dev"@ || q[0] == "etc"@ || q[0] == "run"@))) by {}
            }
        }
        if let Err(e) = tree.bind_dir("sys", "/sys") {
            proof {
                if fresh {
                    assert(false);
                }
            }
            return Err(e);
        }
        let ghost m11 = tree@;
        proof {
            assert(seq!["sys"@].drop_last() =~= Seq::<Seq<char>>::empty());
            assert(m11 == m10.insert(seq!["sys"@], NodeV::BindDir { source: "/sys"@ }));
            if fresh {
                assert forall|q: Seq<Seq<char>>| #[trigger] m11.dom().contains(q) implies (
                q == seq!["bin"@] || q == seq!["lib"@] || q == seq!["lib64"@] || q == seq!["sbin"@] || q == seq!["var"@] || q == seq!["var"@, "run"@] || q == seq!["proc"@] || q == seq!["sys"@] || (q.len() >= 1 && (q[0] == "dev"@ || q[0] == "etc"@ || q[0] == "run"@))) by {}
            }
        }
        let tmp_plan = crate::mountplan::tmpfs_plan("tmp", 0o1777);
        let tmp_handle = tmp_plan.mount();
        let ghost tmp_pv = tmp_handle.plan@;
        if let Err(e) = tree.mount("tmp", tmp_handle) {
            proof {
                if fresh {
                    assert(false);
                }
            }
            return Err(e);
        }
        let ghost m12 = tree@;
        proof {
            assert(tmp_pv.options =~= tmp_plan_view().options);
            assert(tmp_pv == tmp_plan_view());
            assert(seq!["tmp"@].drop_last() =~= Seq::<Seq<char>>::empty());
            assert(m12 == m11.insert(seq!["tmp"@], NodeV::Mount { plan: tmp_plan_view() }));
            if fresh {
                assert forall|q: Seq<Seq<char>>| #[trigger] m12.dom().contains(q) implies (
                q == seq!["bin"@] || q == seq!["lib"@] || q == seq!["lib64"@] || q == seq!["sbin"@] || q == seq!["var"@] || q == seq!["var"@, "run"@] || q == seq!["proc"@]
                    || q == seq!["sys"@] || q == seq!["tmp"@] || (q.len() >= 1 && (q[0] == "dev"@ || q[0] == "etc"@ || q[0] == "run"@))) by {}
            }
        }
        let n = self.home.unicode_len();
        if n > 0 && self.home.get_char(0) == '/' {
            let ghost relp = home_rel(self.home@);
            let rel = self.home.substring_char(1, n);
            proof {
                assert(self.home@.subrange(1, n as int) =~= self.home@.skip(1));
            }
            if self.share.home {
                if let Err(e) = tree.bind_dir(rel, self.home.as_str()) {
                    proof {
                        if fresh && home_fresh(old(self).home@) {
                            assert(crate::fstree::path_ok(relp));
                            assert forall|q: Seq<Seq<char>>| #[trigger] m12.dom().contains(q)
                                implies q.len() >= 1 && q[0] != relp[0] by {}
                            lemma_home_step_ok(m12, relp);
                            assert(false);
                        }
                    }
                    return Err(e);
                }
                proof {
                    lemma_with_dirs_props(m12, relp.drop_last(), 0o755u32);
                    assert(preserves_entries(m12, tree@));
                    assert(tree@.dom().contains(relp) && tree@[relp] == (NodeV::BindDir {
                        source: self.home@,
                    }));
                }
            } else {
                if let Err(e) = tree.create_dir(rel, 0o755, false) {
                    proof {
                        if fresh && home_fresh(old(self).home@) {
                            assert(crate::fstree::path_ok(relp));
                            assert forall|q: Seq<Seq<char>>| #[trigger] m12.dom().contains(q)
                                implies q.len() >= 1 && q[0] != relp[0] by {}
                            lemma_home_step_ok(m12, relp);
                            assert(false);
                        }
                    }
                    return Err(e);
                }
                proof {
                    lemma_with_dirs_props(m12, relp.drop_last(), 0o755u32);
                    assert(!m12.dom().contains(relp));
                    assert(tree@ == with_dirs(m12, relp, 0o755u32));
                    assert(tree@.dom().contains(relp)) by {
                        assert(relp.take(relp.len() as int) =~= relp);
                    }
                    assert(tree@[relp] == (NodeV::Dir { mode: 0o755u32 })) by {
                        assert(!m12.dom().contains(relp));
                        assert(crate::fstree::is_prefix(relp, relp)) by {
                            assert(relp.take(relp.len() as int) =~= relp);
                        }
                    }
                    assert(preserves_entries(m12, tree@));
                }
            }
        }
        proof {
            assert(preserves_entries(m12, tree@));
            assert(preserves_entries(m, tree@)) by {
                assert forall|q: Seq<Seq<char>>| #[trigger] m.dom().contains(q) implies
                    tree@.dom().contains(q) && tree@[q] == m[q] by {
                    assert(m4.dom().contains(q) && m4[q] == m[q]);
                    assert(m5.dom().contains(q) && m5[q] == m4[q]);
                    assert(m6.dom().contains(q) && m6[q] == m5[q]);
                    assert(m7.dom().contains(q) && m7[q] == m6[q]);
                    assert(m12.dom().contains(q) && m12[q] == m7[q]);
                }
            }
            assert forall|q: Seq<Seq<char>>| #[trigger] tree@.dom().contains(q) implies (
            m.dom().contains(q) || (q.len() >= 1 && (q[0] == "bin"@ || q[0] == "lib"@ || q[0]
                == "lib64"@ || q[0] == "sbin"@ || q[0] == "dev"@ || q[0] == "etc"@ || q[0]
                == "run"@ || q[0] == "var"@ || q[0] == "proc"@ || q[0] == "sys"@ || q[0] == "tmp"@
                || (old(self).home@.len() > 0 && old(self).home@[0] == '/' && q[0] == home_rel(
                    old(self).home@,
                )[0])))) by {
                if m4.dom().contains(q) {
                    if !m.dom().contains(q) {
                        assert(q == seq!["bin"@] || q == seq!["lib"@] || q == seq!["lib64"@] || q
                            == seq!["sbin"@]);
                    }
                } else if m5.dom().contains(q) {
                    assert(q.len() >= 1 && q[0] == "dev"@);
                } else if m6.dom().contains(q) {
                    assert(q.len() >= 1 && q[0] == "etc"@);
                } else if m7.dom().contains(q) {
                    assert(q.len() >= 1 && q[0] == "run"@);
                } else if m12.dom().contains(q) {
                    assert(q == seq!["var"@] || q == seq!["var"@, "run"@] || q == seq!["proc"@]
                        || q == seq!["sys"@] || q == seq!["tmp"@]);
                } else {
                    assert(old(self).home@.len() > 0 && old(self).home@[0] == '/');
                    let relp = home_rel(old(self).home@);
                    assert(with_dirs(m12, relp.drop_last(), 0o755u32).dom().contains(q) || q
                        == relp);
                    if q != relp {
                        assert(crate::fstree::is_prefix(q, relp.drop_last()));
                        assert(q[0] == relp.drop_last()[0]);
                    }
                }
            }
            assert(m4.dom().contains(seq!["bin"@]) && m4[seq!["bin"@]] == (NodeV::Symlink {
                target: "usr/bin"@,
            }));
            assert(m5.dom().contains(seq!["bin"@]) && m5[seq!["bin"@]] == m4[seq!["bin"@]]);
            assert(m6.dom().contains(seq!["bin"@]) && m6[seq!["bin"@]] == m5[seq!["bin"@]]);
            assert(m7.dom().contains(seq!["bin"@]) && m7[seq!["bin"@]] == m6[seq!["bin"@]]);
            assert(m12.dom().contains(seq!["bin"@]) && m12[seq!["bin"@]] == m7[seq!["bin"@]]);
            assert(tree@.dom().contains(seq!["bin"@]) && tree@[seq!["bin"@]] == m12[seq!["bin"@]]);
            assert(m4.dom().contains(seq!["lib"@]) && m4[seq!["lib"@]] == (NodeV::Symlink {
                target: "usr/lib"@,
            }));
            assert(m5.dom().contains(seq!["lib"@]) && m5[seq!["lib"@]] == m4[seq!["lib"@]]);
            assert(m6.dom().contains(seq!["lib"@]) && m6[seq!["lib"@]] == m5[seq!["lib"@]]);
            assert(m7.dom().contains(seq!["lib"@]) && m7[seq!["lib"@]] == m6[seq!["lib"@]]);
            assert(m12.dom().contains(seq!["lib"@]) && m12[seq!["lib"@]] == m7[seq!["lib"@]]);
            assert(tree@.dom().contains(seq!["lib"@]) && tree@[seq!["lib"@]] == m12[seq!["lib"@]]);
            assert(m4.dom().contains(seq!["lib64"@]) && m4[seq!["lib64"@]] == (NodeV::Symlink {
                target: "usr/lib64"@,
            }));
            assert(m5.dom().contains(seq!["lib64"@]) && m5[seq!["lib64"@]] == m4[seq!["lib64"@]]);
            assert(m6.dom().contains(seq!["lib64"@]) && m6[seq!["lib64"@]] == m5[seq!["lib64"@]]);
            assert(m7.dom().contains(seq!["lib64"@]) && m7[seq!["lib64"@]] == m6[seq!["lib64"@]]);
            assert(m12.dom().contains(seq!["lib64"@]) && m12[seq!["lib64"@]] == m7[seq!["lib64"@]]);
            assert(tree@.dom().contains(seq!["lib64"@]) && tree@[seq!["lib64"@]] == m12[seq!["lib64"@]]);
            assert(m4.dom().contains(seq!["sbin"@]) && m4[seq!["sbin"@]] == (NodeV::Symlink {
                target: "usr/sbin"@,
            }));
            assert(m5.dom().contains(seq!["sbin"@]) && m5[seq!["sbin"@]] == m4[seq!["sbin"@]]);
            assert(m6.dom().contains(seq!["sbin"@]) && m6[seq!["sbin"@]] == m5[seq!["sbin"@]]);
            assert(m7.dom().contains(seq!["sbin"@]) && m7[seq!["sbin"@]] == m6[seq!["sbin"@]]);
            assert(m12.dom().contains(seq!["sbin"@]) && m12[seq!["sbin"@]] == m7[seq!["sbin"@]]);
            assert(tree@.dom().contains(seq!["sbin"@]) && tree@[seq!["sbin"@]] == m12[seq!["sbin"@]]);
            assert(m12.dom().contains(seq!["var"@, "run"@]) && m12[seq!["var"@, "run"@]] == m9[seq!["var"@, "run"@]]);
            assert(tree@.dom().contains(seq!["var"@, "run"@]) && tree@[seq!["var"@, "run"@]] == m12[seq!["var"@, "run"@]]);
            assert(m12.dom().contains(seq!["proc"@]) && m12[seq!["proc"@]] == m10[seq!["proc"@]]);
            assert(tree@.dom().contains(seq!["proc"@]) && tree@[seq!["proc"@]] == m12[seq!["proc"@]]);
            assert(m12.dom().contains(seq!["sys"@]) && m12[seq!["sys"@]] == m11[seq!["sys"@]]);
            assert(tree@.dom().contains(seq!["sys"@]) && tree@[seq!["sys"@]] == m12[seq!["sys"@]]);
            assert(m12.dom().contains(seq!["tmp"@]) && m12[seq!["tmp"@]] == m12[seq!["tmp"@]]);
            assert(tree@.dom().contains(seq!["tmp"@]) && tree@[seq!["tmp"@]] == m12[seq!["tmp"@]]);
            assert(m7.dom().contains(split_chars("etc/resolv.conf"@, '/')) && m7[split_chars("etc/resolv.conf"@, '/')] == m6[split_chars("etc/resolv.conf"@, '/')]);
            assert(m12.dom().contains(split_chars("etc/resolv.conf"@, '/')) && m12[split_chars("etc/resolv.conf"@, '/')] == m7[split_chars("etc/resolv.conf"@, '/')]);
            assert(tree@.dom().contains(split_chars("etc/resolv.conf"@, '/')) && tree@[split_chars("etc/resolv.conf"@, '/')] == m12[split_chars("etc/resolv.conf"@, '/')]);
            assert(m7.dom().contains(split_chars("etc/localtime"@, '/')) && m7[split_chars("etc/localtime"@, '/')] == m6[split_chars("etc/localtime"@, '/')]);
            assert(m12.dom().contains(split_chars("etc/localtime"@, '/')) && m12[split_chars("etc/localtime"@, '/')] == m7[split_chars("etc/localtime"@, '/')]);
            assert(tree@.dom().contains(split_chars("etc/localtime"@, '/')) && tree@[split_chars("etc/localtime"@, '/')] == m12[split_chars("etc/localtime"@, '/')]);
            assert(m7.dom().contains(split_chars("etc/passwd"@, '/')) && m7[split_chars("etc/passwd"@, '/')] == m6[split_chars("etc/passwd"@, '/')]);
            assert(m12.dom().contains(split_chars("etc/passwd"@, '/')) && m12[split_chars("etc/passwd"@, '/')] == m7[split_chars("etc/passwd"@, '/')]);
            assert(tree@.dom().contains(split_chars("etc/passwd"@, '/')) && tree@[split_chars("etc/passwd"@, '/')] == m12[split_chars("etc/passwd"@, '/')]);
            assert(m7.dom().contains(split_chars("etc/group"@, '/')) && m7[split_chars("etc/group"@, '/')] == m6[split_chars("etc/group"@, '/')]);
            assert(m12.dom().contains(split_chars("etc/group"@, '/')) && m12[split_chars("etc/group"@, '/')] == m7[split_chars("etc/group"@, '/')]);
            assert(tree@.dom().contains(split_chars("etc/group"@, '/')) && tree@[split_chars("etc/group"@, '/')] == m12[split_chars("etc/group"@, '/')]);
            assert(m7.dom().contains(split_chars("etc/ld.so.conf"@, '/')) && m7[split_chars("etc/ld.so.conf"@, '/')] == m6[split_chars("etc/ld.so.conf"@, '/')]);
            assert(m12.dom().contains(split_chars("etc/ld.so.conf"@, '/')) && m12[split_chars("etc/ld.so.conf"@, '/')] == m7[split_chars("etc/ld.so.conf"@, '/')]);
            assert(tree@.dom().contains(split_chars("etc/ld.so.conf"@, '/')) && tree@[split_chars("etc/ld.so.conf"@, '/')] == m12[split_chars("etc/ld.so.conf"@, '/')]);
        }
        Ok(())
    }

    /// Builds the sandbox root tree: the populated root, the runtime image
    /// mounted at `usr`, and the application image at `app` when running
    /// an application. It succeeds whenever the home text cannot collide
    /// with the fixed entries.
    pub fn create_rootfs(
        &mut self,
        app_mount: Option<MountHandle>,
        usr_mount: MountHandle,
        console: Option<&str>,
        wayland: &WaylandMode,
        host_runtime_dir: &str,
    ) -> (r: Result<DirBuilder, Error>)
        ensures
            same_but_env(old(self), final(self)),
            home_fresh(old(self).home@) ==> r is Ok,
            r matches Ok(t) ==> t.wf(),
            r matches Ok(t) ==> t@.dom().contains(seq!["usr"@]) && t@[seq!["usr"@]] == (
            NodeV::Mount { plan: usr_mount.plan@ }),
            app_mount matches Some(am) ==> (r matches Ok(t) ==> t@.dom().contains(seq!["app"@])
                && t@[seq!["app"@]] == (NodeV::Mount { plan: am.plan@ })),
            r matches Ok(t) ==> t@.dom().contains(split_chars("etc/resolv.conf"@, '/')) && t@[split_chars("etc/resolv.conf"@, '/')] == (NodeV::BindFile { source: "/etc/resolv.conf"@ }),
            r matches Ok(t) ==> t@.dom().contains(split_chars("etc/localtime"@, '/')) && t@[split_chars("etc/localtime"@, '/')] == (NodeV::BindFile { source: "/etc/localtime"@ }),
            r matches Ok(t) ==> t@.dom().contains(split_chars("etc/passwd"@, '/')) && t@[
                split_chars("etc/passwd"@, '/')] == (NodeV::File {
                mode: 0o644u32,
                content: "root:x:0:0:root:/root:/bin/bash\n"@ + old(self).username@ + ":x:"@
                    + dec_chars(old(self).uid as nat) + ":"@ + dec_chars(old(self).gid as nat)
                    + ":"@ + old(self).gecos@ + ":"@ + old(self).home@
                    + ":/bin/bash\nhost:x:65534:65534:Host files:/:/\n"@,
            }),
            r matches Ok(t) ==> t@.dom().contains(split_chars("etc/group"@, '/')) && t@[
                split_chars("etc/group"@, '/')] == (NodeV::File {
                mode: 0o644u32,
                content: "root:x:0:0:\n"@ + old(self).groupname@ + ":x:"@ + dec_chars(
                    old(self).gid as nat,
                ) + ":0:\nhost:x:65534:0:\n"@,
            }),
            r matches Ok(t) ==> t@.dom().contains(seq!["bin"@]) && t@[seq!["bin"@]] == (
            NodeV::Symlink { target: "usr/bin"@ }),
            r matches Ok(t) ==> t@.dom().contains(seq!["lib"@]) && t@[seq!["lib"@]] == (
            NodeV::Symlink { target: "usr/lib"@ }),
            r matches Ok(t) ==> t@.dom().contains(seq!["lib64"@]) && t@[seq!["lib64"@]] == (
            NodeV::Symlink { target: "usr/lib64"@ }),
            r matches Ok(t) ==> t@.dom().contains(seq!["sbin"@]) && t@[seq!["sbin"@]] == (
            NodeV::Symlink { target: "usr/sbin"@ }),
            r matches Ok(t) ==> t@.dom().contains(seq!["var"@, "run"@]) && t@[seq!["var"@, "run"@]]
                == (NodeV::Symlink { target: "../run"@ }),
            r matches Ok(t) ==> t@.dom().contains(seq!["proc"@]) && t@[seq!["proc"@]] == (
            NodeV::BindDir { source: "/proc"@ }),
            r matches Ok(t) ==> t@.dom().contains(seq!["sys"@]) && t@[seq!["sys"@]] == (
            NodeV::BindDir { source: "/sys"@ }),
            r matches Ok(t) ==> t@.dom().contains(seq!["tmp"@]) && t@[seq!["tmp"@]] == (
            NodeV::Mount { plan: tmp_plan_view() }),
            (old(self).home@.len() > 0 && old(self).home@[0] == '/' && old(self).share.home) ==> (r
                matches Ok(t) ==> t@.dom().contains(home_rel(old(self).home@)) && t@[home_rel(
                old(self).home@,
            )] == (NodeV::BindDir { source: old(self).home@ })),
            (old(self).home@.len() > 0 && old(self).home@[0] == '/' && !old(self).share.home) ==> (
            r matches Ok(t) ==> t@.dom().contains(home_rel(old(self).home@)) && t@[home_rel(
                old(self).home@,
            )] == (NodeV::Dir { mode: 0o755u32 })),
            r is Ok && old(self).share.xdg_runtime_dir ==> final(self).env@ == old(
                self,
            ).env@.insert(
                "XDG_RUNTIME_DIR"@,
                Some("/run/user/"@ + dec_chars(old(self).uid as nat)),
            ),
            r is Ok && !old(self).share.xdg_runtime_dir ==> final(self).env@ == old(
                self,
            ).env@.insert(
                "XDG_RUNTIME_DIR"@,
                Some("/run/user/"@ + dec_chars(old(self).uid as nat)),
            ).insert("WAYLAND_DISPLAY"@, wayland_env(wayland)),
    {
        let mut tree = DirBuilder::new();
        proof {
            lemma_root_names();
        }
        if let Err(e) = self.populate_root(&mut tree, console, wayland, host_runtime_dir) {
            proof {
                if home_fresh(old(self).home@) {
                    assert(false);
                }
            }
            return Err(e);
        }
        let ghost mr = tree@;
        let ghost usr1 = seq!["usr"@];
        let ghost app1 = seq!["app"@];
        let ghost usr_plan = usr_mount.plan@;
        if let Err(e) = tree.mount("usr", usr_mount) {
            proof {
                if home_fresh(old(self).home@) {
                    assert(!mr.dom().contains(usr1)) by {
                        if mr.dom().contains(usr1) {
                            assert(usr1[0] == "usr"@);
                        }
                    }
                    assert(false);
                }
            }
            return Err(e);
        }
        let ghost mu = tree@;
        proof {
            assert(usr1.drop_last() =~= Seq::<Seq<char>>::empty());
            assert(mu == mr.insert(usr1, NodeV::Mount { plan: usr_plan }));
            assert(preserves_entries(mr, mu));
        }
        match app_mount {
            Some(app) => {
                let ghost app_plan = app.plan@;
                if let Err(e) = tree.mount("app", app) {
                    proof {
                        if home_fresh(old(self).home@) {
                            assert(!mu.dom().contains(app1)) by {
                                if mr.dom().contains(app1) {
                                    assert(app1[0] == "app"@);
                                }
                            }
                            assert(false);
                        }
                    }
                    return Err(e);
                }
                proof {
                    assert(app1.drop_last() =~= Seq::<Seq<char>>::empty());
                    assert(tree@ == mu.insert(app1, NodeV::Mount { plan: app_plan }));
                    assert(preserves_entries(mu, tree@));
                    assert(tree@[usr1] == mu[usr1]);
                }
            },
            None => {},
        }
        proof {
            assert(preserves_entries(mr, tree@));
            assert(tree@.dom().contains(usr1) && tree@[usr1] == (NodeV::Mount { plan: usr_plan }));
        }
        Ok(tree)
    }
}



/// Whether a registry global announces the compositor's security-context
/// extension at the version the broker speaks.
pub fn is_security_context_global(interface: &str, version: u32) -> (r: bool)
    ensures
        r == (interface@ == "wp_security_context_manager_v1"@ && version == 1),
{
    version == 1 && crate::text::str_eq(interface, "wp_security_context_manager_v1")
}

/// The wayland variable the child sees for each mode: removed when the
/// display is unavailable, `wayland-0` otherwise.
pub open spec fn wayland_env(mode: &WaylandMode) -> Option<Seq<char>> {
    match mode {
        WaylandMode::Unavailable => None,
        WaylandMode::Fallback(_) => Some("wayland-0"@),
        WaylandMode::Secure => Some("wayland-0"@),
    }
}

/// The `/dev` entry paths split as expected, are usable, and are
/// pairwise distinct.
proof fn lemma_dev_paths()
    ensures
        split_chars("dev/full"@, '/') == seq!["dev"@, "full"@],
        split_chars("dev/null"@, '/') == seq!["dev"@, "null"@],
        split_chars("dev/random"@, '/') == seq!["dev"@, "random"@],
        split_chars("dev/tty"@, '/') == seq!["dev"@, "tty"@],
        split_chars("dev/urandom"@, '/') == seq!["dev"@, "urandom"@],
        split_chars("dev/zero"@, '/') == seq!["dev"@, "zero"@],
        split_chars("dev/console"@, '/') == seq!["dev"@, "console"@],
        split_chars("dev/stdin"@, '/') == seq!["dev"@, "stdin"@],
        split_chars("dev/stdout"@, '/') == seq!["dev"@, "stdout"@],
        split_chars("dev/stderr"@, '/') == seq!["dev"@, "stderr"@],
        split_chars("dev/fd"@, '/') == seq!["dev"@, "fd"@],
        split_chars("dev/ptmx"@, '/') == seq!["dev"@, "ptmx"@],
        split_chars("dev/pts"@, '/') == seq!["dev"@, "pts"@],
        split_chars("dev/shm"@, '/') == seq!["dev"@, "shm"@],
        crate::fstree::path_ok(split_chars("dev/full"@, '/')),
        crate::fstree::path_ok(split_chars("dev/null"@, '/')),
        crate::fstree::path_ok(split_chars("dev/random"@, '/')),
        crate::fstree::path_ok(split_chars("dev/tty"@, '/')),
        crate::fstree::path_ok(split_chars("dev/urandom"@, '/')),
        crate::fstree::path_ok(split_chars("dev/zero"@, '/')),
        crate::fstree::path_ok(split_chars("dev/console"@, '/')),
        crate::fstree::path_ok(split_chars("dev/stdin"@, '/')),
        crate::fstree::path_ok(split_chars("dev/stdout"@, '/')),
        crate::fstree::path_ok(split_chars("dev/stderr"@, '/')),
        crate::fstree::path_ok(split_chars("dev/fd"@, '/')),
        crate::fstree::path_ok(split_chars("dev/ptmx"@, '/')),
        crate::fstree::path_ok(split_chars("dev/pts"@, '/')),
        crate::fstree::path_ok(split_chars("dev/shm"@, '/')),
        split_chars("dev/full"@, '/') != split_chars("dev/null"@, '/'),
        split_chars("dev/full"@, '/') != split_chars("dev/random"@, '/'),
        split_chars("dev/full"@, '/') != split_chars("dev/tty"@, '/'),
        split_chars("dev/full"@, '/') != split_chars("dev/urandom"@, '/'),
        split_chars("dev/full"@, '/') != split_chars("dev/zero"@, '/'),
        split_chars("dev/full"@, '/') != split_chars("dev/console"@, '/'),
        split_chars("dev/full"@, '/') != split_chars("dev/stdin"@, '/'),
        split_chars("dev/full"@, '/') != split_chars("dev/stdout"@, '/'),
        split_chars("dev/full"@, '/') != split_chars("dev/stderr"@, '/'),
        split_chars("dev/full"@, '/') != split_chars("dev/fd"@, '/'),
        split_chars("dev/full"@, '/') != split_chars("dev/ptmx"@, '/'),
        split_chars("dev/full"@, '/') != split_chars("dev/pts"@, '/'),
        split_chars("dev/full"@, '/') != split_chars("dev/shm"@, '/'),
        split_chars("dev/null"@, '/') != split_chars("dev/random"@, '/'),
        split_chars("dev/null"@, '/') != split_chars("dev/tty"@, '/'),
        split_chars("dev/null"@, '/') != split_chars("dev/urandom"@, '/'),
        split_chars("dev/null"@, '/') != split_chars("dev/zero"@, '/'),
        split_chars("dev/null"@, '/') != split_chars("dev/console"@, '/'),
        split_chars("dev/null"@, '/') != split_chars("dev/stdin"@, '/'),
        split_chars("dev/null"@, '/') != split_chars("dev/stdout"@, '/'),
        split_chars("dev/null"@, '/') != split_chars("dev/stderr"@, '/'),
        split_chars("dev/null"@, '/') != split_chars("dev/fd"@, '/'),
        split_chars("dev/null"@, '/') != split_chars("dev/ptmx"@, '/'),
        split_chars("dev/null"@, '/') != split_chars("dev/pts"@, '/'),
        split_chars("dev/null"@, '/') != split_chars("dev/shm"@, '/'),
        split_chars("dev/random"@, '/') != split_chars("dev/tty"@, '/'),
        split_chars("dev/random"@, '/') != split_chars("dev/urandom"@, '/'),
        split_chars("dev/random"@, '/') != split_chars("dev/zero"@, '/'),
        split_chars("dev/random"@, '/') != split_chars("dev/console"@, '/'),
        split_chars("dev/random"@, '/') != split_chars("dev/stdin"@, '/'),
        split_chars("dev/random"@, '/') != split_chars("dev/stdout"@, '/'),
        split_chars("dev/random"@, '/') != split_chars("dev/stderr"@, '/'),
        split_chars("dev/random"@, '/') != split_chars("dev/fd"@, '/'),
        split_chars("dev/random"@, '/') != split_chars("dev/ptmx"@, '/'),
        split_chars("dev/random"@, '/') != split_chars("dev/pts"@, '/'),
        split_chars("dev/random"@, '/') != split_chars("dev/shm"@, '/'),
        split_chars("dev/tty"@, '/') != split_chars("dev/urandom"@, '/'),
        split_chars("dev/tty"@, '/') != split_chars("dev/zero"@, '/'),
        split_chars("dev/tty"@, '/') != split_chars("dev/console"@, '/'),
        split_chars("dev/tty"@, '/') != split_chars("dev/stdin"@, '/'),
        split_chars("dev/tty"@, '/') != split_chars("dev/stdout"@, '/'),
        split_chars("dev/tty"@, '/') != split_chars("dev/stderr"@, '/'),
        split_chars("dev/tty"@, '/') != split_chars("dev/fd"@, '/'),
        split_chars("dev/tty"@, '/') != split_chars("dev/ptmx"@, '/'),
        split_chars("dev/tty"@, '/') != split_chars("dev/pts"@, '/'),
        split_chars("dev/tty"@, '/') != split_chars("dev/shm"@, '/'),
        split_chars("dev/urandom"@, '/') != split_chars("dev/zero"@, '/'),
        split_chars("dev/urandom"@, '/') != split_chars("dev/console"@, '/'),
        split_chars("dev/urandom"@, '/') != split_chars("dev/stdin"@, '/'),
        split_chars("dev/urandom"@, '/') != split_chars("dev/stdout"@, '/'),
        split_chars("dev/urandom"@, '/') != split_chars("dev/stderr"@, '/'),
        split_chars("dev/urandom"@, '/') != split_chars("dev/fd"@, '/'),
        split_chars("dev/urandom"@, '/') != split_chars("dev/ptmx"@, '/'),
        split_chars("dev/urandom"@, '/') != split_chars("dev/pts"@, '/'),
        split_chars("dev/urandom"@, '/') != split_chars("dev/shm"@, '/'),
        split_chars("dev/zero"@, '/') != split_chars("dev/console"@, '/'),
        split_chars("dev/zero"@, '/') != split_chars("dev/stdin"@, '/'),
        split_chars("dev/zero"@, '/') != split_chars("dev/stdout"@, '/'),
        split_chars("dev/zero"@, '/') != split_chars("dev/stderr"@, '/'),
        split_chars("dev/zero"@, '/') != split_chars("dev/fd"@, '/'),
        split_chars("dev/zero"@, '/') != split_chars("dev/ptmx"@, '/'),
        split_chars("dev/zero"@, '/') != split_chars("dev/pts"@, '/'),
        split_chars("dev/zero"@, '/') != split_chars("dev/shm"@, '/'),
        split_chars("dev/console"@, '/') != split_chars("dev/stdin"@, '/'),
        split_chars("dev/console"@, '/') != split_chars("dev/stdout"@, '/'),
        split_chars("dev/console"@, '/') != split_chars("dev/stderr"@, '/'),
        split_chars("dev/console"@, '/') != split_chars("dev/fd"@, '/'),
        split_chars("dev/console"@, '/') != split_chars("dev/ptmx"@, '/'),
        split_chars("dev/console"@, '/') != split_chars("dev/pts"@, '/'),
        split_chars("dev/console"@, '/') != split_chars("dev/shm"@, '/'),
        split_chars("dev/stdin"@, '/') != split_chars("dev/stdout"@, '/'),
        split_chars("dev/stdin"@, '/') != split_chars("dev/stderr"@, '/'),
        split_chars("dev/stdin"@, '/') != split_chars("dev/fd"@, '/'),
        split_chars("dev/stdin"@, '/') != split_chars("dev/ptmx"@, '/'),
        split_chars("dev/stdin"@, '/') != split_chars("dev/pts"@, '/'),
        split_chars("dev/stdin"@, '/') != split_chars("dev/shm"@, '/'),
        split_chars("dev/stdout"@, '/') != split_chars("dev/stderr"@, '/'),
        split_chars("dev/stdout"@, '/') != split_chars("dev/fd"@, '/'),
        split_chars("dev/stdout"@, '/') != split_chars("dev/ptmx"@, '/'),
        split_chars("dev/stdout"@, '/') != split_chars("dev/pts"@, '/'),
        split_chars("dev/stdout"@, '/') != split_chars("dev/shm"@, '/'),
        split_chars("dev/stderr"@, '/') != split_chars("dev/fd"@, '/'),
        split_chars("dev/stderr"@, '/') != split_chars("dev/ptmx"@, '/'),
        split_chars("dev/stderr"@, '/') != split_chars("dev/pts"@, '/'),
        split_chars("dev/stderr"@, '/') != split_chars("dev/shm"@, '/'),
        split_chars("dev/fd"@, '/') != split_chars("dev/ptmx"@, '/'),
        split_chars("dev/fd"@, '/') != split_chars("dev/pts"@, '/'),
        split_chars("dev/fd"@, '/') != split_chars("dev/shm"@, '/'),
        split_chars("dev/ptmx"@, '/') != split_chars("dev/pts"@, '/'),
        split_chars("dev/ptmx"@, '/') != split_chars("dev/shm"@, '/'),
        split_chars("dev/pts"@, '/') != split_chars("dev/shm"@, '/'),
{
    reveal_strlit("dev");
    reveal_strlit("dev/full");
    reveal_strlit("full");
    reveal_strlit("dev/null");
    reveal_strlit("null");
    reveal_strlit("dev/random");
    reveal_strlit("random");
    reveal_strlit("dev/tty");
    reveal_strlit("tty");
    reveal_strlit("dev/urandom");
    reveal_strlit("urandom");
    reveal_strlit("dev/zero");
    reveal_strlit("zero");
    reveal_strlit("dev/console");
    reveal_strlit("console");
    reveal_strlit("dev/stdin");
    reveal_strlit("stdin");
    reveal_strlit("dev/stdout");
    reveal_strlit("stdout");
    reveal_strlit("dev/stderr");
    reveal_strlit("stderr");
    reveal_strlit("dev/fd");
    reveal_strlit("fd");
    reveal_strlit("dev/ptmx");
    reveal_strlit("ptmx");
    reveal_strlit("dev/pts");
    reveal_strlit("pts");
    reveal_strlit("dev/shm");
    reveal_strlit("shm");
    assert(no_sep("dev"@, '/'));
    assert("dev/full"@ =~= "dev"@ + seq!['/'] + "full"@);
    assert(no_sep("full"@, '/'));
    lemma_split_two("dev/full"@, "dev"@, "full"@, '/');
    assert("dev/null"@ =~= "dev"@ + seq!['/'] + "null"@);
    assert(no_sep("null"@, '/'));
    lemma_split_two("dev/null"@, "dev"@, "null"@, '/');
    assert("dev/random"@ =~= "dev"@ + seq!['/'] + "random"@);
    assert(no_sep("random"@, '/'));
    lemma_split_two("dev/random"@, "dev"@, "random"@, '/');
    assert("dev/tty"@ =~= "dev"@ + seq!['/'] + "tty"@);
    assert(no_sep("tty"@, '/'));
    lemma_split_two("dev/tty"@, "dev"@, "tty"@, '/');
    assert("dev/urandom"@ =~= "dev"@ + seq!['/'] + "urandom"@);
    assert(no_sep("urandom"@, '/'));
    lemma_split_two("dev/urandom"@, "dev"@, "urandom"@, '/');
    assert("dev/zero"@ =~= "dev"@ + seq!['/'] + "zero"@);
    assert(no_sep("zero"@, '/'));
    lemma_split_two("dev/zero"@, "dev"@, "zero"@, '/');
    assert("dev/console"@ =~= "dev"@ + seq!['/'] + "console"@);
    assert(no_sep("console"@, '/'));
    lemma_split_two("dev/console"@, "dev"@, "console"@, '/');
    assert("dev/stdin"@ =~= "dev"@ + seq!['/'] + "stdin"@);
    assert(no_sep("stdin"@, '/'));
    lemma_split_two("dev/stdin"@, "dev"@, "stdin"@, '/');
    assert("dev/stdout"@ =~= "dev"@ + seq!['/'] + "stdout"@);
    assert(no_sep("stdout"@, '/'));
    lemma_split_two("dev/stdout"@, "dev"@, "stdout"@, '/');
    assert("dev/stderr"@ =~= "dev"@ + seq!['/'] + "stderr"@);
    assert(no_sep("stderr"@, '/'));
    lemma_split_two("dev/stderr"@, "dev"@, "stderr"@, '/');
    assert("dev/fd"@ =~= "dev"@ + seq!['/'] + "fd"@);
    assert(no_sep("fd"@, '/'));
    lemma_split_two("dev/fd"@, "dev"@, "fd"@, '/');
    assert("dev/ptmx"@ =~= "dev"@ + seq!['/'] + "ptmx"@);
    assert(no_sep("ptmx"@, '/'));
    lemma_split_two("dev/ptmx"@, "dev"@, "ptmx"@, '/');
    assert("dev/pts"@ =~= "dev"@ + seq!['/'] + "pts"@);
    assert(no_sep("pts"@, '/'));
    lemma_split_two("dev/pts"@, "dev"@, "pts"@, '/');
    assert("dev/shm"@ =~= "dev"@ + seq!['/'] + "shm"@);
    assert(no_sep("shm"@, '/'));
    lemma_split_two("dev/shm"@, "dev"@, "shm"@, '/');
    assert("full"@.len() == 4);
    assert(seq!["dev"@, "full"@][1] == "full"@);
    assert("null"@.len() == 4);
    assert(seq!["dev"@, "null"@][1] == "null"@);
    assert("random"@.len() == 6);
    assert(seq!["dev"@, "random"@][1] == "random"@);
    assert("tty"@.len() == 3);
    assert(seq!["dev"@, "tty"@][1] == "tty"@);
    assert("urandom"@.len() == 7);
    assert(seq!["dev"@, "urandom"@][1] == "urandom"@);
    assert("zero"@.len() == 4);
    assert(seq!["dev"@, "zero"@][1] == "zero"@);
    assert("console"@.len() == 7);
    assert(seq!["dev"@, "console"@][1] == "console"@);
    assert("stdin"@.len() == 5);
    assert(seq!["dev"@, "stdin"@][1] == "stdin"@);
    assert("stdout"@.len() == 6);
    assert(seq!["dev"@, "stdout"@][1] == "stdout"@);
    assert("stderr"@.len() == 6);
    assert(seq!["dev"@, "stderr"@][1] == "stderr"@);
    assert("fd"@.len() == 2);
    assert(seq!["dev"@, "fd"@][1] == "fd"@);
    assert("ptmx"@.len() == 4);
    assert(seq!["dev"@, "ptmx"@][1] == "ptmx"@);
    assert("pts"@.len() == 3);
    assert(seq!["dev"@, "pts"@][1] == "pts"@);
    assert("shm"@.len() == 3);
    assert(seq!["dev"@, "shm"@][1] == "shm"@);
    assert("full"@[0] != "null"@[0]);
    assert("full"@[0] != "zero"@[0]);
    assert("full"@[0] != "ptmx"@[0]);
    assert("null"@[0] != "zero"@[0]);
    assert("null"@[0] != "ptmx"@[0]);
    assert("random"@[0] != "stdout"@[0]);
    assert("random"@[0] != "stderr"@[0]);
    assert("tty"@[0] != "pts"@[0]);
    assert("tty"@[0] != "shm"@[0]);
    assert("urandom"@[0] != "console"@[0]);
    assert("zero"@[0] != "ptmx"@[0]);
    assert("stdout"@[3] != "stderr"@[3]);
    assert("pts"@[0] != "shm"@[0]);
}

/// What populating `/dev` needs of the tree: `dev` itself, if present,
/// can hold entries, and none of the entries it creates exists yet.
pub open spec fn dev_populate_ok(m: Map<Seq<Seq<char>>, NodeV>, console: bool) -> bool {
    &&& (m.dom().contains(seq!["dev"@]) ==> dir_like(m[seq!["dev"@]]))
    &&& !m.dom().contains(split_chars("dev/full"@, '/'))
    &&& !m.dom().contains(split_chars("dev/null"@, '/'))
    &&& !m.dom().contains(split_chars("dev/random"@, '/'))
    &&& !m.dom().contains(split_chars("dev/tty"@, '/'))
    &&& !m.dom().contains(split_chars("dev/urandom"@, '/'))
    &&& !m.dom().contains(split_chars("dev/zero"@, '/'))
    &&& (console ==> !m.dom().contains(split_chars("dev/console"@, '/')))
    &&& !m.dom().contains(split_chars("dev/stdin"@, '/'))
    &&& !m.dom().contains(split_chars("dev/stdout"@, '/'))
    &&& !m.dom().contains(split_chars("dev/stderr"@, '/'))
    &&& !m.dom().contains(split_chars("dev/fd"@, '/'))
    &&& !m.dom().contains(split_chars("dev/ptmx"@, '/'))
    &&& !m.dom().contains(split_chars("dev/pts"@, '/'))
    &&& !m.dom().contains(split_chars("dev/shm"@, '/'))
}

/// The three `/etc` file paths split as expected and are pairwise
/// distinct.
proof fn lemma_etc_paths()
    ensures
        split_chars("etc/resolv.conf"@, '/') == seq!["etc"@, "resolv.conf"@],
        split_chars("etc/localtime"@, '/') == seq!["etc"@, "localtime"@],
        split_chars("etc/passwd"@, '/') == seq!["etc"@, "passwd"@],
        split_chars("etc/group"@, '/') == seq!["etc"@, "group"@],
        split_chars("etc/ld.so.conf"@, '/') == seq!["etc"@, "ld.so.conf"@],
        "resolv.conf"@ != "localtime"@,
        "resolv.conf"@ != "passwd"@,
        "resolv.conf"@ != "group"@,
        "resolv.conf"@ != "ld.so.conf"@,
        "localtime"@ != "passwd"@,
        "localtime"@ != "group"@,
        "localtime"@ != "ld.so.conf"@,
        "passwd"@ != "group"@,
        "passwd"@ != "ld.so.conf"@,
        "group"@ != "ld.so.conf"@,
        split_chars("etc/resolv.conf"@, '/') != split_chars("etc/localtime"@, '/'),
        split_chars("etc/resolv.conf"@, '/') != split_chars("etc/passwd"@, '/'),
        split_chars("etc/resolv.conf"@, '/') != split_chars("etc/group"@, '/'),
        split_chars("etc/resolv.conf"@, '/') != split_chars("etc/ld.so.conf"@, '/'),
        split_chars("etc/localtime"@, '/') != split_chars("etc/passwd"@, '/'),
        split_chars("etc/localtime"@, '/') != split_chars("etc/group"@, '/'),
        split_chars("etc/localtime"@, '/') != split_chars("etc/ld.so.conf"@, '/'),
        split_chars("etc/passwd"@, '/') != split_chars("etc/group"@, '/'),
        split_chars("etc/passwd"@, '/') != split_chars("etc/ld.so.conf"@, '/'),
        split_chars("etc/group"@, '/') != split_chars("etc/ld.so.conf"@, '/'),
        crate::fstree::path_ok(split_chars("etc/resolv.conf"@, '/')),
        crate::fstree::path_ok(split_chars("etc/localtime"@, '/')),
        crate::fstree::path_ok(split_chars("etc/passwd"@, '/')),
        crate::fstree::path_ok(split_chars("etc/group"@, '/')),
        crate::fstree::path_ok(split_chars("etc/ld.so.conf"@, '/')),
{
    reveal_strlit("etc/resolv.conf");
    reveal_strlit("etc/localtime");
    reveal_strlit("etc/passwd");
    reveal_strlit("etc/group");
    reveal_strlit("etc/ld.so.conf");
    reveal_strlit("etc");
    reveal_strlit("resolv.conf");
    reveal_strlit("localtime");
    reveal_strlit("passwd");
    reveal_strlit("group");
    reveal_strlit("ld.so.conf");
    assert("etc/resolv.conf"@ =~= "etc"@ + seq!['/'] + "resolv.conf"@);
    assert("etc/localtime"@ =~= "etc"@ + seq!['/'] + "localtime"@);
    assert("etc/passwd"@ =~= "etc"@ + seq!['/'] + "passwd"@);
    assert("etc/group"@ =~= "etc"@ + seq!['/'] + "group"@);
    assert("etc/ld.so.conf"@ =~= "etc"@ + seq!['/'] + "ld.so.conf"@);
    assert(no_sep("etc"@, '/'));
    assert(no_sep("resolv.conf"@, '/'));
    assert(no_sep("localtime"@, '/'));
    assert(no_sep("passwd"@, '/'));
    assert(no_sep("group"@, '/'));
    assert(no_sep("ld.so.conf"@, '/'));
    lemma_split_two("etc/resolv.conf"@, "etc"@, "resolv.conf"@, '/');
    lemma_split_two("etc/localtime"@, "etc"@, "localtime"@, '/');
    lemma_split_two("etc/passwd"@, "etc"@, "passwd"@, '/');
    lemma_split_two("etc/group"@, "etc"@, "group"@, '/');
    lemma_split_two("etc/ld.so.conf"@, "etc"@, "ld.so.conf"@, '/');
    assert("resolv.conf"@.len() == 11);
    assert("localtime"@.len() == 9);
    assert("passwd"@.len() == 6);
    assert("group"@.len() == 5);
    assert("ld.so.conf"@.len() == 10);
    assert(seq!["etc"@, "resolv.conf"@][1] == "resolv.conf"@);
    assert(seq!["etc"@, "localtime"@][1] == "localtime"@);
    assert(seq!["etc"@, "passwd"@][1] == "passwd"@);
    assert(seq!["etc"@, "group"@][1] == "group"@);
    assert(seq!["etc"@, "ld.so.conf"@][1] == "ld.so.conf"@);
    lemma_path_ok_two("etc"@, "resolv.conf"@);
    lemma_path_ok_two("etc"@, "localtime"@);
    lemma_path_ok_two("etc"@, "passwd"@);
    lemma_path_ok_two("etc"@, "group"@);
    lemma_path_ok_two("etc"@, "ld.so.conf"@);
}

/// The top-level entry names split as expected, are usable, and are
/// pairwise distinct; so is the `var/run` symlink path.
proof fn lemma_root_names()
    ensures
        split_chars("bin"@, '/') == seq!["bin"@],
        split_chars("lib"@, '/') == seq!["lib"@],
        split_chars("lib64"@, '/') == seq!["lib64"@],
        split_chars("sbin"@, '/') == seq!["sbin"@],
        split_chars("dev"@, '/') == seq!["dev"@],
        split_chars("etc"@, '/') == seq!["etc"@],
        split_chars("run"@, '/') == seq!["run"@],
        split_chars("var"@, '/') == seq!["var"@],
        split_chars("proc"@, '/') == seq!["proc"@],
        split_chars("sys"@, '/') == seq!["sys"@],
        split_chars("tmp"@, '/') == seq!["tmp"@],
        split_chars("usr"@, '/') == seq!["usr"@],
        split_chars("app"@, '/') == seq!["app"@],
        crate::fstree::path_ok(seq!["bin"@]),
        crate::fstree::path_ok(seq!["lib"@]),
        crate::fstree::path_ok(seq!["lib64"@]),
        crate::fstree::path_ok(seq!["sbin"@]),
        crate::fstree::path_ok(seq!["dev"@]),
        crate::fstree::path_ok(seq!["etc"@]),
        crate::fstree::path_ok(seq!["run"@]),
        crate::fstree::path_ok(seq!["var"@]),
        crate::fstree::path_ok(seq!["proc"@]),
        crate::fstree::path_ok(seq!["sys"@]),
        crate::fstree::path_ok(seq!["tmp"@]),
        crate::fstree::path_ok(seq!["usr"@]),
        crate::fstree::path_ok(seq!["app"@]),
        seq!["bin"@][0] == "bin"@,
        seq!["lib"@][0] == "lib"@,
        seq!["lib64"@][0] == "lib64"@,
        seq!["sbin"@][0] == "sbin"@,
        seq!["dev"@][0] == "dev"@,
        seq!["etc"@][0] == "etc"@,
        seq!["run"@][0] == "run"@,
        seq!["var"@][0] == "var"@,
        seq!["proc"@][0] == "proc"@,
        seq!["sys"@][0] == "sys"@,
        seq!["tmp"@][0] == "tmp"@,
        seq!["usr"@][0] == "usr"@,
        seq!["app"@][0] == "app"@,
        split_chars("var/run"@, '/') == seq!["var"@, "run"@],
        crate::fstree::path_ok(seq!["var"@, "run"@]),
        seq!["var"@, "run"@][0] == "var"@,
        "bin"@ != "lib"@,
        seq!["bin"@] != seq!["lib"@],
        "bin"@ != "lib64"@,
        seq!["bin"@] != seq!["lib64"@],
        "bin"@ != "sbin"@,
        seq!["bin"@] != seq!["sbin"@],
        "bin"@ != "dev"@,
        seq!["bin"@] != seq!["dev"@],
        "bin"@ != "etc"@,
        seq!["bin"@] != seq!["etc"@],
        "bin"@ != "run"@,
        seq!["bin"@] != seq!["run"@],
        "bin"@ != "var"@,
        seq!["bin"@] != seq!["var"@],
        "bin"@ != "proc"@,
        seq!["bin"@] != seq!["proc"@],
        "bin"@ != "sys"@,
        seq!["bin"@] != seq!["sys"@],
        "bin"@ != "tmp"@,
        seq!["bin"@] != seq!["tmp"@],
        "bin"@ != "usr"@,
        seq!["bin"@] != seq!["usr"@],
        "bin"@ != "app"@,
        seq!["bin"@] != seq!["app"@],
        "lib"@ != "lib64"@,
        seq!["lib"@] != seq!["lib64"@],
        "lib"@ != "sbin"@,
        seq!["lib"@] != seq!["sbin"@],
        "lib"@ != "dev"@,
        seq!["lib"@] != seq!["dev"@],
        "lib"@ != "etc"@,
        seq!["lib"@] != seq!["etc"@],
        "lib"@ != "run"@,
        seq!["lib"@] != seq!["run"@],
        "lib"@ != "var"@,
        seq!["lib"@] != seq!["var"@],
        "lib"@ != "proc"@,
        seq!["lib"@] != seq!["proc"@],
        "lib"@ != "sys"@,
        seq!["lib"@] != seq!["sys"@],
        "lib"@ != "tmp"@,
        seq!["lib"@] != seq!["tmp"@],
        "lib"@ != "usr"@,
        seq!["lib"@] != seq!["usr"@],
        "lib"@ != "app"@,
        seq!["lib"@] != seq!["app"@],
        "lib64"@ != "sbin"@,
        seq!["lib64"@] != seq!["sbin"@],
        "lib64"@ != "dev"@,
        seq!["lib64"@] != seq!["dev"@],
        "lib64"@ != "etc"@,
        seq!["lib64"@] != seq!["etc"@],
        "lib64"@ != "run"@,
        seq!["lib64"@] != seq!["run"@],
        "lib64"@ != "var"@,
        seq!["lib64"@] != seq!["var"@],
        "lib64"@ != "proc"@,
        seq!["lib64"@] != seq!["proc"@],
        "lib64"@ != "sys"@,
        seq!["lib64"@] != seq!["sys"@],
        "lib64"@ != "tmp"@,
        seq!["lib64"@] != seq!["tmp"@],
        "lib64"@ != "usr"@,
        seq!["lib64"@] != seq!["usr"@],
        "lib64"@ != "app"@,
        seq!["lib64"@] != seq!["app"@],
        "sbin"@ != "dev"@,
        seq!["sbin"@] != seq!["dev"@],
        "sbin"@ != "etc"@,
        seq!["sbin"@] != seq!["etc"@],
        "sbin"@ != "run"@,
        seq!["sbin"@] != seq!["run"@],
        "sbin"@ != "var"@,
        seq!["sbin"@] != seq!["var"@],
        "sbin"@ != "proc"@,
        seq!["sbin"@] != seq!["proc"@],
        "sbin"@ != "sys"@,
        seq!["sbin"@] != seq!["sys"@],
        "sbin"@ != "tmp"@,
        seq!["sbin"@] != seq!["tmp"@],
        "sbin"@ != "usr"@,
        seq!["sbin"@] != seq!["usr"@],
        "sbin"@ != "app"@,
        seq!["sbin"@] != seq!["app"@],
        "dev"@ != "etc"@,
        seq!["dev"@] != seq!["etc"@],
        "dev"@ != "run"@,
        seq!["dev"@] != seq!["run"@],
        "dev"@ != "var"@,
        seq!["dev"@] != seq!["var"@],
        "dev"@ != "proc"@,
        seq!["dev"@] != seq!["proc"@],
        "dev"@ != "sys"@,
        seq!["dev"@] != seq!["sys"@],
        "dev"@ != "tmp"@,
        seq!["dev"@] != seq!["tmp"@],
        "dev"@ != "usr"@,
        seq!["dev"@] != seq!["usr"@],
        "dev"@ != "app"@,
        seq!["dev"@] != seq!["app"@],
        "etc"@ != "run"@,
        seq!["etc"@] != seq!["run"@],
        "etc"@ != "var"@,
        seq!["etc"@] != seq!["var"@],
        "etc"@ != "proc"@,
        seq!["etc"@] != seq!["proc"@],
        "etc"@ != "sys"@,
        seq!["etc"@] != seq!["sys"@],
        "etc"@ != "tmp"@,
        seq!["etc"@] != seq!["tmp"@],
        "etc"@ != "usr"@,
        seq!["etc"@] != seq!["usr"@],
        "etc"@ != "app"@,
        seq!["etc"@] != seq!["app"@],
        "run"@ != "var"@,
        seq!["run"@] != seq!["var"@],
        "run"@ != "proc"@,
        seq!["run"@] != seq!["proc"@],
        "run"@ != "sys"@,
        seq!["run"@] != seq!["sys"@],
        "run"@ != "tmp"@,
        seq!["run"@] != seq!["tmp"@],
        "run"@ != "usr"@,
        seq!["run"@] != seq!["usr"@],
        "run"@ != "app"@,
        seq!["run"@] != seq!["app"@],
        "var"@ != "proc"@,
        seq!["var"@] != seq!["proc"@],
        "var"@ != "sys"@,
        seq!["var"@] != seq!["sys"@],
        "var"@ != "tmp"@,
        seq!["var"@] != seq!["tmp"@],
        "var"@ != "usr"@,
        seq!["var"@] != seq!["usr"@],
        "var"@ != "app"@,
        seq!["var"@] != seq!["app"@],
        "proc"@ != "sys"@,
        seq!["proc"@] != seq!["sys"@],
        "proc"@ != "tmp"@,
        seq!["proc"@] != seq!["tmp"@],
        "proc"@ != "usr"@,
        seq!["proc"@] != seq!["usr"@],
        "proc"@ != "app"@,
        seq!["proc"@] != seq!["app"@],
        "sys"@ != "tmp"@,
        seq!["sys"@] != seq!["tmp"@],
        "sys"@ != "usr"@,
        seq!["sys"@] != seq!["usr"@],
        "sys"@ != "app"@,
        seq!["sys"@] != seq!["app"@],
        "tmp"@ != "usr"@,
        seq!["tmp"@] != seq!["usr"@],
        "tmp"@ != "app"@,
        seq!["tmp"@] != seq!["app"@],
        "usr"@ != "app"@,
        seq!["usr"@] != seq!["app"@],
{
    reveal_strlit("bin");
    reveal_strlit("lib");
    reveal_strlit("lib64");
    reveal_strlit("sbin");
    reveal_strlit("dev");
    reveal_strlit("etc");
    reveal_strlit("run");
    reveal_strlit("var");
    reveal_strlit("proc");
    reveal_strlit("sys");
    reveal_strlit("tmp");
    reveal_strlit("usr");
    reveal_strlit("app");
    reveal_strlit("var/run");
    assert(no_sep("bin"@, '/'));
    assert("bin"@.len() == 3);
    lemma_split_one("bin"@, '/');
    assert(no_sep("lib"@, '/'));
    assert("lib"@.len() == 3);
    lemma_split_one("lib"@, '/');
    assert(no_sep("lib64"@, '/'));
    assert("lib64"@.len() == 5);
    lemma_split_one("lib64"@, '/');
    assert(no_sep("sbin"@, '/'));
    assert("sbin"@.len() == 4);
    lemma_split_one("sbin"@, '/');
    assert(no_sep("dev"@, '/'));
    assert("dev"@.len() == 3);
    lemma_split_one("dev"@, '/');
    assert(no_sep("etc"@, '/'));
    assert("etc"@.len() == 3);
    lemma_split_one("etc"@, '/');
    assert(no_sep("run"@, '/'));
    assert("run"@.len() == 3);
    lemma_split_one("run"@, '/');
    assert(no_sep("var"@, '/'));
    assert("var"@.len() == 3);
    lemma_split_one("var"@, '/');
    assert(no_sep("proc"@, '/'));
    assert("proc"@.len() == 4);
    lemma_split_one("proc"@, '/');
    assert(no_sep("sys"@, '/'));
    assert("sys"@.len() == 3);
    lemma_split_one("sys"@, '/');
    assert(no_sep("tmp"@, '/'));
    assert("tmp"@.len() == 3);
    lemma_split_one("tmp"@, '/');
    assert(no_sep("usr"@, '/'));
    assert("usr"@.len() == 3);
    lemma_split_one("usr"@, '/');
    assert(no_sep("app"@, '/'));
    assert("app"@.len() == 3);
    lemma_split_one("app"@, '/');
    assert("var/run"@ =~= "var"@ + seq!['/'] + "run"@);
    lemma_split_two("var/run"@, "var"@, "run"@, '/');
    lemma_path_ok_two("var"@, "run"@);
    assert(crate::fstree::path_ok(seq!["bin"@])) by {
        assert(seq!["bin"@][0] == "bin"@);
    }
    assert(crate::fstree::path_ok(seq!["lib"@])) by {
        assert(seq!["lib"@][0] == "lib"@);
    }
    assert(crate::fstree::path_ok(seq!["lib64"@])) by {
        assert(seq!["lib64"@][0] == "lib64"@);
    }
    assert(crate::fstree::path_ok(seq!["sbin"@])) by {
        assert(seq!["sbin"@][0] == "sbin"@);
    }
    assert(crate::fstree::path_ok(seq!["dev"@])) by {
        assert(seq!["dev"@][0] == "dev"@);
    }
    assert(crate::fstree::path_ok(seq!["etc"@])) by {
        assert(seq!["etc"@][0] == "etc"@);
    }
    assert(crate::fstree::path_ok(seq!["run"@])) by {
        assert(seq!["run"@][0] == "run"@);
    }
    assert(crate::fstree::path_ok(seq!["var"@])) by {
        assert(seq!["var"@][0] == "var"@);
    }
    assert(crate::fstree::path_ok(seq!["proc"@])) by {
        assert(seq!["proc"@][0] == "proc"@);
    }
    assert(crate::fstree::path_ok(seq!["sys"@])) by {
        assert(seq!["sys"@][0] == "sys"@);
    }
    assert(crate::fstree::path_ok(seq!["tmp"@])) by {
        assert(seq!["tmp"@][0] == "tmp"@);
    }
    assert(crate::fstree::path_ok(seq!["usr"@])) by {
        assert(seq!["usr"@][0] == "usr"@);
    }
    assert(crate::fstree::path_ok(seq!["app"@])) by {
        assert(seq!["app"@][0] == "app"@);
    }
    assert("bin"@[0] != "lib"@[0]);
    assert("bin"@[0] != "dev"@[0]);
    assert("bin"@[0] != "etc"@[0]);
    assert("bin"@[0] != "run"@[0]);
    assert("bin"@[0] != "var"@[0]);
    assert("bin"@[0] != "sys"@[0]);
    assert("bin"@[0] != "tmp"@[0]);
    assert("bin"@[0] != "usr"@[0]);
    assert("bin"@[0] != "app"@[0]);
    assert("lib"@[0] != "dev"@[0]);
    assert("lib"@[0] != "etc"@[0]);
    assert("lib"@[0] != "run"@[0]);
    assert("lib"@[0] != "var"@[0]);
    assert("lib"@[0] != "sys"@[0]);
    assert("lib"@[0] != "tmp"@[0]);
    assert("lib"@[0] != "usr"@[0]);
    assert("lib"@[0] != "app"@[0]);
    assert("sbin"@[0] != "proc"@[0]);
    assert("dev"@[0] != "etc"@[0]);
    assert("dev"@[0] != "run"@[0]);
    assert("dev"@[0] != "var"@[0]);
    assert("dev"@[0] != "sys"@[0]);
    assert("dev"@[0] != "tmp"@[0]);
    assert("dev"@[0] != "usr"@[0]);
    assert("dev"@[0] != "app"@[0]);
    assert("etc"@[0] != "run"@[0]);
    assert("etc"@[0] != "var"@[0]);
    assert("etc"@[0] != "sys"@[0]);
    assert("etc"@[0] != "tmp"@[0]);
    assert("etc"@[0] != "usr"@[0]);
    assert("etc"@[0] != "app"@[0]);
    assert("run"@[0] != "var"@[0]);
    assert("run"@[0] != "sys"@[0]);
    assert("run"@[0] != "tmp"@[0]);
    assert("run"@[0] != "usr"@[0]);
    assert("run"@[0] != "app"@[0]);
    assert("var"@[0] != "sys"@[0]);
    assert("var"@[0] != "tmp"@[0]);
    assert("var"@[0] != "usr"@[0]);
    assert("var"@[0] != "app"@[0]);
    assert("sys"@[0] != "tmp"@[0]);
    assert("sys"@[0] != "usr"@[0]);
    assert("sys"@[0] != "app"@[0]);
    assert("tmp"@[0] != "usr"@[0]);
    assert("tmp"@[0] != "app"@[0]);
    assert("usr"@[0] != "app"@[0]);
    assert(seq!["bin"@] != seq!["lib"@]) by {
        assert(seq!["bin"@][0] == "bin"@);
        assert(seq!["lib"@][0] == "lib"@);
    }
    assert(seq!["bin"@] != seq!["lib64"@]) by {
        assert(seq!["bin"@][0] == "bin"@);
        assert(seq!["lib64"@][0] == "lib64"@);
    }
    assert(seq!["bin"@] != seq!["sbin"@]) by {
        assert(seq!["bin"@][0] == "bin"@);
        assert(seq!["sbin"@][0] == "sbin"@);
    }
    assert(seq!["bin"@] != seq!["dev"@]) by {
        assert(seq!["bin"@][0] == "bin"@);
        assert(seq!["dev"@][0] == "dev"@);
    }
    assert(seq!["bin"@] != seq!["etc"@]) by {
        assert(seq!["bin"@][0] == "bin"@);
        assert(seq!["etc"@][0] == "etc"@);
    }
    assert(seq!["bin"@] != seq!["run"@]) by {
        assert(seq!["bin"@][0] == "bin"@);
        assert(seq!["run"@][0] == "run"@);
    }
    assert(seq!["bin"@] != seq!["var"@]) by {
        assert(seq!["bin"@][0] == "bin"@);
        assert(seq!["var"@][0] == "var"@);
    }
    assert(seq!["bin"@] != seq!["proc"@]) by {
        assert(seq!["bin"@][0] == "bin"@);
        assert(seq!["proc"@][0] == "proc"@);
    }
    assert(seq!["bin"@] != seq!["sys"@]) by {
        assert(seq!["bin"@][0] == "bin"@);
        assert(seq!["sys"@][0] == "sys"@);
    }
    assert(seq!["bin"@] != seq!["tmp"@]) by {
        assert(seq!["bin"@][0] == "bin"@);
        assert(seq!["tmp"@][0] == "tmp"@);
    }
    assert(seq!["bin"@] != seq!["usr"@]) by {
        assert(seq!["bin"@][0] == "bin"@);
        assert(seq!["usr"@][0] == "usr"@);
    }
    assert(seq!["bin"@] != seq!["app"@]) by {
        assert(seq!["bin"@][0] == "bin"@);
        assert(seq!["app"@][0] == "app"@);
    }
    assert(seq!["lib"@] != seq!["lib64"@]) by {
        assert(seq!["lib"@][0] == "lib"@);
        assert(seq!["lib64"@][0] == "lib64"@);
    }
    assert(seq!["lib"@] != seq!["sbin"@]) by {
        assert(seq!["lib"@][0] == "lib"@);
        assert(seq!["sbin"@][0] == "sbin"@);
    }
    assert(seq!["lib"@] != seq!["dev"@]) by {
        assert(seq!["lib"@][0] == "lib"@);
        assert(seq!["dev"@][0] == "dev"@);
    }
    assert(seq!["lib"@] != seq!["etc"@]) by {
        assert(seq!["lib"@][0] == "lib"@);
        assert(seq!["etc"@][0] == "etc"@);
    }
    assert(seq!["lib"@] != seq!["run"@]) by {
        assert(seq!["lib"@][0] == "lib"@);
        assert(seq!["run"@][0] == "run"@);
    }
    assert(seq!["lib"@] != seq!["var"@]) by {
        assert(seq!["lib"@][0] == "lib"@);
        assert(seq!["var"@][0] == "var"@);
    }
    assert(seq!["lib"@] != seq!["proc"@]) by {
        assert(seq!["lib"@][0] == "lib"@);
        assert(seq!["proc"@][0] == "proc"@);
    }
    assert(seq!["lib"@] != seq!["sys"@]) by {
        assert(seq!["lib"@][0] == "lib"@);
        assert(seq!["sys"@][0] == "sys"@);
    }
    assert(seq!["lib"@] != seq!["tmp"@]) by {
        assert(seq!["lib"@][0] == "lib"@);
        assert(seq!["tmp"@][0] == "tmp"@);
    }
    assert(seq!["lib"@] != seq!["usr"@]) by {
        assert(seq!["lib"@][0] == "lib"@);
        assert(seq!["usr"@][0] == "usr"@);
    }
    assert(seq!["lib"@] != seq!["app"@]) by {
        assert(seq!["lib"@][0] == "lib"@);
        assert(seq!["app"@][0] == "app"@);
    }
    assert(seq!["lib64"@] != seq!["sbin"@]) by {
        assert(seq!["lib64"@][0] == "lib64"@);
        assert(seq!["sbin"@][0] == "sbin"@);
    }
    assert(seq!["lib64"@] != seq!["dev"@]) by {
        assert(seq!["lib64"@][0] == "lib64"@);
        assert(seq!["dev"@][0] == "dev"@);
    }
    assert(seq!["lib64"@] != seq!["etc"@]) by {
        assert(seq!["lib64"@][0] == "lib64"@);
        assert(seq!["etc"@][0] == "etc"@);
    }
    assert(seq!["lib64"@] != seq!["run"@]) by {
        assert(seq!["lib64"@][0] == "lib64"@);
        assert(seq!["run"@][0] == "run"@);
    }
    assert(seq!["lib64"@] != seq!["var"@]) by {
        assert(seq!["lib64"@][0] == "lib64"@);
        assert(seq!["var"@][0] == "var"@);
    }
    assert(seq!["lib64"@] != seq!["proc"@]) by {
        assert(seq!["lib64"@][0] == "lib64"@);
        assert(seq!["proc"@][0] == "proc"@);
    }
    assert(seq!["lib64"@] != seq!["sys"@]) by {
        assert(seq!["lib64"@][0] == "lib64"@);
        assert(seq!["sys"@][0] == "sys"@);
    }
    assert(seq!["lib64"@] != seq!["tmp"@]) by {
        assert(seq!["lib64"@][0] == "lib64"@);
        assert(seq!["tmp"@][0] == "tmp"@);
    }
    assert(seq!["lib64"@] != seq!["usr"@]) by {
        assert(seq!["lib64"@][0] == "lib64"@);
        assert(seq!["usr"@][0] == "usr"@);
    }
    assert(seq!["lib64"@] != seq!["app"@]) by {
        assert(seq!["lib64"@][0] == "lib64"@);
        assert(seq!["app"@][0] == "app"@);
    }
    assert(seq!["sbin"@] != seq!["dev"@]) by {
        assert(seq!["sbin"@][0] == "sbin"@);
        assert(seq!["dev"@][0] == "dev"@);
    }
    assert(seq!["sbin"@] != seq!["etc"@]) by {
        assert(seq!["sbin"@][0] == "sbin"@);
        assert(seq!["etc"@][0] == "etc"@);
    }
    assert(seq!["sbin"@] != seq!["run"@]) by {
        assert(seq!["sbin"@][0] == "sbin"@);
        assert(seq!["run"@][0] == "run"@);
    }
    assert(seq!["sbin"@] != seq!["var"@]) by {
        assert(seq!["sbin"@][0] == "sbin"@);
        assert(seq!["var"@][0] == "var"@);
    }
    assert(seq!["sbin"@] != seq!["proc"@]) by {
        assert(seq!["sbin"@][0] == "sbin"@);
        assert(seq!["proc"@][0] == "proc"@);
    }
    assert(seq!["sbin"@] != seq!["sys"@]) by {
        assert(seq!["sbin"@][0] == "sbin"@);
        assert(seq!["sys"@][0] == "sys"@);
    }
    assert(seq!["sbin"@] != seq!["tmp"@]) by {
        assert(seq!["sbin"@][0] == "sbin"@);
        assert(seq!["tmp"@][0] == "tmp"@);
    }
    assert(seq!["sbin"@] != seq!["usr"@]) by {
        assert(seq!["sbin"@][0] == "sbin"@);
        assert(seq!["usr"@][0] == "usr"@);
    }
    assert(seq!["sbin"@] != seq!["app"@]) by {
        assert(seq!["sbin"@][0] == "sbin"@);
        assert(seq!["app"@][0] == "app"@);
    }
    assert(seq!["dev"@] != seq!["etc"@]) by {
        assert(seq!["dev"@][0] == "dev"@);
        assert(seq!["etc"@][0] == "etc"@);
    }
    assert(seq!["dev"@] != seq!["run"@]) by {
        assert(seq!["dev"@][0] == "dev"@);
        assert(seq!["run"@][0] == "run"@);
    }
    assert(seq!["dev"@] != seq!["var"@]) by {
        assert(seq!["dev"@][0] == "dev"@);
        assert(seq!["var"@][0] == "var"@);
    }
    assert(seq!["dev"@] != seq!["proc"@]) by {
        assert(seq!["dev"@][0] == "dev"@);
        assert(seq!["proc"@][0] == "proc"@);
    }
    assert(seq!["dev"@] != seq!["sys"@]) by {
        assert(seq!["dev"@][0] == "dev"@);
        assert(seq!["sys"@][0] == "sys"@);
    }
    assert(seq!["dev"@] != seq!["tmp"@]) by {
        assert(seq!["dev"@][0] == "dev"@);
        assert(seq!["tmp"@][0] == "tmp"@);
    }
    assert(seq!["dev"@] != seq!["usr"@]) by {
        assert(seq!["dev"@][0] == "dev"@);
        assert(seq!["usr"@][0] == "usr"@);
    }
    assert(seq!["dev"@] != seq!["app"@]) by {
        assert(seq!["dev"@][0] == "dev"@);
        assert(seq!["app"@][0] == "app"@);
    }
    assert(seq!["etc"@] != seq!["run"@]) by {
        assert(seq!["etc"@][0] == "etc"@);
        assert(seq!["run"@][0] == "run"@);
    }
    assert(seq!["etc"@] != seq!["var"@]) by {
        assert(seq!["etc"@][0] == "etc"@);
        assert(seq!["var"@][0] == "var"@);
    }
    assert(seq!["etc"@] != seq!["proc"@]) by {
        assert(seq!["etc"@][0] == "etc"@);
        assert(seq!["proc"@][0] == "proc"@);
    }
    assert(seq!["etc"@] != seq!["sys"@]) by {
        assert(seq!["etc"@][0] == "etc"@);
        assert(seq!["sys"@][0] == "sys"@);
    }
    assert(seq!["etc"@] != seq!["tmp"@]) by {
        assert(seq!["etc"@][0] == "etc"@);
        assert(seq!["tmp"@][0] == "tmp"@);
    }
    assert(seq!["etc"@] != seq!["usr"@]) by {
        assert(seq!["etc"@][0] == "etc"@);
        assert(seq!["usr"@][0] == "usr"@);
    }
    assert(seq!["etc"@] != seq!["app"@]) by {
        assert(seq!["etc"@][0] == "etc"@);
        assert(seq!["app"@][0] == "app"@);
    }
    assert(seq!["run"@] != seq!["var"@]) by {
        assert(seq!["run"@][0] == "run"@);
        assert(seq!["var"@][0] == "var"@);
    }
    assert(seq!["run"@] != seq!["proc"@]) by {
        assert(seq!["run"@][0] == "run"@);
        assert(seq!["proc"@][0] == "proc"@);
    }
    assert(seq!["run"@] != seq!["sys"@]) by {
        assert(seq!["run"@][0] == "run"@);
        assert(seq!["sys"@][0] == "sys"@);
    }
    assert(seq!["run"@] != seq!["tmp"@]) by {
        assert(seq!["run"@][0] == "run"@);
        assert(seq!["tmp"@][0] == "tmp"@);
    }
    assert(seq!["run"@] != seq!["usr"@]) by {
        assert(seq!["run"@][0] == "run"@);
        assert(seq!["usr"@][0] == "usr"@);
    }
    assert(seq!["run"@] != seq!["app"@]) by {
        assert(seq!["run"@][0] == "run"@);
        assert(seq!["app"@][0] == "app"@);
    }
    assert(seq!["var"@] != seq!["proc"@]) by {
        assert(seq!["var"@][0] == "var"@);
        assert(seq!["proc"@][0] == "proc"@);
    }
    assert(seq!["var"@] != seq!["sys"@]) by {
        assert(seq!["var"@][0] == "var"@);
        assert(seq!["sys"@][0] == "sys"@);
    }
    assert(seq!["var"@] != seq!["tmp"@]) by {
        assert(seq!["var"@][0] == "var"@);
        assert(seq!["tmp"@][0] == "tmp"@);
    }
    assert(seq!["var"@] != seq!["usr"@]) by {
        assert(seq!["var"@][0] == "var"@);
        assert(seq!["usr"@][0] == "usr"@);
    }
    assert(seq!["var"@] != seq!["app"@]) by {
        assert(seq!["var"@][0] == "var"@);
        assert(seq!["app"@][0] == "app"@);
    }
    assert(seq!["proc"@] != seq!["sys"@]) by {
        assert(seq!["proc"@][0] == "proc"@);
        assert(seq!["sys"@][0] == "sys"@);
    }
    assert(seq!["proc"@] != seq!["tmp"@]) by {
        assert(seq!["proc"@][0] == "proc"@);
        assert(seq!["tmp"@][0] == "tmp"@);
    }
    assert(seq!["proc"@] != seq!["usr"@]) by {
        assert(seq!["proc"@][0] == "proc"@);
        assert(seq!["usr"@][0] == "usr"@);
    }
    assert(seq!["proc"@] != seq!["app"@]) by {
        assert(seq!["proc"@][0] == "proc"@);
        assert(seq!["app"@][0] == "app"@);
    }
    assert(seq!["sys"@] != seq!["tmp"@]) by {
        assert(seq!["sys"@][0] == "sys"@);
        assert(seq!["tmp"@][0] == "tmp"@);
    }
    assert(seq!["sys"@] != seq!["usr"@]) by {
        assert(seq!["sys"@][0] == "sys"@);
        assert(seq!["usr"@][0] == "usr"@);
    }
    assert(seq!["sys"@] != seq!["app"@]) by {
        assert(seq!["sys"@][0] == "sys"@);
        assert(seq!["app"@][0] == "app"@);
    }
    assert(seq!["tmp"@] != seq!["usr"@]) by {
        assert(seq!["tmp"@][0] == "tmp"@);
        assert(seq!["usr"@][0] == "usr"@);
    }
    assert(seq!["tmp"@] != seq!["app"@]) by {
        assert(seq!["tmp"@][0] == "tmp"@);
        assert(seq!["app"@][0] == "app"@);
    }
    assert(seq!["usr"@] != seq!["app"@]) by {
        assert(seq!["usr"@][0] == "usr"@);
        assert(seq!["app"@][0] == "app"@);
    }
}

} // verus!
