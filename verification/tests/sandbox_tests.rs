use std::collections::HashMap;

use flatpak_next::error::Error;
use flatpak_next::fstree::Node;
use flatpak_next::idmap::{MappingType, SandboxType};
use flatpak_next::instance::Instance;
use flatpak_next::manifest::Manifest;
use flatpak_next::mountplan::{fuse_plan, tmpfs_plan, FsOption};
use flatpak_next::reference::Ref;
use flatpak_next::sandbox::{
    choose_command, compose_env, default_shares, group_content, passwd_content, EnvMap, Sandbox,
    WaylandMode,
};

fn demo_sandbox() -> Sandbox {
    Sandbox {
        reference: Ref::parse("runtime/org.y.Platform/amd64/24").unwrap(),
        instance: Instance::from_pid(4242),
        sandbox_type: SandboxType::TryMapping(MappingType::PreserveAsUser),
        uid: 1000,
        gid: 1000,
        host_uid: 1000,
        host_gid: 1000,
        username: "alice".to_owned(),
        groupname: "alice".to_owned(),
        gecos: "Alice".to_owned(),
        home: "/home/alice".to_owned(),
        share: default_shares(),
        env: EnvMap::new(),
    }
}

/// Applies an environment plan the way the launcher does: later entries
/// win, a `None` value removes the variable.
fn realize(env: &EnvMap) -> HashMap<String, String> {
    let mut out = HashMap::new();
    for (k, v) in &env.entries {
        match v {
            Some(v) => {
                out.insert(k.clone(), v.clone());
            }
            None => {
                out.remove(k);
            }
        }
    }
    out
}

#[test]
fn compose_env_keeps_manifest_values() {
    let runtime_env = vec![
        ("LD_LIBRARY_PATH".to_owned(), "/app/lib".to_owned()),
        ("GSETTINGS_BACKEND".to_owned(), "keyfile".to_owned()),
        ("PATH".to_owned(), "/usr/local/bin".to_owned()),
    ];
    let mut overrides = EnvMap::new();
    overrides.setenv("XDG_RUNTIME_DIR", "/run/user/1000".to_owned());
    overrides.setenv("WAYLAND_DISPLAY", "wayland-0".to_owned());
    let composed = compose_env(&runtime_env, &overrides, "org.y.Demo");
    let env = realize(&composed);
    assert_eq!(env["LD_LIBRARY_PATH"], "/app/lib");
    assert_eq!(env["GSETTINGS_BACKEND"], "keyfile");
    assert_eq!(env["PATH"], "/app/bin:/usr/bin");
    assert_eq!(env["FLATPAK_ID"], "org.y.Demo");
    assert_eq!(env["XDG_RUNTIME_DIR"], "/run/user/1000");
    assert_eq!(env["WAYLAND_DISPLAY"], "wayland-0");
    assert!(env.contains_key("PS1"));
}

#[test]
fn compose_env_override_removes() {
    let runtime_env = vec![("DEBUG".to_owned(), "1".to_owned())];
    let mut overrides = EnvMap::new();
    overrides.unsetenv("DEBUG");
    let composed = compose_env(&runtime_env, &overrides, "org.y.Demo");
    let env = realize(&composed);
    assert!(!env.contains_key("DEBUG"));
}

#[test]
fn choose_command_prefers_cli() {
    assert_eq!(choose_command(Some("/bin/echo"), None).unwrap(), "/bin/echo");
    let m = Manifest::new("[Application]\ncommand=/app/bin/demo\n").unwrap();
    assert_eq!(choose_command(Some("/bin/echo"), Some(&m)).unwrap(), "/bin/echo");
}

#[test]
fn choose_command_uses_manifest() {
    let m = Manifest::new("[Application]\ncommand=/app/bin/demo\n").unwrap();
    assert_eq!(choose_command(None, Some(&m)).unwrap(), "/app/bin/demo");
}

#[test]
fn choose_command_defaults_to_shell() {
    assert_eq!(choose_command(None, None).unwrap(), "/bin/sh");
}

#[test]
fn choose_command_missing_manifest_command() {
    let m = Manifest::new("[Application]\nruntime=a/b/c\n").unwrap();
    assert_eq!(choose_command(None, Some(&m)).unwrap_err(), Error::MissingKey);
}

#[test]
fn passwd_group_shapes() {
    assert_eq!(
        passwd_content("alice", 1000, 1000, "Alice", "/home/alice"),
        "root:x:0:0:root:/root:/bin/bash\nalice:x:1000:1000:Alice:/home/alice:/bin/bash\nhost:x:65534:65534:Host files:/:/\n"
    );
    assert_eq!(group_content("alice", 1000), "root:x:0:0:\nalice:x:1000:0:\nhost:x:65534:0:\n");
}

#[test]
fn rootfs_for_runtime_has_usr_and_no_app() {
    let mut sb = demo_sandbox();
    let usr = fuse_plan(&sb.reference.duplicate(), 7, 1000, 1000).mount();
    let tree = sb
        .create_rootfs(None, usr, None, &WaylandMode::Unavailable, "/run/user/1000")
        .unwrap();
    match tree.get("usr").unwrap() {
        Node::Mount { handle } => assert_eq!(handle.plan.fstype, "fuse"),
        _ => panic!("expected the runtime image mounted at usr"),
    }
    assert!(tree.get("app").is_none());
    match tree.get("etc/passwd").unwrap() {
        Node::File { mode, content } => {
            assert_eq!(*mode, 0o644);
            assert!(content.contains("alice:x:1000:1000:Alice:/home/alice:/bin/bash\n"));
        }
        _ => panic!("expected the synthesized passwd file"),
    }
    match tree.get("dev/null").unwrap() {
        Node::BindFile { source } => assert_eq!(source, "/dev/null"),
        _ => panic!("expected the bound device file"),
    }
    assert!(matches!(tree.get("dev/pts").unwrap(), Node::Mount { .. }));
    assert!(matches!(tree.get("tmp").unwrap(), Node::Mount { .. }));
    assert!(matches!(tree.get("proc").unwrap(), Node::BindDir { .. }));
    assert!(matches!(tree.get("bin").unwrap(), Node::Symlink { .. }));
    // the home share binds the host home directory
    match tree.get("home/alice").unwrap() {
        Node::BindDir { source } => assert_eq!(source, "/home/alice"),
        _ => panic!("expected the bound home directory"),
    }
}

#[test]
fn rootfs_for_app_mounts_both_images() {
    let mut sb = demo_sandbox();
    sb.reference = Ref::parse("app/com.x/amd64/stable").unwrap();
    sb.share.home = false;
    sb.share.wayland = false;
    let usr = fuse_plan(&Ref::parse("runtime/org.y.Platform/amd64/24").unwrap(), 7, 1000, 1000)
        .mount();
    let app = fuse_plan(&sb.reference.duplicate(), 8, 1000, 1000).mount();
    let tree = sb
        .create_rootfs(Some(app), usr, Some("/dev/pts/0"), &WaylandMode::Unavailable, "/run/user/1000")
        .unwrap();
    assert!(matches!(tree.get("usr").unwrap(), Node::Mount { .. }));
    assert!(matches!(tree.get("app").unwrap(), Node::Mount { .. }));
    match tree.get("dev/console").unwrap() {
        Node::BindFile { source } => assert_eq!(source, "/dev/pts/0"),
        _ => panic!("expected the controlling terminal bound at console"),
    }
    // home not shared: an empty directory is created instead
    assert!(matches!(tree.get("home/alice").unwrap(), Node::Dir { .. }));
}

#[test]
fn rootfs_sets_runtime_dir_environment() {
    let mut sb = demo_sandbox();
    sb.share.xdg_runtime_dir = false;
    let usr = fuse_plan(&sb.reference.duplicate(), 7, 1000, 1000).mount();
    let tree = sb
        .create_rootfs(
            None,
            usr,
            None,
            &WaylandMode::Fallback("/run/user/1000/wayland-0".to_owned()),
            "/run/user/1000",
        )
        .unwrap();
    let env = realize(&sb.env);
    assert_eq!(env["XDG_RUNTIME_DIR"], "/run/user/1000");
    assert_eq!(env["WAYLAND_DISPLAY"], "wayland-0");
    match tree.get("run/user/1000/wayland-0").unwrap() {
        Node::BindFile { source } => assert_eq!(source, "/run/user/1000/wayland-0"),
        _ => panic!("expected the host wayland socket bound inside"),
    }
}

#[test]
fn rootfs_unsets_wayland_when_unavailable() {
    let mut sb = demo_sandbox();
    sb.env.setenv("WAYLAND_DISPLAY", "wayland-1".to_owned());
    sb.share.xdg_runtime_dir = false;
    let usr = fuse_plan(&sb.reference.duplicate(), 7, 1000, 1000).mount();
    sb.create_rootfs(None, usr, None, &WaylandMode::Unavailable, "/run/user/1000").unwrap();
    let env = realize(&sb.env);
    assert!(!env.contains_key("WAYLAND_DISPLAY"));
}

#[test]
fn tmpfs_plan_options() {
    let plan = tmpfs_plan("shm", 0o1777);
    assert_eq!(plan.fstype, "tmpfs");
    assert_eq!(plan.options.len(), 2);
    match &plan.options[1] {
        FsOption::Str(k, v) => {
            assert_eq!(k, "mode");
            assert_eq!(v, "1777");
        }
        _ => panic!("expected the mode option"),
    }
}

#[test]
fn fuse_plan_options() {
    let r = Ref::parse("runtime/org.y.Platform/amd64/24").unwrap();
    let plan = fuse_plan(&r, 7, 1000, 1001);
    assert_eq!(plan.fstype, "fuse");
    let mut flags = Vec::new();
    let mut pairs = Vec::new();
    for o in &plan.options {
        match o {
            FsOption::Flag(f) => flags.push(f.clone()),
            FsOption::Str(k, v) => pairs.push((k.clone(), v.clone())),
        }
    }
    assert_eq!(flags, vec!["ro".to_owned(), "allow_other".to_owned()]);
    assert_eq!(
        pairs,
        vec![
            ("source".to_owned(), "composefs-fuse:runtime/org.y.Platform/amd64/24".to_owned()),
            ("fd".to_owned(), "7".to_owned()),
            ("rootmode".to_owned(), "40555".to_owned()),
            ("user_id".to_owned(), "1000".to_owned()),
            ("group_id".to_owned(), "1001".to_owned()),
        ]
    );
}

#[test]
fn populate_etc_succeeds_on_fresh_tree() {
    let sb = demo_sandbox();
    let mut tree = flatpak_next::fstree::DirBuilder::new();
    sb.populate_etc(&mut tree).unwrap();
    assert!(matches!(tree.get("etc/resolv.conf").unwrap(), Node::BindFile { .. }));
    match tree.get("etc/group").unwrap() {
        Node::File { content, .. } => {
            assert_eq!(content, "root:x:0:0:\nalice:x:1000:0:\nhost:x:65534:0:\n");
        }
        _ => panic!("expected the synthesized group file"),
    }
}

#[test]
fn populate_etc_refuses_existing_file() {
    let sb = demo_sandbox();
    let mut tree = flatpak_next::fstree::DirBuilder::new();
    tree.create_file("etc/passwd").unwrap();
    assert_eq!(sb.populate_etc(&mut tree).unwrap_err(), Error::AlreadyExists);
}

#[test]
fn populate_etc_refuses_blocked_parent() {
    let sb = demo_sandbox();
    let mut tree = flatpak_next::fstree::DirBuilder::new();
    tree.create_file("etc").unwrap();
    assert_eq!(sb.populate_etc(&mut tree).unwrap_err(), Error::NotADirectory);
}

#[test]
fn populate_dev_refuses_existing_entry() {
    let sb = demo_sandbox();
    let mut tree = flatpak_next::fstree::DirBuilder::new();
    tree.create_file("dev/null").unwrap();
    assert_eq!(sb.populate_dev(&mut tree, None).unwrap_err(), Error::AlreadyExists);
}

#[test]
fn populate_dev_fills_fresh_tree() {
    let sb = demo_sandbox();
    let mut tree = flatpak_next::fstree::DirBuilder::new();
    sb.populate_dev(&mut tree, None).unwrap();
    assert!(tree.get("dev/console").is_none());
    match tree.get("dev/stdin").unwrap() {
        Node::Symlink { target } => assert_eq!(target, "/proc/self/fd/0"),
        _ => panic!("expected the descriptor symlink"),
    }
    assert!(matches!(tree.get("dev/shm").unwrap(), Node::Mount { .. }));
}

#[test]
fn shared_runtime_dir_binds_host_directory() {
    let mut sb = demo_sandbox();
    sb.share.xdg_runtime_dir = true;
    let mut tree = flatpak_next::fstree::DirBuilder::new();
    sb.populate_run_user(&mut tree, &WaylandMode::Unavailable, "/run/user/1000").unwrap();
    match tree.get("run/user/1000").unwrap() {
        Node::BindDir { source } => assert_eq!(source, "/run/user/1000"),
        _ => panic!("expected the host runtime directory bound whole"),
    }
}

#[test]
fn session_bus_is_bound_when_shared() {
    let mut sb = demo_sandbox();
    sb.share.xdg_runtime_dir = false;
    sb.share.session_bus = true;
    let mut tree = flatpak_next::fstree::DirBuilder::new();
    sb.populate_run_user(&mut tree, &WaylandMode::Unavailable, "/run/user/1000").unwrap();
    match tree.get("run/user/1000/bus").unwrap() {
        Node::BindFile { source } => assert_eq!(source, "/run/user/1000/bus"),
        _ => panic!("expected the session bus bound inside"),
    }
}

#[test]
fn rootfs_refuses_colliding_home() {
    let mut sb = demo_sandbox();
    sb.home = "/etc".to_owned();
    let usr = fuse_plan(&sb.reference.duplicate(), 7, 1000, 1000).mount();
    let e = sb
        .create_rootfs(None, usr, None, &WaylandMode::Unavailable, "/run/user/1000")
        .unwrap_err();
    assert_eq!(e, Error::AlreadyExists);
}
