use flatpak_next::error::Error;
use flatpak_next::fstree::{DirBuilder, Node};
use flatpak_next::mountplan::tmpfs_plan;

#[test]
fn create_dir_with_parents() {
    let mut b = DirBuilder::new();
    b.create_dir("a/b/c", 0o700, false).unwrap();
    match b.get("a").unwrap() {
        Node::Dir { mode } => assert_eq!(*mode, 0o700),
        _ => panic!("expected a directory"),
    }
    match b.get("a/b/c").unwrap() {
        Node::Dir { mode } => assert_eq!(*mode, 0o700),
        _ => panic!("expected a directory"),
    }
}

#[test]
fn create_dir_exist_ok_is_idempotent() {
    let mut b = DirBuilder::new();
    b.create_dir("run/user", 0o755, true).unwrap();
    b.create_dir("run/user", 0o755, true).unwrap();
    assert!(matches!(b.get("run/user").unwrap(), Node::Dir { .. }));
}

#[test]
fn create_dir_refuses_existing_without_exist_ok() {
    let mut b = DirBuilder::new();
    b.create_dir("tmp", 0o755, false).unwrap();
    assert_eq!(b.create_dir("tmp", 0o755, false).unwrap_err(), Error::AlreadyExists);
}

#[test]
fn create_file_modes() {
    let mut b = DirBuilder::new();
    b.write("etc/passwd", "root:x:0:0:root:/root:/bin/bash\n").unwrap();
    match b.get("etc/passwd").unwrap() {
        Node::File { mode, content } => {
            assert_eq!(*mode, 0o644);
            assert_eq!(content, "root:x:0:0:root:/root:/bin/bash\n");
        }
        _ => panic!("expected a file"),
    }
    match b.get("etc").unwrap() {
        Node::Dir { mode } => assert_eq!(*mode, 0o755),
        _ => panic!("expected a directory"),
    }
}

#[test]
fn create_file_refuses_existing() {
    let mut b = DirBuilder::new();
    b.create_file("dev/console").unwrap();
    assert_eq!(b.create_file("dev/console").unwrap_err(), Error::AlreadyExists);
}

#[test]
fn bind_file_target_is_regular_file() {
    let mut b = DirBuilder::new();
    b.bind_file("dev/null", "/dev/null").unwrap();
    match b.get("dev/null").unwrap() {
        Node::BindFile { source } => assert_eq!(source, "/dev/null"),
        _ => panic!("expected a file-backed bind"),
    }
}

#[test]
fn bind_file_refuses_existing_directory() {
    let mut b = DirBuilder::new();
    b.create_dir("dev/null", 0o755, false).unwrap();
    assert_eq!(b.bind_file("dev/null", "/dev/null").unwrap_err(), Error::AlreadyExists);
}

#[test]
fn symlink_needs_parents() {
    let mut b = DirBuilder::new();
    assert_eq!(b.symlink("var/run", "../run").unwrap_err(), Error::MissingParent);
    b.create_dir("var", 0o755, false).unwrap();
    b.symlink("var/run", "../run").unwrap();
    match b.get("var/run").unwrap() {
        Node::Symlink { target } => assert_eq!(target, "../run"),
        _ => panic!("expected a symlink"),
    }
}

#[test]
fn empty_component_is_invalid() {
    let mut b = DirBuilder::new();
    assert_eq!(b.create_dir("", 0o755, true).unwrap_err(), Error::InvalidPath);
    assert_eq!(b.create_dir("a//b", 0o755, true).unwrap_err(), Error::InvalidPath);
}

#[test]
fn file_blocks_deeper_paths() {
    let mut b = DirBuilder::new();
    b.create_file("etc/passwd").unwrap();
    assert_eq!(b.create_dir("etc/passwd/sub", 0o755, true).unwrap_err(), Error::NotADirectory);
}

#[test]
fn mount_attaches_plan() {
    let mut b = DirBuilder::new();
    let plan = tmpfs_plan("tmp", 0o1777);
    let handle = plan.mount();
    b.mount("tmp", handle).unwrap();
    match b.get("tmp").unwrap() {
        Node::Mount { handle } => assert_eq!(handle.plan.fstype, "tmpfs"),
        _ => panic!("expected a mount"),
    }
}

#[test]
fn creating_under_mount_is_allowed() {
    let mut b = DirBuilder::new();
    let plan = tmpfs_plan("xdg-runtime-dir", 0o700);
    b.mount("run/user/1000", plan.mount()).unwrap();
    b.bind_file("run/user/1000/bus", "/run/user/1000/bus").unwrap();
    assert!(matches!(b.get("run/user/1000/bus").unwrap(), Node::BindFile { .. }));
}
