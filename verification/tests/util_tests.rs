use flatpak_next::argsfd::{args_fd_arg, ArgsFdBuilder};
use flatpak_next::error::Error;
use flatpak_next::install::{image_config_name, image_reference, pull_name, stale_link_path, tree_name};
use flatpak_next::instance::Instance;
use flatpak_next::numfmt::{parse_u32, u32_to_dec, u32_to_oct};
use flatpak_next::reference::Ref;
use flatpak_next::util::{nameat, AT_FDCWD};

#[test]
fn nameat_cwd_and_absolute_pass_through() {
    assert_eq!(nameat(AT_FDCWD, "some/file"), "some/file");
    assert_eq!(nameat(5, "/abs/path"), "/abs/path");
}

#[test]
fn nameat_empty_names_descriptor() {
    assert_eq!(nameat(5, ""), "/proc/self/fd/5");
}

#[test]
fn nameat_relative_under_descriptor() {
    assert_eq!(nameat(12, "wayland-0"), "/proc/self/fd/12/wayland-0");
}

#[test]
fn args_builder_stores_nul_terminated() {
    let mut b = ArgsFdBuilder::new();
    b.add(b"--log").unwrap();
    b.extend(&vec![b"a".to_vec(), b"bc".to_vec()]).unwrap();
    assert_eq!(b.done(), b"--log\0a\0bc\0".to_vec());
}

#[test]
fn args_builder_rejects_nul() {
    let mut b = ArgsFdBuilder::new();
    assert_eq!(b.add(b"bad\0arg").unwrap_err(), Error::NulArgument);
    assert_eq!(b.done(), Vec::<u8>::new());
}

#[test]
fn args_builder_respects_pipe_capacity() {
    let mut b = ArgsFdBuilder::new();
    let big = vec![b'x'; 40000];
    b.add(&big).unwrap();
    assert_eq!(b.add(&big).unwrap_err(), Error::ArgsCapacity);
}

#[test]
fn args_fd_argument_shape() {
    assert_eq!(args_fd_arg(17), "--args=17");
}

#[test]
fn instance_id_is_decimal_pid() {
    assert_eq!(Instance::from_pid(4242).get_id(), "4242");
}

#[test]
fn decimal_and_octal_renderings() {
    assert_eq!(u32_to_dec(0), "0");
    assert_eq!(u32_to_dec(4294967295), "4294967295");
    assert_eq!(u32_to_oct(0o1777), "1777");
    assert_eq!(u32_to_oct(0), "0");
    assert_eq!(u32_to_oct(0o40555), "40555");
}

#[test]
fn parse_u32_cases() {
    assert_eq!(parse_u32("0"), Some(0));
    assert_eq!(parse_u32("+65536"), Some(65536));
    assert_eq!(parse_u32("4294967295"), Some(4294967295));
    assert_eq!(parse_u32("4294967296"), None);
    assert_eq!(parse_u32(""), None);
    assert_eq!(parse_u32("+"), None);
    assert_eq!(parse_u32("12a"), None);
    assert_eq!(parse_u32("-1"), None);
}

#[test]
fn hex_name_of_config_digest() {
    assert_eq!(image_config_name(&[0x01, 0x02, 0x03, 0x0f, 0x10]), "0102030f10");
    assert_eq!(image_config_name(&[]), "");
    assert_eq!(image_config_name(&[0xab, 0xcd, 0xef]), "abcdef");
}

#[test]
fn image_reference_rewrites_scheme() {
    assert_eq!(
        image_reference("https://registry.fedoraproject.org/", "com.x@sha256:aaaa"),
        "docker://registry.fedoraproject.org/com.x@sha256:aaaa"
    );
    assert_eq!(image_reference("oci://mirror/", "x@y"), "oci://mirror/x@y");
}

#[test]
fn store_names() {
    let r = Ref::parse("runtime/org.y.Platform/amd64/24").unwrap();
    assert_eq!(pull_name(&r), "flatpak-rs/runtime/org.y.Platform/amd64/24");
    assert_eq!(tree_name(&r), "refs/flatpak-rs/runtime/org.y.Platform/amd64/24");
    assert_eq!(stale_link_path(&r), "../streams/refs/flatpak-rs/runtime/org.y.Platform/amd64/24");
}
