use flatpak_next::error::Error;
use flatpak_next::reference::{valid_ref, Ref};

#[test]
fn parse_valid_app_ref() {
    let r = Ref::parse("app/com.x/amd64/stable").unwrap();
    assert!(r.is_app());
    assert!(!r.is_runtime());
    assert_eq!(r.get_id(), "com.x");
    assert_eq!(r.get_arch(), "amd64");
    assert_eq!(r.get_branch(), "stable");
    assert_eq!(r.part(0), "app");
    assert_eq!(r.part(3), "stable");
}

#[test]
fn parse_serialize_roundtrip() {
    let text = "runtime/org.y.Platform/amd64/24";
    let r = Ref::parse(text).unwrap();
    assert_eq!(r.serialize(), text);
    let again = Ref::parse(&r.serialize()).unwrap();
    assert!(again.same_ref(&r));
}

#[test]
fn parse_app_slash_fails() {
    assert!(!valid_ref("app/"));
    assert_eq!(Ref::parse("app/").unwrap_err(), Error::InvalidRef);
}

#[test]
fn parse_five_segments_fails() {
    assert_eq!(Ref::parse("app/a/b/c/d").unwrap_err(), Error::InvalidRef);
    assert!(!valid_ref("app/a/b/c/d"));
}

#[test]
fn parse_three_segments_fails() {
    assert!(!valid_ref("app/a/b"));
}

#[test]
fn parse_empty_part_fails() {
    assert!(!valid_ref("app//amd64/stable"));
}

#[test]
fn parse_wrong_kind_fails() {
    assert!(!valid_ref("bundle/a/b/c"));
}

#[test]
fn valid_ref_accepts_both_kinds() {
    assert!(valid_ref("app/a/b/c"));
    assert!(valid_ref("runtime/a/b/c"));
}

#[test]
fn new_runtime_promotes() {
    let r = Ref::new_runtime("org.y.Platform/amd64/24").unwrap();
    assert!(r.is_runtime());
    assert_eq!(r.serialize(), "runtime/org.y.Platform/amd64/24");
}

#[test]
fn new_runtime_rejects_short_text() {
    assert_eq!(Ref::new_runtime("only/two").unwrap_err(), Error::InvalidRef);
}

#[test]
fn get_parts_has_no_remote() {
    let r = Ref::parse("app/com.x/amd64/stable").unwrap();
    let (remote, kind, id, arch, branch) = r.get_parts();
    assert!(remote.is_none());
    assert!(r.get_remote().is_none());
    assert_eq!(kind, "app");
    assert_eq!(id, "com.x");
    assert_eq!(arch, "amd64");
    assert_eq!(branch, "stable");
}

#[test]
fn duplicate_keeps_parts() {
    let r = Ref::parse("app/com.x/amd64/stable").unwrap();
    let d = r.duplicate();
    assert!(d.same_ref(&r));
}
