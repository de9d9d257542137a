use flatpak_next::error::Error;
use flatpak_next::index::{build_index, image_url, oci_arch, ImageRecord, NameRecord};
use flatpak_next::reference::Ref;

fn demo_records() -> Vec<NameRecord> {
    vec![
        NameRecord {
            name: "com.x".to_owned(),
            images: vec![ImageRecord {
                digest: "sha256:aaaa".to_owned(),
                ref_text: "app/com.x/amd64/stable".to_owned(),
                metadata: "[Application]\ncommand=/app/bin/demo\n".to_owned(),
            }],
        },
        NameRecord {
            name: "org.y.Platform".to_owned(),
            images: vec![ImageRecord {
                digest: "sha256:bbbb".to_owned(),
                ref_text: "runtime/org.y.Platform/amd64/24".to_owned(),
                metadata: "[Environment]\nLD_LIBRARY_PATH=/app/lib\n".to_owned(),
            }],
        },
    ]
}

#[test]
fn list_contains_both_references() {
    let idx = build_index(&demo_records()).unwrap();
    let lines = idx.list();
    assert_eq!(lines.len(), 2);
    assert!(lines.contains(&"app/com.x/amd64/stable".to_owned()));
    assert!(lines.contains(&"runtime/org.y.Platform/amd64/24".to_owned()));
}

#[test]
fn search_matches_both() {
    let idx = build_index(&demo_records()).unwrap();
    let hits = idx.search("amd64");
    assert_eq!(hits.len(), 2);
}

#[test]
fn search_is_case_insensitive() {
    let idx = build_index(&demo_records()).unwrap();
    assert_eq!(idx.search("AMD64").len(), 2);
    assert_eq!(idx.search("PLATFORM").len(), 1);
    assert_eq!(idx.search("nothing-like-this").len(), 0);
}

#[test]
fn info_address() {
    let idx = build_index(&demo_records()).unwrap();
    let r = Ref::parse("app/com.x/amd64/stable").unwrap();
    let (image, metadata) = idx.get(&r).unwrap();
    assert_eq!(image, "com.x@sha256:aaaa");
    assert!(metadata.starts_with("[Application]"));
    assert_eq!(
        image_url("https://registry.fedoraproject.org/", image),
        "https://registry.fedoraproject.org/com.x@sha256:aaaa"
    );
}

#[test]
fn get_unknown_reference() {
    let idx = build_index(&demo_records()).unwrap();
    let r = Ref::parse("app/org.other/amd64/stable").unwrap();
    assert!(idx.get(&r).is_none());
}

#[test]
fn build_rejects_invalid_reference() {
    let mut records = demo_records();
    records[0].images[0].ref_text = "app/".to_owned();
    assert_eq!(build_index(&records).unwrap_err(), Error::InvalidRef);
}

#[test]
fn later_row_replaces_earlier() {
    let mut records = demo_records();
    records[1].images[0].ref_text = "app/com.x/amd64/stable".to_owned();
    let idx = build_index(&records).unwrap();
    assert_eq!(idx.list().len(), 1);
    let r = Ref::parse("app/com.x/amd64/stable").unwrap();
    let (image, _) = idx.get(&r).unwrap();
    assert_eq!(image, "org.y.Platform@sha256:bbbb");
}

#[test]
fn oci_arch_names() {
    assert_eq!(oci_arch("aarch64"), "arm64");
    assert_eq!(oci_arch("x86"), "386");
    assert_eq!(oci_arch("x86_64"), "amd64");
    assert_eq!(oci_arch("riscv64"), "riscv64");
}
