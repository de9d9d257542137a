use flatpak_next::error::Error;
use flatpak_next::idmap::{
    compute_mapping, find_range, flatten, helper_script, map_file_line, parse_subid_line,
    plan_userns, preserve_pair, MappingType, SandboxType, UserNsPlan,
};

#[test]
fn mapping_empty_range_with_pin() {
    assert_eq!(compute_mapping(0..0, Some((5, 7))), vec![5, 7, 1]);
}

#[test]
fn mapping_range_with_low_pin() {
    assert_eq!(
        compute_mapping(100..110, Some((3, 1000))),
        vec![0, 100, 3, 3, 1000, 1, 4, 103, 7]
    );
}

#[test]
fn mapping_range_without_pin() {
    assert_eq!(compute_mapping(100..110, None), vec![0, 100, 10]);
}

#[test]
fn mapping_empty_range_without_pin() {
    assert_eq!(compute_mapping(7..7, None), Vec::<u32>::new());
}

#[test]
fn mapping_pin_at_zero() {
    assert_eq!(compute_mapping(100..110, Some((0, 1000))), vec![0, 1000, 1, 1, 100, 10]);
}

#[test]
fn flatten_renders_space_separated() {
    assert_eq!(flatten(&vec![0, 100, 3]), "0 100 3");
    assert_eq!(flatten(&vec![42]), "42");
    assert_eq!(flatten(&Vec::new()), "");
}

#[test]
fn subid_line_for_user() {
    assert_eq!(parse_subid_line("alice:100000:65536", "alice").unwrap(), Some((100000, 65536)));
}

#[test]
fn subid_line_other_user() {
    assert_eq!(parse_subid_line("bob:100000:65536", "alice").unwrap(), None);
}

#[test]
fn subid_line_malformed() {
    assert_eq!(
        parse_subid_line("alice:ten:65536", "alice").unwrap_err(),
        Error::MalformedSubidLine
    );
    assert_eq!(parse_subid_line("alice:100000", "alice").unwrap_err(), Error::MalformedSubidLine);
}

#[test]
fn find_range_scans_lines() {
    let text = "root:0:1\nalice:100000:65536\nbob:200000:65536\n";
    assert_eq!(find_range(text, "alice").unwrap(), Some((100000, 65536)));
    assert_eq!(find_range(text, "carol").unwrap(), None);
}

#[test]
fn find_range_first_match_decides() {
    let text = "alice:1:2\nalice:3:4\n";
    assert_eq!(find_range(text, "alice").unwrap(), Some((1, 2)));
}

#[test]
fn find_range_malformed_match_fails() {
    let text = "alice:bad:4\n";
    assert_eq!(find_range(text, "alice").unwrap_err(), Error::MalformedSubidLine);
}

#[test]
fn preserve_pair_modes() {
    assert_eq!(preserve_pair(&MappingType::NoPreserve, 1000, 1000, 500, 600), (None, None));
    assert_eq!(
        preserve_pair(&MappingType::PreserveAsRoot, 1000, 1001, 500, 600),
        (Some((0, 500)), Some((0, 600)))
    );
    assert_eq!(
        preserve_pair(&MappingType::PreserveAsUser, 1000, 1001, 500, 600),
        (Some((1000, 500)), Some((1001, 600)))
    );
}

#[test]
fn plan_simple() {
    let p = plan_userns(&SandboxType::Simple, 1000, 1000, 1000, 1000, None, None).unwrap();
    assert!(matches!(p, UserNsPlan::Simple));
}

#[test]
fn plan_required_without_ranges_fails() {
    let e = plan_userns(
        &SandboxType::RequireMapping(MappingType::PreserveAsUser),
        1000,
        1000,
        1000,
        1000,
        None,
        Some((1, 2)),
    )
    .unwrap_err();
    assert_eq!(e, Error::MappingRequired);
}

#[test]
fn plan_try_without_ranges_falls_back() {
    let p = plan_userns(
        &SandboxType::TryMapping(MappingType::PreserveAsUser),
        1000,
        1000,
        1000,
        1000,
        None,
        None,
    )
    .unwrap();
    assert!(matches!(p, UserNsPlan::Simple));
}

#[test]
fn plan_try_with_ranges_uses_helpers() {
    let p = plan_userns(
        &SandboxType::TryMapping(MappingType::PreserveAsUser),
        1000,
        1000,
        500,
        600,
        Some((100000, 65536)),
        Some((200000, 65536)),
    )
    .unwrap();
    match p {
        UserNsPlan::Helpers { uidmap, gidmap } => {
            assert_eq!(uidmap, vec![0, 100000, 1000, 1000, 500, 1, 1001, 101000, 64536]);
            assert_eq!(gidmap, vec![0, 200000, 1000, 1000, 600, 1, 1001, 201000, 64536]);
        }
        UserNsPlan::Simple => panic!("expected the helper path"),
    }
}

#[test]
fn helper_script_shape() {
    assert_eq!(
        helper_script(42, "0 100000 65536", "0 200000 65536"),
        "read; newuidmap 42 0 100000 65536; newgidmap 42 0 200000 65536;"
    );
}

#[test]
fn map_file_line_shape() {
    assert_eq!(map_file_line(1000, 500), "1000 500 1\n");
}
