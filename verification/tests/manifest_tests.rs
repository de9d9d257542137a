use flatpak_next::error::Error;
use flatpak_next::manifest::Manifest;

const SAMPLE: &str = "[Application]\nname=org.y.Demo\nruntime=org.y.Platform/amd64/24\ncommand=/app/bin/demo\n\n[Environment]\nLD_LIBRARY_PATH=/app/lib\nGSETTINGS_BACKEND=keyfile\n";

#[test]
fn manifest_lookups() {
    let m = Manifest::new(SAMPLE).unwrap();
    assert_eq!(m.get("Application", "command").unwrap(), "/app/bin/demo");
    assert_eq!(m.get("Application", "runtime").unwrap(), "org.y.Platform/amd64/24");
    assert_eq!(m.get_opt("Application", "name"), Some("org.y.Demo"));
    assert_eq!(m.get_opt("Application", "missing"), None);
    assert_eq!(m.get_opt("Missing", "name"), None);
}

#[test]
fn manifest_missing_section_and_key() {
    let m = Manifest::new(SAMPLE).unwrap();
    assert_eq!(m.get("Services", "name").unwrap_err(), Error::MissingSection);
    assert_eq!(m.get("Application", "icon").unwrap_err(), Error::MissingKey);
}

#[test]
fn manifest_runtime_reference() {
    let m = Manifest::new(SAMPLE).unwrap();
    let r = m.get_runtime().unwrap();
    assert_eq!(r.serialize(), "runtime/org.y.Platform/amd64/24");
}

#[test]
fn manifest_runtime_invalid_shape() {
    let m = Manifest::new("[Application]\nruntime=too/many/parts/here\n").unwrap();
    assert_eq!(m.get_runtime().unwrap_err(), Error::InvalidRef);
}

#[test]
fn manifest_environment_entries() {
    let m = Manifest::new(SAMPLE).unwrap();
    let env = m.get_environment().unwrap();
    assert_eq!(env.len(), 2);
    assert_eq!(env[0].0, "LD_LIBRARY_PATH");
    assert_eq!(env[0].1, "/app/lib");
    assert_eq!(env[1].0, "GSETTINGS_BACKEND");
    assert_eq!(env[1].1, "keyfile");
}

#[test]
fn manifest_environment_missing() {
    let m = Manifest::new("[Application]\ncommand=/bin/true\n").unwrap();
    assert_eq!(m.get_environment().unwrap_err(), Error::MissingSection);
}

#[test]
fn manifest_trims_and_skips_comments() {
    let text = "  ; a comment\n# another\n\n [Application] \n  command =  /bin/sh  \n";
    let m = Manifest::new(text).unwrap();
    assert_eq!(m.get("Application", "command").unwrap(), "/bin/sh");
}

#[test]
fn manifest_general_entries_before_sections() {
    let m = Manifest::new("stray=value\n[S]\nk=v\n").unwrap();
    assert_eq!(m.general.len(), 1);
    assert_eq!(m.general[0].0, "stray");
    assert_eq!(m.get("S", "k").unwrap(), "v");
}

#[test]
fn manifest_bad_line_refused() {
    assert_eq!(Manifest::new("[Application]\nnot a pair\n").unwrap_err(), Error::IniSyntax);
    assert_eq!(Manifest::new("[unclosed\n").unwrap_err(), Error::IniSyntax);
}

#[test]
fn manifest_duplicate_key_first_wins() {
    let m = Manifest::new("[S]\nk=1\nk=2\n").unwrap();
    assert_eq!(m.get("S", "k").unwrap(), "1");
}
