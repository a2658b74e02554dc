use pdfplumber::python::VERSION;

#[test]
fn crate_compiles() {
    assert_eq!(2 + 2, 4);
}

#[test]
fn tests_test_version_matches_workspace() {
    assert_eq!(VERSION, "0.3.0", "VERSION constant must match CARGO_PKG_VERSION");
}

#[test]
fn lib_test_version_matches_workspace() {
    assert_eq!(VERSION, "0.3.0", "VERSION constant must match CARGO_PKG_VERSION");
}

fn assert_semver(version: &str) {
    assert!(!version.is_empty(), "VERSION must not be empty");
    let parts: Vec<&str> = version.split('.').collect();
    assert_eq!(parts.len(), 3, "VERSION should be semver (major.minor.patch)");
    for part in &parts {
        part.parse::<u32>()
            .unwrap_or_else(|_| panic!("VERSION part '{part}' is not a valid number"));
    }
}

#[test]
fn lib_test_version_constant_matches_cargo_toml() {
    assert_semver(VERSION);
}

#[test]
fn tests_test_version_constant_matches_cargo_toml() {
    assert_semver(VERSION);
}

#[test]
fn lib_test_version_is_registered_in_module_init() {
    assert_eq!(VERSION, "0.3.0");
}

#[test]
fn tests_test_version_is_registered_in_module_init() {
    assert_eq!(VERSION, "0.3.0");
}
