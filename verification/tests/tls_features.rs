/// Feature names that pull in a TLS backend: any one of them means https can work.
const TLS_FEATURES: &[&str] = &["rustls", "rustls-no-provider", "default-tls", "native-tls"];

/// The `reqwest = ...` dependency line of a manifest, if it has one.
fn reqwest_line(manifest: &str) -> Option<&str> {
    manifest
        .lines()
        .map(str::trim)
        .find(|line| line.starts_with("reqwest = ") || line.starts_with("reqwest.workspace"))
}

#[test]
fn reqwest_line_is_found_and_judged() {
    let with = "reqwest = { version = \"0.13\", features = [\"json\", \"rustls\"] }";
    let without =
        "reqwest = { version = \"0.13\", default-features = false, features = [\"json\"] }";
    assert_eq!(
        reqwest_line(&format!("[dependencies]\n{with}\n")),
        Some(with)
    );
    assert!(
        TLS_FEATURES
            .iter()
            .any(|f| with.contains(&format!("\"{f}\"")))
    );
    assert!(
        !TLS_FEATURES
            .iter()
            .any(|f| without.contains(&format!("\"{f}\"")))
    );
}
