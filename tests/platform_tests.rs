use blazegraph::platform::Platform;

#[test]
fn test_platform_detection() {
    let platform = Platform::detect("linux", "x86_64").unwrap();
    assert!(!platform.os.is_empty());
    assert!(!platform.arch.is_empty());
}

#[test]
fn test_adoptium_url_format() {
    let platform = Platform { os: "linux", arch: "x64" };
    let url = platform.adoptium_url("21");
    assert!(url.contains("adoptium.net"));
    assert!(url.contains("linux"));
    assert!(url.contains("x64"));
    assert!(url.contains("jre"));
}

#[test]
fn platform_names_follow_adoptium() {
    let p = Platform::detect("macos", "aarch64").unwrap();
    assert_eq!(p.os, "mac");
    assert_eq!(p.arch, "aarch64");
    assert!(!p.is_zip());
    let w = Platform::detect("windows", "x86_64").unwrap();
    assert!(w.is_zip());
    assert_eq!(
        w.adoptium_url("21"),
        "https://api.adoptium.net/v3/binary/latest/21/ga/windows/x64/jre/hotspot/normal/eclipse"
    );
}

#[test]
fn platform_rejects_unknown_targets() {
    assert!(Platform::detect("haiku", "x86_64").is_err());
    assert!(Platform::detect("linux", "sparc").is_err());
}
