use javalocate::config::Config;
use javalocate::jvm::Jvm;
use javalocate::locate::{
    candidate_jvm, collate_jvms, default_root_of, install_path, is_jdk_key,
    jvm_from_directory_name, process_release_file, search_roots, Candidate,
};
use javalocate::platform::{
    describe_host, distribution_id, identify_kernel, kernel_tokens, probe_kernel, windows_host,
    Kernel, OperatingSystem, OsFamily, Unavailable,
};

fn kernel(family: OsFamily, architecture: &str) -> Kernel {
    Kernel { family, architecture: architecture.to_string() }
}

fn host(family: OsFamily, name: &str, architecture: &str) -> OperatingSystem {
    OperatingSystem { family, name: name.to_string(), architecture: architecture.to_string() }
}

fn place(name: &str, release: Option<&[u8]>) -> Candidate {
    Candidate {
        name: name.to_string(),
        home: format!("/usr/lib/jvm/{}", name),
        is_directory: true,
        is_symlink: false,
        release: release.map(|bytes| bytes.to_vec()),
        bundle_name: None,
    }
}

fn jvm(version: &str, name: &str, architecture: &str, path: &str) -> Jvm {
    Jvm {
        version: version.to_string(),
        name: name.to_string(),
        architecture: architecture.to_string(),
        path: path.to_string(),
    }
}

#[test]
fn kernel_line_is_read() {
    assert_eq!(probe_kernel("Linux x86_64\n"), Ok(kernel(OsFamily::Linux, "x86_64")));
    assert_eq!(probe_kernel("Linux i686\r\n"), Ok(kernel(OsFamily::Linux, "x86")));
    assert_eq!(probe_kernel("Linux i386"), Ok(kernel(OsFamily::Linux, "x86")));
    assert_eq!(probe_kernel("Linux i586\n"), Ok(kernel(OsFamily::Linux, "x86")));
    assert_eq!(probe_kernel("linux AARCH64\n"), Ok(kernel(OsFamily::Linux, "aarch64")));
    assert_eq!(probe_kernel("Linux arm64\n"), Ok(kernel(OsFamily::Linux, "arm64")));
    assert_eq!(probe_kernel("Darwin arm\n"), Ok(kernel(OsFamily::Darwin, "aarch64")));
    assert_eq!(probe_kernel("Darwin i386\n"), Ok(kernel(OsFamily::Darwin, "x86_64")));
    assert_eq!(probe_kernel("Darwin X86_64\n"), Ok(kernel(OsFamily::Darwin, "x86_64")));
    assert_eq!(probe_kernel("Darwin arm extra\n"), Ok(kernel(OsFamily::Darwin, "aarch64")));
}

#[test]
fn kernel_line_has_two_fields() {
    assert_eq!(
        kernel_tokens("Linux x86_64\n"),
        Some(("Linux".to_string(), "x86_64".to_string()))
    );
    assert_eq!(kernel_tokens("Darwin ppc\r\n"), Some(("Darwin".to_string(), "ppc".to_string())));
    assert_eq!(kernel_tokens("a b c"), Some(("a".to_string(), "b".to_string())));
    assert_eq!(kernel_tokens("a  b"), Some(("a".to_string(), "".to_string())));
    assert_eq!(kernel_tokens("Linux\n"), None);
    assert_eq!(kernel_tokens(""), None);
}

#[test]
fn unknown_darwin_processor_is_unavailable() {
    assert_eq!(probe_kernel("Darwin ppc\n"), Err(Unavailable::UnknownArchitecture));
    assert_eq!(probe_kernel("Darwin powerpc\n"), Err(Unavailable::UnknownArchitecture));
    assert_eq!(probe_kernel("Darwin unknown\n"), Err(Unavailable::UnknownArchitecture));
    assert_eq!(identify_kernel("Darwin", ""), Err(Unavailable::UnknownArchitecture));
    assert_eq!(identify_kernel("Darwin", "arm64"), Err(Unavailable::UnknownArchitecture));
    assert_eq!(identify_kernel("darwin", "ARM"), Ok(kernel(OsFamily::Darwin, "aarch64")));
}

#[test]
fn unknown_host_is_unavailable() {
    assert_eq!(probe_kernel("Linux unknown\n"), Err(Unavailable::UnknownArchitecture));
    assert_eq!(probe_kernel("Linux riscv64\n"), Err(Unavailable::UnknownArchitecture));
    assert_eq!(probe_kernel("FreeBSD amd64\n"), Err(Unavailable::UnsupportedSystem));
    assert_eq!(probe_kernel("Linux\n"), Err(Unavailable::UnreadableIdentity));
    assert_eq!(probe_kernel(""), Err(Unavailable::UnreadableIdentity));
    assert_eq!(probe_kernel("Linux  x86_64\n"), Err(Unavailable::UnknownArchitecture));
    assert_eq!(identify_kernel("Windows", "amd64"), Err(Unavailable::UnsupportedSystem));
    assert_eq!(identify_kernel("Linux", "x86_64\n"), Err(Unavailable::UnknownArchitecture));
}

#[test]
fn host_is_named() {
    assert_eq!(
        describe_host(kernel(OsFamily::Darwin, "aarch64"), None),
        Ok(host(OsFamily::Darwin, "macOS", "aarch64"))
    );
    assert_eq!(
        describe_host(
            kernel(OsFamily::Linux, "x86_64"),
            Some(b"NAME=\"Ubuntu\"\nID=ubuntu\nID_LIKE=debian\n")
        ),
        Ok(host(OsFamily::Linux, "ubuntu", "x86_64"))
    );
    assert_eq!(
        describe_host(kernel(OsFamily::Linux, "x86"), Some(b"ID=\"rhel\"\n")),
        Ok(host(OsFamily::Linux, "rhel", "x86"))
    );
    assert_eq!(
        describe_host(kernel(OsFamily::Linux, "x86"), Some(b"NAME=none\n")),
        Ok(host(OsFamily::Linux, "", "x86"))
    );
    assert_eq!(
        describe_host(kernel(OsFamily::Linux, "x86_64"), None),
        Err(Unavailable::UnreadableIdentity)
    );
    assert_eq!(
        describe_host(kernel(OsFamily::Linux, "x86_64"), Some(b"ID=\\u00zz")),
        Err(Unavailable::UnreadableIdentity)
    );
    assert_eq!(
        describe_host(kernel(OsFamily::Windows, "x86_64"), None),
        Err(Unavailable::UnreadableIdentity)
    );
    let entries = vec![("ID".to_string(), "\"debian\"".to_string())];
    assert_eq!(distribution_id(&entries), "debian");
}

#[test]
fn windows_host_is_described() {
    assert_eq!(
        windows_host("Windows 10 Pro", "AMD64"),
        Ok(host(OsFamily::Windows, "Windows 10 Pro", "x86_64"))
    );
    assert_eq!(windows_host("W", "x86"), Ok(host(OsFamily::Windows, "W", "x86")));
    assert_eq!(windows_host("W", "ARM64"), Ok(host(OsFamily::Windows, "W", "arm64")));
    assert_eq!(windows_host("W", "IA64"), Err(Unavailable::UnknownArchitecture));
}

#[test]
fn roots_are_the_registered_ones_and_the_default() {
    let extra = vec!["/opt/jvms".to_string(), "/home/me/jvms".to_string()];
    let none: Vec<String> = Vec::new();
    let ubuntu = host(OsFamily::Linux, "ubuntu", "x86_64");
    let arch = host(OsFamily::Linux, "arch", "x86_64");
    let mac = host(OsFamily::Darwin, "macOS", "aarch64");
    let windows = host(OsFamily::Windows, "Windows 11", "x86_64");
    assert_eq!(
        search_roots(&ubuntu, &extra),
        Ok(vec!["/opt/jvms".to_string(), "/home/me/jvms".to_string(), "/usr/lib/jvm".to_string()])
    );
    assert_eq!(search_roots(&ubuntu, &none), Ok(vec!["/usr/lib/jvm".to_string()]));
    assert_eq!(search_roots(&arch, &none), Err(Unavailable::UnknownDefaultPath));
    assert_eq!(search_roots(&arch, &extra), Ok(extra.clone()));
    assert_eq!(
        search_roots(&mac, &none),
        Ok(vec!["/Library/Java/JavaVirtualMachines".to_string()])
    );
    assert_eq!(search_roots(&windows, &extra), Ok(extra.clone()));
    assert_eq!(search_roots(&windows, &none), Ok(none.clone()));
    for id in ["ubuntu", "debian", "rhel", "centos", "fedora"] {
        assert_eq!(default_root_of(id), Some("/usr/lib/jvm".to_string()));
    }
    assert_eq!(default_root_of("Ubuntu"), None);
    assert_eq!(default_root_of(""), None);
}

#[test]
fn directory_name_describes_an_installation() {
    assert_eq!(
        jvm_from_directory_name("zulu-java-11-azul-amd64", "/usr/lib/jvm/zulu-java-11-azul-amd64"),
        Some(jvm("11", "zulu-java-11-azul-amd64", "x86_64", "/usr/lib/jvm/zulu-java-11-azul-amd64"))
    );
    assert_eq!(
        jvm_from_directory_name("x-java-1.8.0-openjdk-i386-extra", "/p"),
        Some(jvm("1.8.0", "x-java-1.8.0-openjdk-i386-extra", "x86", "/p"))
    );
    assert_eq!(jvm_from_directory_name("x-java-8", "/p"), Some(jvm("8", "x-java-8", "", "/p")));
    assert_eq!(
        jvm_from_directory_name("x-java-8-vendor", "/p"),
        Some(jvm("8", "x-java-8-vendor", "", "/p"))
    );
    assert_eq!(jvm_from_directory_name("java-8-openjdk-amd64", "/p"), None);
    assert_eq!(jvm_from_directory_name("x-java", "/p"), None);
    assert_eq!(jvm_from_directory_name("x-Java-8-v-amd64", "/p"), None);
    assert_eq!(jvm_from_directory_name("", "/p"), None);
}

#[test]
fn linux_place_is_read_from_descriptor_or_name() {
    let release: &[u8] = b"JAVA_VERSION=\"17.0.2\"\nOS_ARCH=\"amd64\"\n";
    assert_eq!(
        candidate_jvm(OsFamily::Linux, &place("temurin-17", Some(release))),
        Some(jvm("17.0.2", "temurin-17", "x86_64", "/usr/lib/jvm/temurin-17"))
    );
    assert_eq!(
        candidate_jvm(OsFamily::Linux, &place("a-java-11-b-arm64", None)),
        Some(jvm("11", "a-java-11-b-arm64", "arm64", "/usr/lib/jvm/a-java-11-b-arm64"))
    );
    assert_eq!(
        candidate_jvm(OsFamily::Linux, &place("a-java-11-b-arm64", Some(b"X=\\u00zz"))),
        Some(jvm("11", "a-java-11-b-arm64", "arm64", "/usr/lib/jvm/a-java-11-b-arm64"))
    );
    assert_eq!(candidate_jvm(OsFamily::Linux, &place("default-java", None)), None);
    let mut link = place("temurin-17", Some(release));
    link.is_symlink = true;
    assert_eq!(candidate_jvm(OsFamily::Linux, &link), None);
    let mut file = place("temurin-17", Some(release));
    file.is_directory = false;
    assert_eq!(candidate_jvm(OsFamily::Linux, &file), None);
}

#[test]
fn darwin_place_needs_bundle_and_descriptor() {
    let release: &[u8] = b"JAVA_VERSION=\"17.0.2\"\nOS_ARCH=\"aarch64\"\n";
    let mut bundle = place("temurin-17.jdk", Some(release));
    bundle.home = "/Library/Java/JavaVirtualMachines/temurin-17.jdk/Contents/Home".to_string();
    bundle.bundle_name = Some("Eclipse \"Temurin\" 17".to_string());
    assert_eq!(
        candidate_jvm(OsFamily::Darwin, &bundle),
        Some(jvm(
            "17.0.2",
            "Eclipse Temurin 17",
            "aarch64",
            "/Library/Java/JavaVirtualMachines/temurin-17.jdk/Contents/Home"
        ))
    );
    bundle.is_symlink = true;
    assert!(candidate_jvm(OsFamily::Darwin, &bundle).is_some());
    bundle.bundle_name = Some("".to_string());
    assert_eq!(candidate_jvm(OsFamily::Darwin, &bundle).unwrap().name, "");
    bundle.bundle_name = None;
    assert_eq!(candidate_jvm(OsFamily::Darwin, &bundle), None);
    bundle.bundle_name = Some("x".to_string());
    bundle.release = None;
    assert_eq!(candidate_jvm(OsFamily::Darwin, &bundle), None);
    assert_eq!(candidate_jvm(OsFamily::Darwin, &place("a-java-11-b-arm64", None)), None);
}

#[test]
fn windows_place_is_named_after_implementor_and_version() {
    let release: &[u8] =
        b"IMPLEMENTOR=\"Eclipse Adoptium\"\nJAVA_VERSION=\"17.0.2\"\nOS_ARCH=\"amd64\"\n";
    let path = "C:\\Program Files\\Java\\jdk-17".to_string();
    let expected = jvm("17.0.2", "Eclipse Adoptium - 17.0.2", "x86_64", &path);
    assert_eq!(process_release_file(&path, release), Some(expected));
    assert_eq!(
        process_release_file(&path, b"OS_ARCH=i386"),
        Some(jvm("", " - ", "x86", &path))
    );
    assert_eq!(process_release_file(&path, b"X=\\uzzzz"), None);
    let mut found = place("jdk-17", Some(release));
    found.home = path.clone();
    assert_eq!(
        candidate_jvm(OsFamily::Windows, &found),
        Some(jvm("17.0.2", "Eclipse Adoptium - 17.0.2", "x86_64", &path))
    );
    assert_eq!(candidate_jvm(OsFamily::Windows, &place("a-java-11-b-arm64", None)), None);
}

#[test]
fn malformed_places_are_skipped() {
    let os = host(OsFamily::Linux, "ubuntu", "aarch64");
    let places = vec![
        place("old", Some(b"JAVA_VERSION=\"1.8.0_292\"\nOS_ARCH=\"amd64\"\n")),
        place("broken", Some(b"JAVA_VERSION=\\u12")),
        place("empty-dir", None),
        place("foreign", Some(b"JAVA_VERSION=\"17.0.2\"\nOS_ARCH=\"amd64\"\n")),
        place("native", Some(b"JAVA_VERSION=\"17.0.2\"\nOS_ARCH=\"aarch64\"\n")),
    ];
    let found = collate_jvms(&os, &places);
    let names: Vec<&str> = found.iter().map(|j| j.name.as_str()).collect();
    assert_eq!(names, vec!["native", "foreign", "old"]);
    assert!(collate_jvms(&os, &Vec::new()).is_empty());
    assert!(collate_jvms(&os, &vec![place("empty-dir", None)]).is_empty());
}

#[test]
fn registry_path_takes_the_most_specific_entry() {
    assert_eq!(install_path(Some("C:\\a\\"), None, None), "C:\\a");
    assert_eq!(install_path(Some("C:\\a"), Some("C:\\h\\"), None), "C:\\h");
    assert_eq!(install_path(Some("C:\\a"), Some("C:\\h"), Some("C:\\j9\\")), "C:\\j9");
    assert_eq!(install_path(None, None, Some("C:\\j9")), "C:\\j9");
    assert_eq!(install_path(None, None, None), "");
    assert_eq!(install_path(Some("C:\\a\\\\"), None, None), "C:\\a\\");
    assert_eq!(install_path(Some("\\"), None, None), "");
    assert!(is_jdk_key("JDK"));
    assert!(is_jdk_key("JDK 11"));
    assert!(!is_jdk_key("JRE"));
    assert!(!is_jdk_key("OpenJDK"));
    assert!(!is_jdk_key("jdk"));
}

#[test]
fn locations_are_registered_once_and_removed() {
    let mut cfg = Config::default();
    assert!(cfg.paths.is_empty());
    assert!(cfg.register_location("/a"));
    assert!(cfg.register_location("/b"));
    assert!(!cfg.register_location("/a"));
    assert_eq!(cfg.paths, vec!["/a".to_string(), "/b".to_string()]);
    cfg.remove_location("/c");
    assert_eq!(cfg.paths, vec!["/a".to_string(), "/b".to_string()]);
    cfg.remove_location("/a");
    assert_eq!(cfg.paths, vec!["/b".to_string()]);
    let mut twice = Config { paths: vec!["/x".to_string(), "/y".to_string(), "/x".to_string()] };
    twice.remove_location("/x");
    assert_eq!(twice.paths, vec!["/y".to_string(), "/x".to_string()]);
}
