use javalocate::jvm::Jvm;
use javalocate::select::{
    compare_boosting_architecture, filter_arch, filter_name, filter_ver, get_compare_version,
};
use javalocate::text::trim_string;
use javalocate::version::compare_version_values;
use std::cmp::Ordering;

fn create_jvm(version: &str, name: &str, architecture: &str, path: &str) -> Jvm {
    Jvm {
        version: version.to_string(),
        name: name.to_string(),
        architecture: architecture.to_string(),
        path: path.to_string(),
    }
}

fn jvm_vec_compare(va: Vec<Jvm>, vb: &Vec<Jvm>) -> bool {
    (va.len() == vb.len())
        && va.iter().zip(vb).all(|(a, b)| {
            a.architecture == b.architecture
                && a.version == b.version
                && a.name == b.name
                && a.path == b.path
        })
}

fn check_version(jvms: Vec<Jvm>, version: &str, number: usize) {
    let result: &Vec<Jvm> = &jvms
        .into_iter()
        .filter(|tmp| filter_ver(&Option::Some(version.to_string()), tmp))
        .collect();
    assert_eq!(result.len(), number);
}

#[test]
fn test_filter_name() {
    let jvm = create_jvm(
        "17.0.2",
        "Eclipse Temurin 17",
        "aarch64",
        "/Library/Java/JavaVirtualMachines/temurin-17.jdk",
    );
    let same_name: Option<String> = Option::Some("Eclipse Temurin 17".to_string());
    let different_name: Option<String> = Option::Some("Eclipse Temurin 11".to_string());
    assert_eq!(filter_name(&same_name, &jvm), true);
    assert_eq!(filter_name(&different_name, &jvm), false);
}

#[test]
fn test_filter_arch() {
    let jvm = create_jvm(
        "17.0.2",
        "Eclipse Temurin 17",
        "aarch64",
        "/Library/Java/JavaVirtualMachines/temurin-17.jdk",
    );
    let same_arch: Option<String> = Option::Some("aarch64".to_string());
    let different_arch: Option<String> = Option::Some("x86_64".to_string());
    assert_eq!(filter_arch(&same_arch, &jvm), true);
    assert_eq!(filter_arch(&different_arch, &jvm), false);
}

#[test]
fn test_filter_version() {
    let jvm = create_jvm(
        "17.0.2",
        "Eclipse Temurin 17",
        "aarch64",
        "/Library/Java/JavaVirtualMachines/temurin-17.jdk",
    );
    let same_ver: Option<String> = Option::Some("17".to_string());
    let different_ver_same_format: Option<String> = Option::Some("11".to_string());
    let different_ver_diff_format: Option<String> = Option::Some("11.0.2".to_string());
    let different_ver_diff_format2: Option<String> = Option::Some("11.0.2.1".to_string());
    assert_eq!(filter_ver(&same_ver, &jvm), true);
    assert_eq!(filter_ver(&different_ver_same_format, &jvm), false);
    assert_eq!(filter_ver(&different_ver_diff_format, &jvm), false);
    assert_eq!(filter_ver(&different_ver_diff_format2, &jvm), false);
}

#[test]
fn test_compare_version() {
    let jvm = create_jvm(
        "17.0.2",
        "Eclipse Temurin 17",
        "aarch64",
        "/Library/Java/JavaVirtualMachines/temurin-17.jdk",
    );
    assert_eq!(get_compare_version(&jvm, &"8+".to_string()), "17");
    assert_eq!(get_compare_version(&jvm, &"17".to_string()), "17");
    assert_eq!(get_compare_version(&jvm, &"17.1".to_string()), "17.0");
    assert_eq!(get_compare_version(&jvm, &"17.0.1".to_string()), "17.0.2");
    assert_eq!(get_compare_version(&jvm, &"17.0.1.1".to_string()), "17.0.2");
    assert_eq!(get_compare_version(&jvm, &"17.0.1_bau".to_string()), "17.0.2");
    let jvm2 = create_jvm(
        "1.8.0",
        "AdoptOpenJDK 8",
        "aarch64",
        "/Library/Java/JavaVirtualMachines/adoptopenjdk-1.8.0.jdk",
    );
    assert_eq!(get_compare_version(&jvm2, &"8".to_string()), "8");
}

#[test]
fn test_compare_version_values() {
    assert_eq!(compare_version_values(&"17.0.1".to_string(), &"17.0.1".to_string()), Ordering::Equal);
    assert_eq!(compare_version_values(&"8.0.1".to_string(), &"17.0.1".to_string()), Ordering::Less);
    assert_eq!(compare_version_values(&"8.1.1".to_string(), &"8.0.1".to_string()), Ordering::Greater);
    assert_eq!(compare_version_values(&"17".to_string(), &"17".to_string()), Ordering::Equal);
    assert_eq!(compare_version_values(&"17".to_string(), &"11".to_string()), Ordering::Greater);
    assert_eq!(compare_version_values(&"1.8".to_string(), &"8".to_string()), Ordering::Equal);
}

#[test]
fn test_trim_string() {
    assert_eq!(trim_string("Arm\n"), "Arm");
    assert_eq!(trim_string("Arm\r\n"), "Arm");
    assert_eq!(trim_string("Arm"), "Arm");
}

#[test]
fn test_compare_version_architecture() {
    let jvm1: Jvm = create_jvm(
        "11.0.2",
        "Eclipse Temurin 11",
        "aarch64",
        "/Library/Java/JavaVirtualMachines/temurin-11-aarch64.jdk",
    );

    let jvms: Vec<Jvm> = vec![jvm1.clone()];
    check_version(jvms.clone(), "11+", 1);
    check_version(jvms.clone(), "11.0+", 1);
    check_version(jvms.clone(), "11.0.1+", 1);
    check_version(jvms.clone(), "11.1+", 0);
    check_version(jvms.clone(), "11.0.3+", 0);
    check_version(jvms.clone(), "17+", 0);
}

#[test]
fn test_compare_boosting_architecture() {
    let jvm1: Jvm = create_jvm(
        "11.0.2",
        "Eclipse Temurin 11",
        "aarch64",
        "/Library/Java/JavaVirtualMachines/temurin-11-aarch64.jdk",
    );
    let jvm2: Jvm = create_jvm(
        "11.0.2",
        "Eclipse Temurin 11",
        "x86_64",
        "/Library/Java/JavaVirtualMachines/temurin-11-x86_64.jdk",
    );
    let jvm3: Jvm = create_jvm(
        "17.0.1",
        "Eclipse Temurin 17",
        "x86_64",
        "/Library/Java/JavaVirtualMachines/temurin-17-x86_64.jdk",
    );
    let jvm4: Jvm = create_jvm(
        "8",
        "Adopt OpenJDK 8",
        "x86_64",
        "/Library/Java/JavaVirtualMachines/java-8-openjdk-amd64",
    );

    let gold_ordered_aarch64: Vec<Jvm> =
        vec![jvm3.clone(), jvm1.clone(), jvm2.clone(), jvm4.clone()];
    let gold_ordered_x86_64: Vec<Jvm> =
        vec![jvm3.clone(), jvm2.clone(), jvm1.clone(), jvm4.clone()];
    let mut jvms: Vec<Jvm> = vec![jvm1.clone(), jvm2.clone(), jvm3.clone(), jvm4.clone()];

    jvms.sort_by(|a, b| compare_boosting_architecture(a, b, &"aarch64".to_string()));
    assert_eq!(jvm_vec_compare(gold_ordered_aarch64, &jvms), true);
    jvms.sort_by(|a, b| compare_boosting_architecture(a, b, &"x86_64".to_string()));
    assert_eq!(jvm_vec_compare(gold_ordered_x86_64, &jvms), true);
}
