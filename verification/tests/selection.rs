use javalocate::jvm::Jvm;
use javalocate::platform::Unavailable;
use javalocate::report::{detail_line, outcome_of, report, Outcome};
use javalocate::select::{
    compare_boosting_architecture, filter_arch, filter_name, ranks_before, select_jvms, sort_jvms,
};
use std::cmp::Ordering;

fn jvm(version: &str, architecture: &str, name: &str) -> Jvm {
    Jvm {
        version: version.to_string(),
        name: name.to_string(),
        architecture: architecture.to_string(),
        path: format!("/jvms/{}-{}-{}", name, version, architecture),
    }
}

fn found() -> Vec<Jvm> {
    vec![
        jvm("17.0.1", "x86_64", "a"),
        jvm("11.0.2", "aarch64", "b"),
        jvm("11.0.2", "x86_64", "c"),
        jvm("8", "x86_64", "d"),
    ]
}

fn names(jvms: &Vec<Jvm>) -> Vec<String> {
    jvms.iter().map(|j| j.name.clone()).collect()
}

#[test]
fn native_architecture_breaks_ties_only() {
    let sorted = sort_jvms(&found(), &"aarch64".to_string());
    assert_eq!(names(&sorted), vec!["a", "b", "c", "d"]);
    let sorted = sort_jvms(&found(), &"x86_64".to_string());
    assert_eq!(names(&sorted), vec!["a", "c", "b", "d"]);
    let mut reversed = found();
    reversed.reverse();
    let sorted = sort_jvms(&reversed, &"aarch64".to_string());
    assert_eq!(names(&sorted), vec!["a", "b", "c", "d"]);
}

#[test]
fn sorting_keeps_every_entry_and_the_order_of_equals() {
    let input = vec![
        jvm("11.0.2", "x86_64", "first"),
        jvm("1.8.0", "x86_64", "old"),
        jvm("11.0.2", "x86_64", "second"),
        jvm("8.0", "x86_64", "modern"),
        jvm("11.0.2", "x86_64", "third"),
        jvm("", "x86_64", "unknown"),
        jvm("21", "riscv", "new"),
    ];
    let sorted = sort_jvms(&input, &"sparc".to_string());
    assert_eq!(
        names(&sorted),
        vec!["new", "first", "second", "third", "old", "modern", "unknown"]
    );
    assert_eq!(sorted[0], input[6]);
    assert!(sort_jvms(&Vec::new(), &"x86_64".to_string()).is_empty());
}

#[test]
fn comparator_orders_newest_first() {
    let native = "aarch64".to_string();
    let newer = jvm("17.0.1", "x86_64", "a");
    let older_native = jvm("11.0.2", "aarch64", "b");
    let older_foreign = jvm("11.0.2", "x86_64", "c");
    assert_eq!(compare_boosting_architecture(&newer, &older_native, &native), Ordering::Less);
    assert_eq!(compare_boosting_architecture(&older_native, &newer, &native), Ordering::Greater);
    assert_eq!(
        compare_boosting_architecture(&older_native, &older_foreign, &native),
        Ordering::Less
    );
    assert_eq!(
        compare_boosting_architecture(&older_foreign, &older_native, &native),
        Ordering::Greater
    );
    assert_eq!(
        compare_boosting_architecture(&older_foreign, &older_foreign, &native),
        Ordering::Equal
    );
    assert_eq!(
        compare_boosting_architecture(&older_native, &older_native, &native),
        Ordering::Equal
    );
    assert!(ranks_before(&newer, &older_native, &native));
    assert!(!ranks_before(&older_foreign, &older_foreign, &native));
}

#[test]
fn text_filters_are_exact_and_case_sensitive() {
    let j = jvm("17.0.2", "aarch64", "Eclipse Temurin 17");
    assert!(filter_arch(&Some("aarch64".to_string()), &j));
    assert!(!filter_arch(&Some("AArch64".to_string()), &j));
    assert!(!filter_arch(&Some("aarch6".to_string()), &j));
    assert!(!filter_arch(&Some("arm64".to_string()), &j));
    assert!(!filter_arch(&Some("".to_string()), &j));
    assert!(filter_arch(&None, &j));
    assert!(filter_name(&Some("Eclipse Temurin 17".to_string()), &j));
    assert!(!filter_name(&Some("eclipse temurin 17".to_string()), &j));
    assert!(!filter_name(&Some("Eclipse Temurin".to_string()), &j));
    assert!(filter_name(&None, &j));
}

#[test]
fn selection_without_filters_returns_all_sorted() {
    let selected = select_jvms(&found(), &None, &None, &None, &"x86_64".to_string());
    assert_eq!(names(&selected), vec!["a", "c", "b", "d"]);
}

#[test]
fn selection_applies_every_filter() {
    let native = "aarch64".to_string();
    let selected = select_jvms(&found(), &Some("x86_64".to_string()), &None, &None, &native);
    assert_eq!(names(&selected), vec!["a", "c", "d"]);
    let selected = select_jvms(&found(), &None, &Some("11+".to_string()), &None, &native);
    assert_eq!(names(&selected), vec!["a", "b", "c"]);
    let selected = select_jvms(&found(), &None, &Some("11".to_string()), &None, &native);
    assert_eq!(names(&selected), vec!["b", "c"]);
    let selected = select_jvms(
        &found(),
        &Some("x86_64".to_string()),
        &Some("11".to_string()),
        &Some("c".to_string()),
        &native,
    );
    assert_eq!(names(&selected), vec!["c"]);
    let selected = select_jvms(&found(), &None, &Some("21+".to_string()), &None, &native);
    assert!(selected.is_empty());
}

#[test]
fn outcomes_are_told_apart() {
    let some: Result<Vec<Jvm>, Unavailable> = Ok(found());
    let none: Result<Vec<Jvm>, Unavailable> = Ok(Vec::new());
    let unavailable: Result<Vec<Jvm>, Unavailable> = Err(Unavailable::UnknownArchitecture);
    assert_eq!(outcome_of(&some, false), Outcome::Found);
    assert_eq!(outcome_of(&some, true), Outcome::Found);
    assert_eq!(outcome_of(&none, false), Outcome::NothingFound);
    assert_eq!(outcome_of(&none, true), Outcome::NothingFoundFailure);
    assert_eq!(outcome_of(&unavailable, false), Outcome::HostUnavailable);
    assert_eq!(outcome_of(&unavailable, true), Outcome::HostUnavailable);
}

#[test]
fn report_shows_the_best_path_or_every_detail() {
    let selection = vec![
        Jvm {
            version: "17.0.2".to_string(),
            name: "Eclipse Temurin 17".to_string(),
            architecture: "aarch64".to_string(),
            path: "/jvms/temurin-17".to_string(),
        },
        Jvm {
            version: "1.8.0_292".to_string(),
            name: "".to_string(),
            architecture: "x86_64".to_string(),
            path: "/jvms/old".to_string(),
        },
    ];
    assert_eq!(
        detail_line(&selection[0]),
        "17.0.2 (aarch64) \"Eclipse Temurin 17\" - /jvms/temurin-17"
    );
    assert_eq!(report(&selection, false), vec!["/jvms/temurin-17".to_string()]);
    assert_eq!(
        report(&selection, true),
        vec![
            "17.0.2 (aarch64) \"Eclipse Temurin 17\" - /jvms/temurin-17".to_string(),
            "1.8.0_292 (x86_64) \"\" - /jvms/old".to_string(),
        ]
    );
    assert!(report(&Vec::new(), false).is_empty());
    assert!(report(&Vec::new(), true).is_empty());
}
