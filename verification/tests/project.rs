use bahn::clean::{clean, CleanStep, TargetEntry, TARGET_LOCK_FILE_NAME};
use bahn::files::{find_mond_files, WalkedPath};
use bahn::manifest::{create_new_manifest, ManifestError, Version};
use bahn::styles::{get_styles, TermColor};

fn entry(name: &str, is_dir: bool) -> TargetEntry {
    TargetEntry::Entry { file_name: Some(name.to_string()), is_dir: Some(is_dir) }
}

#[test]
fn clean_removes_target_contents_but_preserves_lock_file() {
    let entries = vec![
        entry("debug", true),
        entry(TARGET_LOCK_FILE_NAME, false),
        entry("stale.txt", false),
    ];
    assert_eq!(
        clean(&entries),
        vec![CleanStep::RemoveDir(0), CleanStep::RemoveFile(2)]
    );
}

#[test]
fn clean_stops_at_the_first_failure() {
    let entries = vec![
        entry("a", false),
        TargetEntry::Entry { file_name: Some("b".to_string()), is_dir: None },
        entry("c", true),
    ];
    assert_eq!(
        clean(&entries),
        vec![CleanStep::RemoveFile(0), CleanStep::FailInspect(1)]
    );
    let entries = vec![TargetEntry::Unreadable, entry("c", true)];
    assert_eq!(clean(&entries), vec![CleanStep::FailRead(0)]);
}

#[test]
fn clean_keeps_lock_file_even_when_uninspectable() {
    let entries = vec![
        TargetEntry::Entry { file_name: Some(TARGET_LOCK_FILE_NAME.to_string()), is_dir: None },
        TargetEntry::Entry { file_name: None, is_dir: Some(false) },
    ];
    assert_eq!(clean(&entries), vec![CleanStep::RemoveFile(1)]);
    assert_eq!(clean(&Vec::new()), Vec::<CleanStep>::new());
}

fn walked(components: &[&str], extension: Option<&str>) -> Option<WalkedPath> {
    Some(WalkedPath {
        components: components.iter().map(|c| c.to_string()).collect(),
        extension: extension.map(|e| e.to_string()),
    })
}

#[test]
fn find_mond_files_filters_and_sorts() {
    let entries = vec![
        walked(&["src"], None),
        walked(&["src", "zeta.mond"], Some("mond")),
        None,
        walked(&["src", "b", "main.mond"], Some("mond")),
        walked(&["src", "notes.txt"], Some("txt")),
        walked(&["src", "a.mond"], Some("mond")),
        walked(&["src", "b-c.mond"], Some("mond")),
        walked(&["src", "b.mond"], Some("mond")),
    ];
    // component order: "a.mond" < "b" < "b-c.mond" < "b.mond" < "zeta.mond"
    assert_eq!(find_mond_files(&entries), vec![5, 3, 6, 7, 1]);
    assert_eq!(find_mond_files(&Vec::new()), Vec::<usize>::new());
}

#[test]
fn new_manifest_starts_at_version_0_1_0() {
    let manifest = create_new_manifest("hello_world".to_string(), "0.3.1").unwrap();
    assert_eq!(manifest.package.name, "hello_world");
    assert_eq!(manifest.package.version, Version::new(0, 1, 0));
    assert_eq!(manifest.package.mond_version, Version::new(0, 3, 1));
    assert!(manifest.dependencies.is_empty());

    let pre = Version::parse("1.2.3-alpha.1+build5").unwrap();
    assert_eq!((pre.major, pre.minor, pre.patch), (1, 2, 3));
    assert_eq!(pre.pre, "alpha.1");
    assert_eq!(pre.build, "build5");

    assert_eq!(
        create_new_manifest("x".to_string(), "1.0").unwrap_err(),
        ManifestError::InvalidVersion("1.0".to_string())
    );
}

#[test]
fn help_styles() {
    let styles = get_styles();
    assert!(styles.usage.bold && styles.usage.underline);
    assert_eq!(styles.header.color, Some(TermColor::Yellow));
    assert_eq!(styles.literal.color, Some(TermColor::Green));
    assert!(styles.error.bold && !styles.error.underline);
    assert_eq!(styles.invalid, styles.error);
    assert_eq!(styles.placeholder.color, Some(TermColor::White));
}
