use modsize::filetype::file_types_of;
use modsize::fstree::get_dir_size;
use modsize::fstree::FsEntry;
use modsize::manifest::PackageJson;
use modsize::manifest::Repository;
use modsize::scan::scan_modules_dir;
use modsize::scan::PackageDir;

fn file(name: &str, size: u64) -> FsEntry {
    FsEntry::File { name: name.to_string(), size }
}

fn dir(name: &str, entries: Vec<FsEntry>) -> FsEntry {
    FsEntry::Dir { name: name.to_string(), entries }
}

fn empty_manifest() -> PackageJson {
    PackageJson {
        name: None,
        version: None,
        description: None,
        author: None,
        license: None,
        homepage: None,
        repository: None,
        dependencies: None,
        dev_dependencies: None,
        peer_dependencies: None,
        optional_dependencies: None,
        publish_config: None,
    }
}

fn dep(name: &str, req: &str) -> (String, String) {
    (name.to_string(), req.to_string())
}

#[test]
fn test_get_dir_size() {
    let entries = vec![
        file("test_file.txt", "Hello, world!".len() as u64),
        dir(
            "subdir",
            vec![file("subfile.txt", "This is a test file in a subdirectory".len() as u64)],
        ),
    ];
    let expected = ("Hello, world!".len() + "This is a test file in a subdirectory".len()) as u64;
    assert_eq!(get_dir_size(&entries), expected);
}

#[test]
fn dir_size_saturates() {
    let entries = vec![file("a.bin", u64::MAX), file("b.bin", 5)];
    assert_eq!(get_dir_size(&entries), u64::MAX);
}

#[test]
fn test_scan_modules_dir() {
    let mut packages = Vec::new();
    for (name, size) in [("small-module", 100u64), ("medium-module", 500), ("large-module", 1000)]
    {
        packages.push(PackageDir {
            name: name.to_string(),
            entries: vec![file("index.js", size)],
            manifest: None,
            age_seconds: None,
        });
    }
    let result = scan_modules_dir(packages);
    assert_eq!(result.len(), 3);
    assert_eq!(result[0].name, "large-module");
    assert_eq!(result[1].name, "medium-module");
    assert_eq!(result[2].name, "small-module");
    assert_eq!(result[0].size, 1000);
    assert_eq!(result[1].size, 500);
    assert_eq!(result[2].size, 100);
}

#[test]
fn scan_keeps_order_of_equal_sizes() {
    let mut packages = Vec::new();
    for name in ["first", "second", "third"] {
        packages.push(PackageDir {
            name: name.to_string(),
            entries: vec![file("index.js", 42)],
            manifest: None,
            age_seconds: None,
        });
    }
    let result = scan_modules_dir(packages);
    assert_eq!(result[0].name, "first");
    assert_eq!(result[1].name, "second");
    assert_eq!(result[2].name, "third");
}

#[test]
fn test_module_info_with_package_json() {
    let manifest = PackageJson {
        name: Some("test-module".to_string()),
        version: Some("1.0.0".to_string()),
        description: Some("A test module".to_string()),
        author: Some("Test Author".to_string()),
        license: Some("MIT".to_string()),
        homepage: Some("https://example.com".to_string()),
        repository: Some(Repository {
            repo_type: Some("git".to_string()),
            url: Some("https://github.com/test/test-module".to_string()),
        }),
        dependencies: Some(vec![dep("dep1", "^1.0.0"), dep("dep2", "^2.0.0")]),
        dev_dependencies: Some(vec![dep("devdep1", "^1.0.0")]),
        peer_dependencies: None,
        optional_dependencies: None,
        publish_config: None,
    };
    let packages = vec![PackageDir {
        name: "test-module".to_string(),
        entries: vec![
            dir(
                "src",
                vec![
                    file("index.js", "console.log('Hello, World!');".len() as u64),
                    file("types.ts", "export type Test = { name: string; };".len() as u64),
                ],
            ),
            file("package.json", 300),
        ],
        manifest: Some(manifest),
        age_seconds: None,
    }];
    let result = scan_modules_dir(packages);
    assert_eq!(result.len(), 1);
    let module = &result[0];
    assert_eq!(module.name, "test-module");
    assert_eq!(module.version, Some("1.0.0".to_string()));
    assert_eq!(module.description, Some("A test module".to_string()));
    assert_eq!(module.author, Some("Test Author".to_string()));
    assert_eq!(module.license, Some("MIT".to_string()));
    assert_eq!(module.homepage, Some("https://example.com".to_string()));
    assert_eq!(module.repository, Some("https://github.com/test/test-module".to_string()));
    assert_eq!(module.dependency_count, Some(3));
    assert_eq!(module.files_count, Some(3));
    let file_types = module.file_types.as_ref().expect("No file types found");
    assert!(file_types.contains(&("js".to_string(), 1)));
    assert!(file_types.contains(&("ts".to_string(), 1)));
    assert!(file_types.contains(&("json".to_string(), 1)));
    assert_eq!(file_types.len(), 3);
}

#[test]
fn manifest_absent_leaves_fields_empty() {
    let packages = vec![PackageDir {
        name: "bare".to_string(),
        entries: vec![file("data", 7)],
        manifest: None,
        age_seconds: None,
    }];
    let result = scan_modules_dir(packages);
    let module = &result[0];
    assert_eq!(module.version, None);
    assert_eq!(module.description, None);
    assert_eq!(module.author, None);
    assert_eq!(module.license, None);
    assert_eq!(module.homepage, None);
    assert_eq!(module.repository, None);
    assert_eq!(module.dependency_count, None);
    assert_eq!(module.last_updated, None);
    assert_eq!(module.files_count, Some(1));
    assert!(!module.is_dev_dependency);
}

#[test]
fn age_seconds_becomes_relative_label() {
    let packages = vec![PackageDir {
        name: "aged".to_string(),
        entries: Vec::new(),
        manifest: None,
        age_seconds: Some(7200),
    }];
    let result = scan_modules_dir(packages);
    assert_eq!(result[0].last_updated, Some("2 hours ago".to_string()));
}

#[test]
fn dependency_count_sums_all_groups() {
    let mut manifest = empty_manifest();
    manifest.dependencies = Some(vec![dep("a", "1"), dep("b", "2")]);
    manifest.dev_dependencies = Some(vec![dep("c", "3")]);
    manifest.peer_dependencies = Some(vec![dep("d", "4"), dep("e", "5"), dep("f", "6")]);
    manifest.optional_dependencies = Some(vec![dep("g", "7")]);
    assert_eq!(manifest.dependency_count(), 7);
    let bare = empty_manifest();
    assert_eq!(bare.dependency_count(), 0);
}

#[test]
fn repository_to_string_hoists_url() {
    let with_url = Repository {
        repo_type: Some("git".to_string()),
        url: Some("https://example.org/repo.git".to_string()),
    };
    assert_eq!(with_url.to_string(), Some("https://example.org/repo.git".to_string()));
    let without_url = Repository { repo_type: Some("git".to_string()), url: None };
    assert_eq!(without_url.to_string(), None);
}

#[test]
fn histogram_case_folds_and_orders_by_count() {
    let entries = vec![
        file("A.TXT", 1),
        file("b.txt", 1),
        file("notes.TxT", 1),
        file("main.rs", 1),
        file("README", 1),
        file(".gitignore", 1),
        file("archive.tar.GZ", 1),
    ];
    let table = file_types_of(&entries);
    assert_eq!(table[0], ("txt".to_string(), 3));
    assert_eq!(table[1], ("(no extension)".to_string(), 2));
    assert!(table.contains(&("rs".to_string(), 1)));
    assert!(table.contains(&("gz".to_string(), 1)));
    assert_eq!(table.len(), 4);
    let total: usize = table.iter().map(|p| p.1).sum();
    assert_eq!(total, 7);
}

#[test]
fn histogram_breaks_count_ties_by_first_appearance() {
    let entries = vec![
        file("one.js", 1),
        file("one.ts", 1),
        file("two.js", 1),
        file("two.ts", 1),
        file("style.css", 1),
    ];
    let table = file_types_of(&entries);
    assert_eq!(table[0], ("js".to_string(), 2));
    assert_eq!(table[1], ("ts".to_string(), 2));
    assert_eq!(table[2], ("css".to_string(), 1));
}
