use typship::listing::{time_ago, Timestamp};
use typship::package::{
    human_ns, package_cd, package_list, package_main, CdError, NamespaceEntry, PackageCommands,
    PackageEntry, PackageError, PackageListArgs, PackageOutput, PackagePathArgs, VersionEntry,
};
use typship::pkgspec::{PackageSpec, PackageVersion};
use typship::table::{check_table, render_table};

fn ts(secs: i64, nanos: u32) -> Timestamp {
    Timestamp::new(secs, nanos).unwrap()
}

fn ago(elapsed: i64) -> String {
    time_ago(ts(1_000_000 + elapsed, 0), ts(1_000_000, 0))
}

#[test]
fn time_ago_minutes_and_seconds() {
    assert_eq!(ago(0), "0m0s");
    assert_eq!(ago(59), "0m59s");
    assert_eq!(ago(61), "1m1s");
    assert_eq!(ago(3599), "59m59s");
}

#[test]
fn time_ago_hours() {
    assert_eq!(ago(3600), "1 hours ago");
    assert_eq!(ago(172799), "47 hours ago");
}

#[test]
fn time_ago_days() {
    assert_eq!(ago(172800), "2 days 0 hours ago");
    assert_eq!(ago(6 * 86400 + 5 * 3600 + 7), "6 days 5 hours ago");
    assert_eq!(ago(7 * 86400), "7 days ago");
    assert_eq!(ago(400 * 86400 + 3600), "400 days ago");
}

#[test]
fn time_ago_future_and_fractions() {
    assert_eq!(time_ago(ts(10, 0), ts(20, 0)), "0m0s");
    assert_eq!(time_ago(ts(10, 0), ts(5, 500_000_000)), "0m4s");
    assert_eq!(time_ago(ts(10, 600_000_000), ts(5, 500_000_000)), "0m5s");
    assert_eq!(time_ago(ts(10, 0), ts(-10, 0)), "0m20s");
}

#[test]
fn timestamp_rejects_overfull_nanos() {
    assert!(Timestamp::new(0, 1_000_000_000).is_none());
    assert!(Timestamp::new(0, 999_999_999).is_some());
}

fn path_args(specs: &[&str]) -> PackagePathArgs {
    PackagePathArgs { spec: specs.iter().map(|s| s.to_string()).collect() }
}

#[test]
fn package_cd_full_spec() {
    let r = package_cd(&path_args(&["@preview/example:0.1.0"])).ok().unwrap();
    assert_eq!(r, vec!["preview", "example", "0.1.0"]);
}

#[test]
fn package_cd_partial_specs() {
    assert_eq!(package_cd(&path_args(&["@preview/example"])).ok().unwrap(), vec!["preview", "example"]);
    assert_eq!(package_cd(&path_args(&["@preview"])).ok().unwrap(), vec!["preview"]);
    assert_eq!(package_cd(&path_args(&["local"])).ok().unwrap(), vec!["local"]);
    assert_eq!(package_cd(&path_args(&["  @local/pkg \n"])).ok().unwrap(), vec!["local", "pkg"]);
    assert_eq!(package_cd(&path_args(&["@@x"])).ok().unwrap(), vec!["@x"]);
}

#[test]
fn package_cd_errors() {
    assert!(matches!(package_cd(&path_args(&["a", "b"])), Err(CdError::MultipleSpecs)));
    assert!(matches!(package_cd(&path_args(&[])), Err(CdError::NoSpec)));
    assert!(matches!(package_cd(&path_args(&[" \t "])), Err(CdError::EmptySpec)));
    match package_cd(&path_args(&[" pkg:0.1.0 "])) {
        Err(e @ CdError::MissingSlash(_)) => assert_eq!(
            e.message(),
            "invalid package spec: pkg:0.1.0. Please use `@namespace/package:version`"
        ),
        _ => panic!("expected a missing slash"),
    }
    assert_eq!(CdError::MultipleSpecs.message(), "Multiple package specs provided");
    assert_eq!(CdError::NoSpec.message(), "No package spec provided");
    assert_eq!(CdError::EmptySpec.message(), "Empty package spec");
}

#[test]
fn human_ns_strips_one_at() {
    assert_eq!(human_ns("@preview"), "preview");
    assert_eq!(human_ns("preview"), "preview");
    assert_eq!(human_ns("@@a"), "@a");
    assert_eq!(human_ns(""), "");
}

fn version(name: &str, created: Option<Timestamp>) -> VersionEntry {
    VersionEntry { name: name.to_string(), is_dir: true, created }
}

fn store() -> Vec<NamespaceEntry> {
    vec![
        NamespaceEntry {
            name: "preview".to_string(),
            is_dir: true,
            packages: vec![
                PackageEntry {
                    name: "example".to_string(),
                    is_dir: true,
                    versions: vec![
                        version("0.1.0", None),
                        version("0.10.0", None),
                        version("0.2.0", Some(ts(1000, 0))),
                        version("bad", None),
                        version(".0.3.0", None),
                        VersionEntry { name: "0.4.0".to_string(), is_dir: false, created: None },
                    ],
                },
                PackageEntry {
                    name: "cetz".to_string(),
                    is_dir: true,
                    versions: vec![version("0.3.1", None)],
                },
            ],
        },
        NamespaceEntry {
            name: "local".to_string(),
            is_dir: true,
            packages: vec![PackageEntry {
                name: "book".to_string(),
                is_dir: true,
                versions: vec![version("1.0.0", None)],
            }],
        },
        NamespaceEntry { name: ".cache".to_string(), is_dir: true, packages: vec![] },
        NamespaceEntry { name: "notes.txt".to_string(), is_dir: false, packages: vec![] },
    ]
}

fn list_args(namespace: &str, name: &str, id: bool, first: bool) -> PackageListArgs {
    PackageListArgs { namespace: namespace.to_string(), name: name.to_string(), id, first }
}

#[test]
fn package_list_ids_sorted() {
    let out = package_list(&list_args("", "", true, false), &store(), ts(2000, 0)).ok().unwrap();
    assert_eq!(
        out,
        "@local/book:1.0.0\n@preview/cetz:0.3.1\n@preview/example:0.10.0\n@preview/example:0.2.0\n@preview/example:0.1.0"
    );
}

#[test]
fn package_list_filters() {
    let now = ts(2000, 0);
    let out = package_list(&list_args("preview", "amp", true, false), &store(), now).ok().unwrap();
    assert_eq!(out, "@preview/example:0.10.0\n@preview/example:0.2.0\n@preview/example:0.1.0");
    let out = package_list(&list_args("preview", "", true, true), &store(), now).ok().unwrap();
    assert_eq!(out, "@preview/cetz:0.3.1");
    let out = package_list(&list_args("nothing", "", true, false), &store(), now).ok().unwrap();
    assert_eq!(out, "");
}

#[test]
fn package_list_table() {
    let out = package_list(&list_args("preview", "example", false, false), &store(), ts(2000, 0))
        .ok()
        .unwrap();
    assert_eq!(
        out,
        "Package        Namespace Created\n\
         example:0.10.0 @preview  unknown\n\
         example:0.2.0  @preview  16m40s \n\
         example:0.1.0  @preview  unknown"
    );
}

#[test]
fn package_list_table_empty() {
    let out = package_list(&list_args("none", "", false, false), &store(), ts(0, 0)).ok().unwrap();
    assert_eq!(out, "Package Namespace Created");
}

#[test]
fn listed_spec_resolves_to_its_directory() {
    let id = package_list(&list_args("preview", "cetz", true, true), &store(), ts(0, 0)).ok().unwrap();
    assert_eq!(package_cd(&path_args(&[&id])).ok().unwrap(), vec!["preview", "cetz", "0.3.1"]);
}

#[test]
fn package_main_dispatches() {
    match package_main(PackageCommands::List(list_args("local", "", true, false)), &store(), ts(0, 0)) {
        Ok(PackageOutput::Listing(s)) => assert_eq!(s, "@local/book:1.0.0"),
        _ => panic!("expected a listing"),
    }
    match package_main(PackageCommands::Path(path_args(&["@local/book"])), &vec![], ts(0, 0)) {
        Ok(PackageOutput::Directory(d)) => assert_eq!(d, vec!["local", "book"]),
        _ => panic!("expected a directory"),
    }
    assert!(matches!(
        package_main(PackageCommands::Path(path_args(&[])), &vec![], ts(0, 0)),
        Err(PackageError::Path(CdError::NoSpec))
    ));
}

#[test]
fn print_specs() {
    let q = PackageSpec {
        namespace: "local".to_string(),
        name: "x".to_string(),
        version: PackageVersion { major: 12, minor: 0, patch: 345 },
    };
    assert_eq!(q.to_string(), "@local/x:12.0.345");
    assert_eq!(q.version.to_string(), "12.0.345");
}

#[test]
fn package_list_skips_unparsable_versions() {
    let tree = vec![NamespaceEntry {
        name: "preview".to_string(),
        is_dir: true,
        packages: vec![PackageEntry {
            name: "pkg".to_string(),
            is_dir: true,
            versions: vec![
                version("0.1", None),
                version("1.2.3.4", None),
                version("+1.02.3", None),
                version("x.y.z", None),
            ],
        }],
    }];
    let out = package_list(&list_args("", "", true, false), &tree, ts(0, 0)).ok().unwrap();
    assert_eq!(out, "@preview/pkg:1.2.3");
}

#[test]
fn check_table_reports_first_bad_row() {
    let rows = vec![
        vec!["a".to_string(), "b".to_string()],
        vec!["c".to_string()],
        vec!["d".to_string(), "e".to_string(), "f".to_string()],
    ];
    let e = check_table(&rows, 2).err().unwrap();
    assert_eq!((e.expected, e.got), (2, 1));
    assert_eq!(e.message(), "Invalid table format: expected 2 columns, got 1");
    assert!(check_table(&rows[..1], 2).is_ok());
    assert!(check_table(&[], 5).is_ok());
}

#[test]
fn render_table_pads_by_bytes_and_chars() {
    let rows = vec![
        vec!["é".to_string(), "x".to_string()],
        vec!["ab".to_string(), "yy".to_string()],
    ];
    assert_eq!(render_table(&rows, 2), "é  x \nab yy");
}
