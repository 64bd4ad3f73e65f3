use typship::generate::{fork_from_remote, generate, GenerateArgs};
use typship::host::{host, package_filter, selects, HostArgs, HostedPackage};
use typship::pack::{UniversePack, UniversePackBuilder};
use typship::pkgspec::{PackageSpec, PackageVersion};
use typship::proxy::{check_file_name, log_error, upstream_url, with_log, TypshipError};
use typship::registry::{
    login_asks_token, package_versions_path, packages_path, universe_token, RegistryError,
    UNIVERSE_REPO_NAME, UNIVERSE_REPO_OWNER,
};

fn some(s: &str) -> Option<String> {
    Some(s.to_string())
}

#[test]
fn host_filter_words() {
    assert!(package_filter(&None).is_empty());
    assert!(package_filter(&some("all")).is_empty());
    assert!(package_filter(&some("  all \n")).is_empty());
    assert_eq!(package_filter(&some(" a  b\tc ")), vec!["a", "b", "c"]);
    assert_eq!(package_filter(&some("all all")), vec!["all", "all"]);
    assert!(package_filter(&some("   ")).is_empty());
}

#[test]
fn host_selection() {
    assert!(selects(&vec![], "x"));
    let f = vec!["a".to_string(), "b".to_string()];
    assert!(selects(&f, "b"));
    assert!(!selects(&f, "ab"));
}

fn hosted(dir: &str, name: &str, v: (u32, u32, u32)) -> HostedPackage {
    HostedPackage {
        dir: dir.to_string(),
        name: name.to_string(),
        version: PackageVersion { major: v.0, minor: v.1, patch: v.2 },
    }
}

#[test]
fn host_matrix() {
    let found = vec![hosted("./a", "alpha", (0, 1, 0)), hosted("./b", "beta", (1, 2, 3))];
    let args = HostArgs { packages: some("beta gamma"), source: None, destination: None };
    let out = host(&args, &found);
    let jobs = out.ci.github.artifacts_matrix.unwrap();
    assert_eq!(jobs.len(), 1);
    assert_eq!(jobs[0].runner, "ubuntu-24.04");
    assert!(jobs[0].container.is_none());
    assert_eq!(jobs[0].package.source, "./b");
    assert_eq!(jobs[0].package.name, "beta");
    assert_eq!(jobs[0].package.version, "1.2.3");
    let all = host(&HostArgs { packages: None, source: None, destination: None }, &found);
    assert_eq!(all.ci.github.artifacts_matrix.unwrap().len(), 2);
}

#[test]
fn fork_from_remote_urls() {
    assert_eq!(fork_from_remote("https://github.com/someone/packages.git"), some("someone/packages"));
    assert_eq!(fork_from_remote("https://github.com/someone/packages.git\n"), some("someone/packages"));
    assert_eq!(fork_from_remote("https://github.com"), some("/packages"));
    assert_eq!(fork_from_remote("not a url"), None);
    assert_eq!(fork_from_remote("git@github.com:someone/packages.git"), None);
}

const TEMPLATE: &str = "source: \"<<source>>\"\ndest: \"<<destination>>\"\nfork: \"<<push-to-fork>>\"\n";

#[test]
fn generate_defaults() {
    let args = GenerateArgs { source: None, push_to_fork: None, destination: None };
    assert_eq!(
        generate(&args, None, TEMPLATE),
        "source: \"typst/packages\"\ndest: \"packages/preview\"\nfork: \"typst/packages\"\n"
    );
}

#[test]
fn generate_from_remote_and_args() {
    let args = GenerateArgs { source: some("me/src"), push_to_fork: None, destination: some("a\"b") };
    assert_eq!(
        generate(&args, some("https://github.com/me/packages"), TEMPLATE),
        "source: \"me/src\"\ndest: \"a\\\"b\"\nfork: \"me/packages\"\n"
    );
    let args = GenerateArgs { source: None, push_to_fork: some("x/y"), destination: None };
    assert_eq!(
        generate(&args, some("https://github.com/me/packages"), "<<push-to-fork>> \"<<push-to-fork>>\""),
        "<<push-to-fork>> \"x/y\""
    );
}

fn spec(ns: &str, name: &str, v: (u32, u32, u32)) -> PackageSpec {
    PackageSpec {
        namespace: ns.to_string(),
        name: name.to_string(),
        version: PackageVersion { major: v.0, minor: v.1, patch: v.2 },
    }
}

#[test]
fn universe_archive_urls() {
    let pack = UniversePack::new(spec("preview", "example", (0, 1, 0)));
    assert_eq!(pack.registry, "https://packages.typst.org");
    assert_eq!(pack.archive_url(), "https://packages.typst.org/preview/example-0.1.0.tar.gz");
    let local = UniversePackBuilder::new("http://127.0.0.1:11980".to_string())
        .build(spec("preview", "cetz", (0, 3, 12)));
    assert_eq!(local.registry, "http://127.0.0.1:11980");
    assert_eq!(local.archive_url(), "http://127.0.0.1:11980/preview/cetz-0.3.12.tar.gz");
}

#[test]
fn proxy_file_names() {
    assert_eq!(check_file_name("example-0.1.0.tar.gz".to_string()).ok().unwrap(), "example-0.1.0.tar.gz");
    assert!(check_file_name("数学-1.0.0.tar.gz".to_string()).is_ok());
    for bad in ["example-0.1.0.zip", "../x.tar.gz", "a b.tar.gz", "a_b.tar.gz", ".tar.g"] {
        match check_file_name(bad.to_string()) {
            Err(TypshipError::InvalidFileName(n)) => assert_eq!(n, bad),
            _ => panic!("{bad} should be refused"),
        }
    }
}

#[test]
fn proxy_responses() {
    let (code, body) = TypshipError::InvalidFileName("x".to_string()).into_response();
    assert_eq!((code, body.as_str()), (400, "x"));
    let (code, body) = TypshipError::Internal.into_response();
    assert_eq!((code, body.as_str()), (500, "internal error"));
    let io = std::io::Error::new(std::io::ErrorKind::Other, "disk full");
    let (code, body) = TypshipError::from(io).into_response();
    assert_eq!((code, body.as_str()), (500, "disk full"));
    assert!(matches!(TypshipError::from("n".to_string()), TypshipError::InvalidFileName(n) if n == "n"));
}

#[test]
fn proxy_urls_and_internal_errors() {
    assert_eq!(
        upstream_url("https://packages.typst.org", "a-1.0.0.tar.gz"),
        "https://packages.typst.org/preview/a-1.0.0.tar.gz"
    );
    assert!(matches!(log_error::<u8, String>(Err("e".to_string())), Err(TypshipError::Internal)));
    assert!(matches!(log_error::<u8, String>(Ok(3)), Ok(3)));
    assert!(matches!(with_log::<u8>(None), Err(TypshipError::Internal)));
    assert!(matches!(with_log(Some(4u8)), Ok(4)));
}

#[test]
fn registry_paths_and_token() {
    assert_eq!(UNIVERSE_REPO_OWNER, "typst");
    assert_eq!(UNIVERSE_REPO_NAME, "packages");
    assert_eq!(packages_path(), "packages/preview");
    assert_eq!(package_versions_path("cetz"), "packages/preview/cetz");
    assert_eq!(universe_token(some("t0k")).ok().unwrap(), "t0k");
    let e = universe_token(None).err().unwrap();
    assert!(matches!(e, RegistryError::MissingToken));
    assert_eq!(e.message(), "You need to set up the token first. Run `typship login universe`.");
    assert!(login_asks_token(false, false));
    assert!(!login_asks_token(true, false));
    assert!(login_asks_token(true, true));
}

#[test]
fn universe_test() {
    let registry = UniversePackBuilder::new("http://127.0.0.1:11980".into());

    let spec = spec("preview", "example", (0, 1, 0));
    assert_eq!(spec.to_string(), "@preview/example:0.1.0");

    let src = registry.build(spec);

    assert_eq!(src.registry, "http://127.0.0.1:11980");
    assert_eq!(src.specifier.to_string(), "@preview/example:0.1.0");
    assert_eq!(src.archive_url(), "http://127.0.0.1:11980/preview/example-0.1.0.tar.gz");
}
