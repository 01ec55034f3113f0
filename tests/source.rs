use qpkg::source::{archive_name, clone_args, fetch_method, unpack_method, Fetch, Unpack};

#[test]
fn archive_names() {
    assert_eq!(archive_name("https://ftp.gnu.org/gnu/make/make-4.4.tar.gz"), "make-4.4.tar.gz");
    assert_eq!(archive_name("https://github.com/x/repo.git:main,full"), "repo");
    assert_eq!(archive_name("local.tar.xz"), "local.tar.xz");
}

#[test]
fn git_locators() {
    match fetch_method("https://github.com/x/repo.git:main,full") {
        Fetch::Git { url, branch, full } => {
            assert_eq!(url, "https://github.com/x/repo");
            assert_eq!(branch, "main");
            assert!(full);
        }
        _ => panic!("expected git"),
    }
    match fetch_method("https://github.com/x/repo.git:dev") {
        Fetch::Git { branch, full, .. } => {
            assert_eq!(branch, "dev");
            assert!(!full);
        }
        _ => panic!("expected git"),
    }
    match fetch_method("git://host/repo.git") {
        Fetch::Git { url, branch, full } => {
            assert_eq!(url, "git://host/repo");
            assert_eq!(branch, "");
            assert!(!full);
        }
        _ => panic!("expected git"),
    }
}

#[test]
fn other_locators() {
    assert!(matches!(fetch_method("https://example.org/a.tar.gz"), Fetch::Http));
    assert!(matches!(fetch_method("/srv/a.tar.gz"), Fetch::Local));
}

#[test]
fn unpack_methods() {
    assert_eq!(unpack_method("https://x/a.tar.xz"), Unpack::Extract);
    assert_eq!(unpack_method("https://x/a.tar.zst"), Unpack::Extract);
    assert_eq!(unpack_method("https://x/a.git"), Unpack::Link);
    assert_eq!(unpack_method("https://x/a.zip"), Unpack::Nothing);
}

#[test]
fn clone_arguments() {
    let a = clone_args(&"u".to_string(), &"main".to_string(), false, true, &"/p".to_string());
    assert_eq!(a, vec!["clone", "u", "--depth=1", "-b", "main", "--recurse-submodules", "/p"]);
    let b = clone_args(&"u".to_string(), &String::new(), true, false, &"/p".to_string());
    assert_eq!(b, vec!["clone", "u", "/p"]);
}
