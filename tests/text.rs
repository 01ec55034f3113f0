use qpkg::config::{default_doc_dir, thread_count, yes, CompilerConfig};
use qpkg::env::{command_env, command_line, host_env, target_env};
use qpkg::text::{decimal, join_path, replace_text, trim};

fn pairs(list: &[(&str, &str)]) -> Vec<(String, String)> {
    list.iter().map(|(a, b)| (a.to_string(), b.to_string())).collect()
}

#[test]
fn trimming() {
    assert_eq!(trim("  a b \t\n"), "a b");
    assert_eq!(trim("\u{3000}x\u{a0}"), "x");
    assert_eq!(trim("   "), "");
}

#[test]
fn replacing() {
    assert_eq!(replace_text("a-@VERSION@-@VERSION@", "@VERSION@", "1.0"), "a-1.0-1.0");
    assert_eq!(replace_text("aaa", "aa", "b"), "ba");
    assert_eq!(replace_text("none", "@X@", "y"), "none");
}

#[test]
fn joining_paths() {
    assert_eq!(join_path("/b/src", "pkg"), "/b/src/pkg");
    assert_eq!(join_path("/b/src/", "pkg"), "/b/src/pkg");
    assert_eq!(join_path("/b/src", "/abs"), "/abs");
    assert_eq!(join_path("/b/src", ""), "/b/src/");
}

#[test]
fn decimals() {
    assert_eq!(decimal(0), "0");
    assert_eq!(decimal(16), "16");
    assert_eq!(decimal(usize::MAX), usize::MAX.to_string());
}

#[test]
fn command_lines() {
    let t = vec!["make".to_string(), "-j4".to_string(), "install".to_string()];
    assert_eq!(command_line(&t), "make -j4 install");
    assert_eq!(command_line(&vec![]), "");
}

#[test]
fn command_environment() {
    let env = command_env(
        &pairs(&[("A", "1"), ("A", "2")]),
        &pairs(&[("CC", "gcc")]),
        &Some("/sys".to_string()),
        &"/p".to_string(),
        &"/m".to_string(),
    );
    assert_eq!(
        env,
        pairs(&[
            ("LC_ALL", "C"),
            ("A", "1"),
            ("A", "2"),
            ("CC", "gcc"),
            ("QPKG_SYSROOT_DIR", "/sys"),
            ("PATH", "/p"),
            ("ACLOCAL_PATH", "/m"),
        ])
    );
    let prep = command_env(&vec![], &vec![], &None, &"/p".to_string(), &"".to_string());
    assert_eq!(prep, pairs(&[("LC_ALL", "C"), ("PATH", "/p"), ("ACLOCAL_PATH", "")]));
}

#[test]
fn target_environment() {
    let target = CompilerConfig {
        cc: "@BUILDROOT@/bin/cc".to_string(),
        cxx: "@BUILDROOT@/bin/c++".to_string(),
        cflags: "-O2".to_string(),
        cxxflags: String::new(),
        ldflags: "-s".to_string(),
        others: pairs(&[("AR", "ar")]),
    };
    let env = target_env(
        &pairs(&[("X", "y")]),
        &target,
        &"/usr/bin/cc".to_string(),
        &"/usr/bin/c++".to_string(),
        &"/b".to_string(),
    );
    assert_eq!(
        env,
        pairs(&[
            ("X", "y"),
            ("CC", "/b/bin/cc"),
            ("CXX", "/b/bin/c++"),
            ("QPKG_HOST_CC", "/usr/bin/cc"),
            ("QPKG_HOST_CXX", "/usr/bin/c++"),
            ("CFLAGS", "-O2"),
            ("LDFLAGS", "-s"),
            ("AR", "ar"),
        ])
    );
}

#[test]
fn host_environment() {
    let build = CompilerConfig::default();
    assert_eq!(host_env(&build), pairs(&[("CC", "cc"), ("CXX", "c++")]));
}

#[test]
fn configuration_defaults() {
    assert!(yes());
    assert_eq!(default_doc_dir(), "/usr/share/doc");
    assert_eq!(thread_count(0, 8), 8);
    assert_eq!(thread_count(3, 8), 3);
    let d = CompilerConfig::default();
    assert_eq!(d.cc, "cc");
    assert_eq!(d.cxx, "c++");
    assert!(d.cflags.is_empty() && d.cxxflags.is_empty() && d.ldflags.is_empty() && d.others.is_empty());
}
