use qpkg::recipe::General;
use qpkg::walk::{package_record, Turn, WalkError, Walker};

type Node<'a> = (&'a str, &'a [&'a str], &'a [&'a str], &'a str);

fn general(name: &str, depends: &[&str], host_depends: &[&str], alt: &str) -> General {
    General {
        name: name.to_string(),
        version: "1".to_string(),
        src: vec![],
        src_unpack_dir: String::new(),
        workdir: String::new(),
        template: None,
        binary_alternative: alt.to_string(),
        no_auto_patch: false,
        no_auto_unpack: false,
        recurse_submodules: false,
        exports_aclocal: false,
        reexports_path: false,
        depends: depends.iter().map(|s| s.to_string()).collect(),
        host_depends: host_depends.iter().map(|s| s.to_string()).collect(),
        others: vec![],
    }
}

struct Run {
    name: String,
    host: bool,
    user_requested: bool,
    path: String,
}

fn walk(w: &mut Walker, graph: &[Node]) -> Result<Vec<Run>, String> {
    let mut out = Vec::new();
    let mut steps = 0;
    while let Some((name, _host)) = w.next_item() {
        steps += 1;
        assert!(steps < 1000, "walk does not end");
        let node = graph.iter().find(|n| n.0 == name).expect("unknown package");
        let g = general(node.0, node.1, node.2, node.3);
        let dir = format!("/b/host_pkgs/{}", name);
        match w.advance(&g, &dir) {
            Ok(Turn::Execute { name, host, user_requested, path, .. }) => {
                out.push(Run { name, host, user_requested, path })
            }
            Ok(_) => {}
            Err(WalkError::Cycle { name }) => return Err(name),
        }
    }
    Ok(out)
}

fn diamond() -> Vec<Node<'static>> {
    vec![
        ("app", &["lib1", "lib2"], &["tool"], ""),
        ("lib1", &["base"], &[], ""),
        ("lib2", &["base"], &[], ""),
        ("base", &[], &[], ""),
        ("tool", &[], &[], ""),
    ]
}

#[test]
fn shared_dependency_executes_once() {
    let mut w = Walker::new(vec!["app".to_string()], false, false, "/usr/bin".to_string());
    let runs = walk(&mut w, &diamond()).unwrap();
    let names: Vec<&str> = runs.iter().map(|r| r.name.as_str()).collect();
    assert_eq!(names, vec!["tool", "base", "lib1", "lib2", "app"]);
    for (i, a) in names.iter().enumerate() {
        assert!(!names[i + 1..].contains(a));
    }
}

#[test]
fn dependencies_execute_before_dependents() {
    let graph = diamond();
    let mut w = Walker::new(vec!["app".to_string()], false, false, "/usr/bin".to_string());
    let runs = walk(&mut w, &graph).unwrap();
    let pos = |n: &str| runs.iter().position(|r| r.name == n).unwrap();
    for node in &graph {
        for d in node.1.iter().chain(node.2.iter()) {
            assert!(pos(d) < pos(node.0));
        }
    }
}

#[test]
fn flags_of_execution_turns() {
    let mut w = Walker::new(vec!["app".to_string()], false, false, "/usr/bin".to_string());
    let runs = walk(&mut w, &diamond()).unwrap();
    let tool = runs.iter().find(|r| r.name == "tool").unwrap();
    assert!(tool.host);
    assert!(!tool.user_requested);
    let app = runs.iter().find(|r| r.name == "app").unwrap();
    assert!(!app.host);
    assert!(app.user_requested);
    assert_eq!(
        app.path,
        ":/b/host_pkgs/tool/bin:/b/host_pkgs/tool/usr/bin:/b/host_pkgs/tool/usr/local/bin:/usr/bin"
    );
    let lib1 = runs.iter().find(|r| r.name == "lib1").unwrap();
    assert_eq!(lib1.path, ":/usr/bin");
}

#[test]
fn requested_names_visit_last_first() {
    let graph: Vec<Node> = vec![("a", &[], &[], ""), ("b", &[], &[], "")];
    let mut w = Walker::new(vec!["a".to_string(), "b".to_string()], false, false, String::new());
    let runs = walk(&mut w, &graph).unwrap();
    let names: Vec<&str> = runs.iter().map(|r| r.name.as_str()).collect();
    assert_eq!(names, vec!["b", "a"]);
}

#[test]
fn binary_alternative_replaces_package() {
    let graph: Vec<Node> = vec![
        ("app", &["gcc"], &[], ""),
        ("gcc", &["gmp"], &[], "gcc-bin"),
        ("gmp", &[], &[], ""),
        ("gcc-bin", &[], &[], ""),
    ];
    let mut w = Walker::new(vec!["app".to_string()], false, true, String::new());
    let runs = walk(&mut w, &graph).unwrap();
    let names: Vec<&str> = runs.iter().map(|r| r.name.as_str()).collect();
    assert_eq!(names, vec!["gmp", "gcc-bin", "app"]);
}

#[test]
fn binary_alternative_ignored_without_preference() {
    let graph: Vec<Node> = vec![("app", &["gcc"], &[], ""), ("gcc", &[], &[], "gcc-bin")];
    let mut w = Walker::new(vec!["app".to_string()], false, false, String::new());
    let runs = walk(&mut w, &graph).unwrap();
    let names: Vec<&str> = runs.iter().map(|r| r.name.as_str()).collect();
    assert_eq!(names, vec!["gcc", "app"]);
}

#[test]
fn cycle_is_reported() {
    let graph: Vec<Node> = vec![("a", &["b"], &[], ""), ("b", &["a"], &[], "")];
    let mut w = Walker::new(vec!["a".to_string()], false, false, String::new());
    assert_eq!(walk(&mut w, &graph).err(), Some("a".to_string()));
}

#[test]
fn host_record_paths() {
    let r = package_record(true, true, &"/h/tool".to_string());
    assert_eq!(r.path, ":/h/tool/bin:/h/tool/usr/bin:/h/tool/usr/local/bin");
    assert_eq!(
        r.aclocal,
        ":/h/tool/share/aclocal:/h/tool/usr/share/aclocal:/h/tool/usr/local/share/aclocal"
    );
    let t = package_record(false, true, &"/h/tool".to_string());
    assert_eq!(t.path, "");
    assert_eq!(t.aclocal, "");
    let no_aclocal = package_record(true, false, &"/h/tool/".to_string());
    assert_eq!(no_aclocal.path, ":/h/tool/bin:/h/tool/usr/bin:/h/tool/usr/local/bin");
    assert_eq!(no_aclocal.aclocal, "");
}

#[test]
fn reexported_path_reaches_later_packages() {
    let graph: Vec<Node> = vec![("app", &[], &["tool"], ""), ("tool", &[], &[], "")];
    let mut w = Walker::new(vec!["app".to_string()], false, false, "/usr/bin".to_string());
    let mut paths = Vec::new();
    while let Some((name, _)) = w.next_item() {
        let node = graph.iter().find(|n| n.0 == name).unwrap();
        let mut g = general(node.0, node.1, node.2, node.3);
        g.reexports_path = name == "tool";
        g.exports_aclocal = name == "tool";
        if let Ok(Turn::Execute { name, path, aclocal, .. }) = w.advance(&g, &format!("/h/{}", name)) {
            paths.push((name, path, aclocal));
        }
    }
    assert_eq!(paths[0].1, ":/usr/bin::/h/tool/bin:/h/tool/usr/bin:/h/tool/usr/local/bin");
    assert_eq!(
        paths[1].1,
        ":/h/tool/bin:/h/tool/usr/bin:/h/tool/usr/local/bin:/usr/bin::/h/tool/bin:/h/tool/usr/bin:/h/tool/usr/local/bin"
    );
    assert_eq!(
        paths[1].2,
        ":/h/tool/share/aclocal:/h/tool/usr/share/aclocal:/h/tool/usr/local/share/aclocal"
    );
}
