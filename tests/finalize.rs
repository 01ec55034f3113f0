use qpkg::finalize::placeholder_table;
use qpkg::finalize::{finalize_recipe, FinalizeSettings};
use qpkg::recipe::{has_distinct_keys, General, Recipe, Stage, Step};
use qpkg::template::{merge_template, ExtensionValue, FinalizeError, Template, Templates};

fn step(args: &[&[&str]]) -> Step {
    Step {
        args: args.iter().map(|l| l.iter().map(|t| t.to_string()).collect()).collect(),
        env: vec![],
    }
}

fn recipe(others: &[(&str, &str)], template: Option<&str>) -> Recipe {
    Recipe {
        general: General {
            name: "pkg".to_string(),
            version: "1.2".to_string(),
            src: vec!["https://example.org/pkg-@VERSION@.tar.gz".to_string()],
            src_unpack_dir: String::new(),
            workdir: "pkg-@VERSION@".to_string(),
            template: template.map(|t| t.to_string()),
            binary_alternative: String::new(),
            no_auto_patch: false,
            no_auto_unpack: false,
            recurse_submodules: false,
            exports_aclocal: false,
            reexports_path: false,
            depends: vec!["zlib".to_string()],
            host_depends: vec![],
            others: others.iter().map(|(k, v)| (k.to_string(), v.to_string())).collect(),
        },
        prepare: step(&[]),
        configure: step(&[]),
        build: step(&[]),
        install: step(&[]),
    }
}

fn settings() -> FinalizeSettings {
    FinalizeSettings {
        build_root: "/b".to_string(),
        sysroot: "/b/sysroot".to_string(),
        target: "x86_64-qpkg".to_string(),
        threads: 4,
        extra: vec![("prefix".to_string(), "/usr".to_string())],
    }
}

fn empty_template() -> Template {
    Template {
        opt_args: vec![],
        depends: vec![],
        host_depends: vec![],
        add_prepare: vec![],
        add_configure: vec![],
        add_build: vec![],
        add_install: vec![],
        prepare_env: vec![],
        configure_env: vec![],
        build_env: vec![],
        install_env: vec![],
        default_prepare: String::new(),
        default_configure: String::new(),
        default_build: String::new(),
        default_install: String::new(),
        others: vec![],
    }
}

fn no_templates() -> Templates {
    Templates { templates: vec![] }
}

fn finalize(r: Recipe, t: &Templates) -> Result<Recipe, FinalizeError> {
    finalize_recipe(r, t, &settings(), "/b/sources/pkg", "/b/pkgs/pkg")
}

fn ok(r: Result<Recipe, FinalizeError>) -> Recipe {
    match r {
        Ok(r) => r,
        Err(_) => panic!("finalization failed"),
    }
}

#[test]
fn placeholder_in_replacement_is_resolved() {
    let mut r = recipe(&[("a", "x-@B@"), ("b", "y")], None);
    r.configure = step(&[&["@A@"]]);
    let f = ok(finalize(r, &no_templates()));
    assert_eq!(f.configure.args, vec![vec!["x-y".to_string()]]);
}

#[test]
fn builtin_placeholders() {
    let mut r = recipe(&[], None);
    r.configure = step(&[&["@SRCDIR@/configure", "--prefix=@PREFIX@", "--host=@TARGET@"]]);
    r.install = step(&[&["make", "DESTDIR=@DESTDIR@", "-j@THREADS@"], &["ls", "@SYSROOT@", "@BUILDROOT@"]]);
    let f = ok(finalize(r, &no_templates()));
    assert_eq!(
        f.configure.args[0],
        vec!["/b/sources/pkg/pkg-1.2/configure", "--prefix=/usr", "--host=x86_64-qpkg"]
    );
    assert_eq!(f.install.args[0], vec!["make", "DESTDIR=/b/pkgs/pkg", "-j4"]);
    assert_eq!(f.install.args[1], vec!["ls", "/b/sysroot", "/b"]);
    assert_eq!(f.general.workdir, "pkg-1.2");
    assert_eq!(f.general.src, vec!["https://example.org/pkg-1.2.tar.gz"]);
}

#[test]
fn tokens_are_trimmed_and_newlines_become_spaces() {
    let mut r = recipe(&[], None);
    r.build = step(&[&["  make ", "a\nb"]]);
    let f = ok(finalize(r, &no_templates()));
    assert_eq!(f.build.args[0], vec!["make", "a b"]);
}

#[test]
fn environment_values_are_substituted() {
    let mut r = recipe(&[("opt", "-O2")], None);
    r.build.env = vec![("CFLAGS".to_string(), "@OPT@ -g".to_string())];
    let f = ok(finalize(r, &no_templates()));
    assert_eq!(f.build.env, vec![("CFLAGS".to_string(), "-O2 -g".to_string())]);
}

#[test]
fn unpack_dir_replaces_source_root() {
    let mut r = recipe(&[], None);
    r.general.src_unpack_dir = "/srv/src".to_string();
    r.prepare = step(&[&["cd", "@SRCDIR@"]]);
    let f = ok(finalize(r, &no_templates()));
    assert_eq!(f.prepare.args[0], vec!["cd", "/srv/src/pkg-1.2"]);
}

#[test]
fn self_referential_value_is_rejected() {
    let mut r = recipe(&[("a", "@A@x")], None);
    r.build = step(&[&["@A@"]]);
    match finalize(r, &no_templates()) {
        Err(FinalizeError::Unsettled { value }) => assert_eq!(value, "@A@"),
        _ => panic!("expected an unsettled value"),
    }
}

fn autotools() -> Templates {
    let mut t = empty_template();
    t.opt_args = vec!["@CONFIGURE_EXTRA@".to_string()];
    t.depends = vec!["make".to_string()];
    t.host_depends = vec!["autoconf".to_string()];
    t.add_install = vec!["rm -rf @DESTDIR@/usr/share/info".to_string()];
    t.build_env = vec![("V".to_string(), "1".to_string())];
    t.default_configure = "configure_cmd".to_string();
    t.default_build = "build_cmd".to_string();
    t.others = vec![
        (
            "configure_cmd".to_string(),
            ExtensionValue::Commands(vec!["@SRCDIR@/configure @CONFIGURE_EXTRA@".to_string()]),
        ),
        ("build_cmd".to_string(), ExtensionValue::Commands(vec!["make".to_string()])),
    ];
    Templates { templates: vec![("autotools".to_string(), t)] }
}

#[test]
fn template_is_merged() {
    let mut r = recipe(&[], Some("autotools"));
    r.build = step(&[&["ninja"]]);
    let f = ok(finalize(r, &autotools()));
    assert_eq!(f.general.depends, vec!["zlib", "make"]);
    assert_eq!(f.general.host_depends, vec!["autoconf"]);
    assert_eq!(f.configure.args, vec![vec!["/b/sources/pkg/pkg-1.2/configure".to_string()]]);
    assert_eq!(f.build.args, vec![vec!["ninja".to_string()]]);
    assert_eq!(f.build.env, vec![("V".to_string(), "1".to_string())]);
    assert_eq!(f.install.args, vec![vec!["rm -rf /b/pkgs/pkg/usr/share/info".to_string()]]);
    assert!(f.prepare.args.is_empty());
}

#[test]
fn default_step_used_only_for_empty_stage() {
    let r = recipe(&[], Some("autotools"));
    let m = match merge_template(r, &autotools()) {
        Ok(m) => m,
        Err(_) => panic!("merge failed"),
    };
    assert_eq!(m.build.args, vec![vec!["make".to_string()]]);
    assert_eq!(m.configure.args, vec![vec!["@SRCDIR@/configure @CONFIGURE_EXTRA@".to_string()]]);
}

#[test]
fn undefined_template() {
    let r = recipe(&[], Some("cmake"));
    match finalize(r, &autotools()) {
        Err(FinalizeError::UndefinedTemplate { template, recipe }) => {
            assert_eq!(template, "cmake");
            assert_eq!(recipe, "pkg");
        }
        _ => panic!("expected an undefined template"),
    }
}

#[test]
fn undefined_default_step_key() {
    let mut t = empty_template();
    t.default_install = "missing".to_string();
    let ts = Templates { templates: vec![("t".to_string(), t)] };
    match finalize(recipe(&[], Some("t")), &ts) {
        Err(FinalizeError::UndefinedDefaultStep { stage, key }) => {
            assert_eq!(stage, Stage::Install);
            assert_eq!(key, "missing");
        }
        _ => panic!("expected an undefined default step"),
    }
}

#[test]
fn malformed_default_step() {
    let mut t = empty_template();
    t.default_prepare = "bad".to_string();
    t.others = vec![("bad".to_string(), ExtensionValue::Other)];
    let ts = Templates { templates: vec![("t".to_string(), t)] };
    match finalize(recipe(&[], Some("t")), &ts) {
        Err(FinalizeError::MalformedDefaultStep { stage }) => assert_eq!(stage, Stage::Prepare),
        _ => panic!("expected a malformed default step"),
    }
}

#[test]
fn stored_recipe_without_template_is_kept() {
    let mut r = recipe(&[], None);
    r.build = step(&[&["make"]]);
    let m = match merge_template(r, &autotools()) {
        Ok(m) => m,
        Err(_) => panic!("merge failed"),
    };
    assert_eq!(m.general.depends, vec!["zlib"]);
    assert_eq!(m.build.args, vec![vec!["make".to_string()]]);
}

#[test]
fn table_of_placeholders() {
    let mut r = recipe(&[("jobs", "8"), ("prefix", "/opt")], None);
    r.general.version = "2.0".to_string();
    let declared = vec!["@EXTRA@".to_string(), "@PREFIX@".to_string(), "@EXTRA@".to_string()];
    let (p, v) = placeholder_table(&r.general, &settings(), &"/s/pkg".to_string(), "/d", &declared);
    assert_eq!(
        p,
        vec![
            "@VERSION@", "@BUILDROOT@", "@SRCDIR@", "@DESTDIR@", "@SYSROOT@", "@TARGET@", "@THREADS@",
            "\n", "@PREFIX@", "@JOBS@", "@PREFIX@", "@EXTRA@",
        ]
    );
    assert_eq!(
        v,
        vec!["2.0", "/b", "/s/pkg", "/d", "/b/sysroot", "x86_64-qpkg", "4", " ", "/usr", "8", "/opt", ""]
    );
}

#[test]
fn distinct_keys_of_tables() {
    assert!(has_distinct_keys(&vec![("a".to_string(), 1), ("b".to_string(), 2)]));
    assert!(!has_distinct_keys(&vec![("a".to_string(), 1), ("b".to_string(), 2), ("a".to_string(), 3)]));
    assert!(has_distinct_keys::<u8>(&vec![]));
    assert!(has_distinct_keys(&autotools().templates));
}
