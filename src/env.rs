//! The command line and environment of each build command.
use vstd::prelude::*;
use crate::config::CompilerConfig;
use crate::recipe::{copy_pairs, EnvVar};
use crate::text::{replace_of, replace_text};

verus! {

/// The tokens joined by single spaces.
pub open spec fn joined_of(tokens: Seq<Seq<char>>) -> Seq<char>
    decreases tokens.len(),
{
    if tokens.len() == 0 {
        seq![]
    } else if tokens.len() == 1 {
        tokens[0]
    } else {
        joined_of(tokens.drop_last()) + seq![' '] + tokens.last()
    }
}

/// The shell command of one command line.
pub fn command_line(tokens: &Vec<String>) -> (r: String)
    ensures
        r@ == joined_of(tokens.deep_view()),
{
    let mut r = String::new();
    let mut i: usize = 0;
    assert(tokens.deep_view().take(0) =~= Seq::<Seq<char>>::empty());
    while i < tokens.len()
        invariant
            i <= tokens.len(),
            r@ == joined_of(tokens.deep_view().take(i as int)),
        decreases tokens.len() - i,
    {
        assert(tokens.deep_view().take(i + 1).drop_last() =~= tokens.deep_view().take(i as int));
        assert(tokens.deep_view().take(i + 1).last() == tokens[i as int]@);
        if i > 0 {
            let space = " ";
            proof {
                reveal_strlit(" ");
            }
            r.append(space);
        } else {
            assert(tokens.deep_view().take(1)[0] == tokens[0]@);
        }
        r.append(tokens[i].as_str());
        i = i + 1;
    }
    assert(tokens.deep_view().take(i as int) =~= tokens.deep_view());
    r
}

fn pair(name: &str, value: &String) -> (r: EnvVar)
    ensures
        r.0@ == name@,
        r.1@ == value@,
{
    (String::from_str(name), value.clone())
}

fn append_env(a: &mut Vec<EnvVar>, b: &Vec<EnvVar>)
    ensures
        final(a).deep_view() == old(a).deep_view() + b.deep_view(),
{
    let ghost a0 = a.deep_view();
    let mut c = copy_pairs(b);
    a.append(&mut c);
    assert(a.deep_view() =~= a0 + b.deep_view());
}

/// The environment of one build command, in the order the entries apply:
/// the C locale, the stage's overrides, the global entries, the sysroot for
/// stages after `prepare`, and the search paths.
pub open spec fn command_env_of(
    stage_env: Seq<(Seq<char>, Seq<char>)>,
    global: Seq<(Seq<char>, Seq<char>)>,
    sysroot: Option<Seq<char>>,
    path: Seq<char>,
    aclocal: Seq<char>,
) -> Seq<(Seq<char>, Seq<char>)> {
    seq![("LC_ALL"@, "C"@)] + stage_env + global + match sysroot {
        Some(s) => seq![("QPKG_SYSROOT_DIR"@, s)],
        None => seq![],
    } + seq![("PATH"@, path), ("ACLOCAL_PATH"@, aclocal)]
}

pub fn command_env(
    stage_env: &Vec<EnvVar>,
    global: &Vec<EnvVar>,
    sysroot: &Option<String>,
    path: &String,
    aclocal: &String,
) -> (r: Vec<EnvVar>)
    ensures
        r.deep_view() == command_env_of(
            stage_env.deep_view(),
            global.deep_view(),
            sysroot.deep_view(),
            path@,
            aclocal@,
        ),
{
    let mut r: Vec<EnvVar> = Vec::new();
    r.push(pair("LC_ALL", &String::from_str("C")));
    assert(r.deep_view() =~= seq![("LC_ALL"@, "C"@)]);
    append_env(&mut r, stage_env);
    append_env(&mut r, global);
    let ghost mid = r.deep_view();
    assert(mid =~= seq![("LC_ALL"@, "C"@)] + stage_env.deep_view() + global.deep_view());
    match sysroot {
        Some(s) => {
            r.push(pair("QPKG_SYSROOT_DIR", s));
            assert(r.deep_view() =~= mid + seq![("QPKG_SYSROOT_DIR"@, s@)]);
        },
        None => {
            assert(r.deep_view() =~= mid + Seq::<(Seq<char>, Seq<char>)>::empty());
        },
    }
    let ghost with_root = r.deep_view();
    r.push(pair("PATH", path));
    r.push(pair("ACLOCAL_PATH", aclocal));
    assert(r.deep_view() =~= with_root + seq![("PATH"@, path@), ("ACLOCAL_PATH"@, aclocal@)]);
    assert(r.deep_view() =~= command_env_of(
        stage_env.deep_view(),
        global.deep_view(),
        sysroot.deep_view(),
        path@,
        aclocal@,
    ));
    r
}

/// `entries` followed by `name=value` where `value` is not empty.
pub open spec fn with_flag(
    entries: Seq<(Seq<char>, Seq<char>)>,
    name: Seq<char>,
    value: Seq<char>,
) -> Seq<(Seq<char>, Seq<char>)> {
    if value.len() > 0 {
        entries.push((name, value))
    } else {
        entries
    }
}

fn push_flag(entries: &mut Vec<EnvVar>, name: &str, value: &String)
    ensures
        final(entries).deep_view() == with_flag(old(entries).deep_view(), name@, value@),
{
    if !value.as_str().is_empty() {
        let ghost before = entries.deep_view();
        entries.push(pair(name, value));
        assert(entries.deep_view() =~= before.push((name@, value@)));
    }
}

/// The global environment of target packages: the user's entries, the
/// target compilers with `@BUILDROOT@` replaced, the host compilers' full
/// paths, the target flags that are set, and the target's extra entries.
pub open spec fn target_env_of(
    user: Seq<(Seq<char>, Seq<char>)>,
    cc: Seq<char>,
    cxx: Seq<char>,
    cflags: Seq<char>,
    cxxflags: Seq<char>,
    ldflags: Seq<char>,
    others: Seq<(Seq<char>, Seq<char>)>,
    host_cc: Seq<char>,
    host_cxx: Seq<char>,
    build_root: Seq<char>,
) -> Seq<(Seq<char>, Seq<char>)> {
    with_flag(
        with_flag(
            with_flag(
                user + seq![
                    ("CC"@, replace_of(cc, "@BUILDROOT@"@, build_root)),
                    ("CXX"@, replace_of(cxx, "@BUILDROOT@"@, build_root)),
                    ("QPKG_HOST_CC"@, host_cc),
                    ("QPKG_HOST_CXX"@, host_cxx),
                ],
                "CFLAGS"@,
                cflags,
            ),
            "CXXFLAGS"@,
            cxxflags,
        ),
        "LDFLAGS"@,
        ldflags,
    ) + others
}

pub fn target_env(
    user: &Vec<EnvVar>,
    target: &CompilerConfig,
    host_cc: &String,
    host_cxx: &String,
    build_root: &String,
) -> (r: Vec<EnvVar>)
    ensures
        r.deep_view() == target_env_of(
            user.deep_view(),
            target.cc@,
            target.cxx@,
            target.cflags@,
            target.cxxflags@,
            target.ldflags@,
            target.others.deep_view(),
            host_cc@,
            host_cxx@,
            build_root@,
        ),
{
    let placeholder = "@BUILDROOT@";
    proof {
        reveal_strlit("@BUILDROOT@");
    }
    let cc = replace_text(target.cc.as_str(), placeholder, build_root.as_str());
    let cxx = replace_text(target.cxx.as_str(), placeholder, build_root.as_str());
    let mut r = copy_pairs(user);
    r.push(pair("CC", &cc));
    r.push(pair("CXX", &cxx));
    r.push(pair("QPKG_HOST_CC", host_cc));
    r.push(pair("QPKG_HOST_CXX", host_cxx));
    let ghost base = r.deep_view();
    assert(base =~= user.deep_view() + seq![
        ("CC"@, replace_of(target.cc@, "@BUILDROOT@"@, build_root@)),
        ("CXX"@, replace_of(target.cxx@, "@BUILDROOT@"@, build_root@)),
        ("QPKG_HOST_CC"@, host_cc@),
        ("QPKG_HOST_CXX"@, host_cxx@),
    ]);
    push_flag(&mut r, "CFLAGS", &target.cflags);
    push_flag(&mut r, "CXXFLAGS", &target.cxxflags);
    push_flag(&mut r, "LDFLAGS", &target.ldflags);
    append_env(&mut r, &target.others);
    r
}

/// The global environment of host packages: the build compilers and the
/// build flags that are set.
pub open spec fn host_env_of(
    cc: Seq<char>,
    cxx: Seq<char>,
    cflags: Seq<char>,
    cxxflags: Seq<char>,
    ldflags: Seq<char>,
) -> Seq<(Seq<char>, Seq<char>)> {
    with_flag(
        with_flag(with_flag(seq![("CC"@, cc), ("CXX"@, cxx)], "CFLAGS"@, cflags), "CXXFLAGS"@, cxxflags),
        "LDFLAGS"@,
        ldflags,
    )
}

pub fn host_env(build: &CompilerConfig) -> (r: Vec<EnvVar>)
    ensures
        r.deep_view() == host_env_of(
            build.cc@,
            build.cxx@,
            build.cflags@,
            build.cxxflags@,
            build.ldflags@,
        ),
{
    let mut r: Vec<EnvVar> = Vec::new();
    r.push(pair("CC", &build.cc));
    r.push(pair("CXX", &build.cxx));
    assert(r.deep_view() =~= seq![("CC"@, build.cc@), ("CXX"@, build.cxx@)]);
    push_flag(&mut r, "CFLAGS", &build.cflags);
    push_flag(&mut r, "CXXFLAGS", &build.cxxflags);
    push_flag(&mut r, "LDFLAGS", &build.ldflags);
    r
}

} // verus!
