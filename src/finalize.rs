//! Turns a stored recipe into the one that runs: its template merged in and
//! every placeholder replaced.
use vstd::prelude::*;
use crate::recipe::{General, GeneralModel, Recipe, RecipeModel, Step, StepModel};
use crate::substitute::{
    matcher_builds, replaced_all, settled, upper_of, uppercase, Substitutor, MAX_EXTRA_PASSES,
};
use crate::template::{
    merge_template, merged, recipe_outcome, FinalizeError, FinalizeFault, Template, TemplateModel,
    Templates,
};
use crate::recipe::{copy_strings, distinct_keys, find_key, keys_of, lemma_key_index_bounds, lookup};
use crate::text::{decimal, decimal_of, join_of, join_path, replace_of, replace_text};

verus! {

/// Each token settled; the first token that does not settle is the error.
pub open spec fn settled_tokens(p: Seq<Seq<char>>, rp: Seq<Seq<char>>, vals: Seq<Seq<char>>) -> Result<
    Seq<Seq<char>>,
    Seq<char>,
>
    decreases vals.len(),
{
    if vals.len() == 0 {
        Ok(seq![])
    } else {
        match settled_tokens(p, rp, vals.drop_last()) {
            Err(v) => Err(v),
            Ok(prev) => match settled(p, rp, vals.last(), MAX_EXTRA_PASSES as nat) {
                None => Err(vals.last()),
                Some(x) => Ok(prev.push(x)),
            },
        }
    }
}

/// Every token of every command line settled, in order.
pub open spec fn settled_lines(
    p: Seq<Seq<char>>,
    rp: Seq<Seq<char>>,
    lines: Seq<Seq<Seq<char>>>,
) -> Result<Seq<Seq<Seq<char>>>, Seq<char>>
    decreases lines.len(),
{
    if lines.len() == 0 {
        Ok(seq![])
    } else {
        match settled_lines(p, rp, lines.drop_last()) {
            Err(v) => Err(v),
            Ok(prev) => match settled_tokens(p, rp, lines.last()) {
                Err(v) => Err(v),
                Ok(x) => Ok(prev.push(x)),
            },
        }
    }
}

/// Every environment value settled, in order; names stay as they are.
pub open spec fn settled_env(
    p: Seq<Seq<char>>,
    rp: Seq<Seq<char>>,
    env: Seq<(Seq<char>, Seq<char>)>,
) -> Result<Seq<(Seq<char>, Seq<char>)>, Seq<char>>
    decreases env.len(),
{
    if env.len() == 0 {
        Ok(seq![])
    } else {
        match settled_env(p, rp, env.drop_last()) {
            Err(v) => Err(v),
            Ok(prev) => match settled(p, rp, env.last().1, MAX_EXTRA_PASSES as nat) {
                None => Err(env.last().1),
                Some(x) => Ok(prev.push((env.last().0, x))),
            },
        }
    }
}

pub open spec fn settled_step(p: Seq<Seq<char>>, rp: Seq<Seq<char>>, s: StepModel) -> Result<
    StepModel,
    FinalizeFault,
> {
    match settled_lines(p, rp, s.args) {
        Err(v) => Err(FinalizeFault::Unsettled { value: v }),
        Ok(args) => match settled_env(p, rp, s.env) {
            Err(v) => Err(FinalizeFault::Unsettled { value: v }),
            Ok(env) => Ok(StepModel { args, env }),
        },
    }
}

pub open spec fn step_outcome(r: Result<Step, FinalizeError>) -> Result<StepModel, FinalizeFault> {
    match r {
        Ok(v) => Ok(v@),
        Err(e) => Err(e@),
    }
}

fn settle_tokens(sub: &Substitutor, vals: &Vec<String>) -> (r: Result<Vec<String>, String>)
    requires
        sub.wf(),
    ensures
        match r {
            Ok(v) => settled_tokens(sub.patterns(), sub.replacements(), vals.deep_view()) == Ok::<
                Seq<Seq<char>>,
                Seq<char>,
            >(v.deep_view()),
            Err(v) => settled_tokens(sub.patterns(), sub.replacements(), vals.deep_view()) == Err::<
                Seq<Seq<char>>,
                Seq<char>,
            >(v@),
        },
{
    let ghost p = sub.patterns();
    let ghost rp = sub.replacements();
    let mut out: Vec<String> = Vec::new();
    let mut i: usize = 0;
    assert(vals.deep_view().take(0) =~= Seq::<Seq<char>>::empty());
    assert(out.deep_view() =~= Seq::<Seq<char>>::empty());
    while i < vals.len()
        invariant
            sub.wf(),
            p == sub.patterns(),
            rp == sub.replacements(),
            i <= vals.len(),
            settled_tokens(p, rp, vals.deep_view().take(i as int)) == Ok::<
                Seq<Seq<char>>,
                Seq<char>,
            >(out.deep_view()),
        decreases vals.len() - i,
    {
        assert(vals.deep_view().take(i + 1).drop_last() =~= vals.deep_view().take(i as int));
        assert(vals.deep_view().take(i + 1).last() == vals[i as int]@);
        match sub.settle(&vals[i]) {
            None => {
                proof {
                    lemma_tokens_prefix_err(p, rp, vals.deep_view(), i as int + 1);
                }
                return Err(vals[i].clone());
            },
            Some(x) => {
                let ghost before = out;
                out.push(x);
                assert(out.deep_view() =~= before.deep_view().push(x@));
            },
        }
        i = i + 1;
    }
    assert(vals.deep_view().take(i as int) =~= vals.deep_view());
    Ok(out)
}

proof fn lemma_tokens_prefix_err(p: Seq<Seq<char>>, rp: Seq<Seq<char>>, vals: Seq<Seq<char>>, j: int)
    requires
        0 <= j <= vals.len(),
        settled_tokens(p, rp, vals.take(j)) is Err,
    ensures
        settled_tokens(p, rp, vals) == settled_tokens(p, rp, vals.take(j)),
    decreases vals.len(),
{
    if j == vals.len() {
        assert(vals.take(j) =~= vals);
    } else {
        assert(vals.drop_last().take(j) =~= vals.take(j));
        lemma_tokens_prefix_err(p, rp, vals.drop_last(), j);
    }
}

proof fn lemma_lines_prefix_err(
    p: Seq<Seq<char>>,
    rp: Seq<Seq<char>>,
    lines: Seq<Seq<Seq<char>>>,
    j: int,
)
    requires
        0 <= j <= lines.len(),
        settled_lines(p, rp, lines.take(j)) is Err,
    ensures
        settled_lines(p, rp, lines) == settled_lines(p, rp, lines.take(j)),
    decreases lines.len(),
{
    if j == lines.len() {
        assert(lines.take(j) =~= lines);
    } else {
        assert(lines.drop_last().take(j) =~= lines.take(j));
        lemma_lines_prefix_err(p, rp, lines.drop_last(), j);
    }
}

proof fn lemma_env_prefix_err(
    p: Seq<Seq<char>>,
    rp: Seq<Seq<char>>,
    env: Seq<(Seq<char>, Seq<char>)>,
    j: int,
)
    requires
        0 <= j <= env.len(),
        settled_env(p, rp, env.take(j)) is Err,
    ensures
        settled_env(p, rp, env) == settled_env(p, rp, env.take(j)),
    decreases env.len(),
{
    if j == env.len() {
        assert(env.take(j) =~= env);
    } else {
        assert(env.drop_last().take(j) =~= env.take(j));
        lemma_env_prefix_err(p, rp, env.drop_last(), j);
    }
}

fn settle_lines(sub: &Substitutor, lines: &Vec<Vec<String>>) -> (r: Result<Vec<Vec<String>>, String>)
    requires
        sub.wf(),
    ensures
        match r {
            Ok(v) => settled_lines(sub.patterns(), sub.replacements(), lines.deep_view()) == Ok::<
                Seq<Seq<Seq<char>>>,
                Seq<char>,
            >(v.deep_view()),
            Err(v) => settled_lines(sub.patterns(), sub.replacements(), lines.deep_view()) == Err::<
                Seq<Seq<Seq<char>>>,
                Seq<char>,
            >(v@),
        },
{
    let ghost p = sub.patterns();
    let ghost rp = sub.replacements();
    let mut out: Vec<Vec<String>> = Vec::new();
    let mut i: usize = 0;
    assert(lines.deep_view().take(0) =~= Seq::<Seq<Seq<char>>>::empty());
    assert(out.deep_view() =~= Seq::<Seq<Seq<char>>>::empty());
    while i < lines.len()
        invariant
            sub.wf(),
            p == sub.patterns(),
            rp == sub.replacements(),
            i <= lines.len(),
            settled_lines(p, rp, lines.deep_view().take(i as int)) == Ok::<
                Seq<Seq<Seq<char>>>,
                Seq<char>,
            >(out.deep_view()),
        decreases lines.len() - i,
    {
        assert(lines.deep_view().take(i + 1).drop_last() =~= lines.deep_view().take(i as int));
        assert(lines.deep_view().take(i + 1).last() == lines[i as int].deep_view());
        match settle_tokens(sub, &lines[i]) {
            Err(v) => {
                proof {
                    lemma_lines_prefix_err(p, rp, lines.deep_view(), i as int + 1);
                }
                return Err(v);
            },
            Ok(x) => {
                let ghost before = out;
                out.push(x);
                assert(out.deep_view() =~= before.deep_view().push(x.deep_view()));
            },
        }
        i = i + 1;
    }
    assert(lines.deep_view().take(i as int) =~= lines.deep_view());
    Ok(out)
}

fn settle_env(sub: &Substitutor, env: &Vec<(String, String)>) -> (r: Result<Vec<(String, String)>, String>)
    requires
        sub.wf(),
    ensures
        match r {
            Ok(v) => settled_env(sub.patterns(), sub.replacements(), env.deep_view()) == Ok::<
                Seq<(Seq<char>, Seq<char>)>,
                Seq<char>,
            >(v.deep_view()),
            Err(v) => settled_env(sub.patterns(), sub.replacements(), env.deep_view()) == Err::<
                Seq<(Seq<char>, Seq<char>)>,
                Seq<char>,
            >(v@),
        },
{
    let ghost p = sub.patterns();
    let ghost rp = sub.replacements();
    let mut out: Vec<(String, String)> = Vec::new();
    let mut i: usize = 0;
    assert(env.deep_view().take(0) =~= Seq::<(Seq<char>, Seq<char>)>::empty());
    assert(out.deep_view() =~= Seq::<(Seq<char>, Seq<char>)>::empty());
    while i < env.len()
        invariant
            sub.wf(),
            p == sub.patterns(),
            rp == sub.replacements(),
            i <= env.len(),
            settled_env(p, rp, env.deep_view().take(i as int)) == Ok::<
                Seq<(Seq<char>, Seq<char>)>,
                Seq<char>,
            >(out.deep_view()),
        decreases env.len() - i,
    {
        assert(env.deep_view().take(i + 1).drop_last() =~= env.deep_view().take(i as int));
        assert(env.deep_view().take(i + 1).last() == (env[i as int].0@, env[i as int].1@));
        match sub.settle(&env[i].1) {
            None => {
                proof {
                    lemma_env_prefix_err(p, rp, env.deep_view(), i as int + 1);
                }
                return Err(env[i].1.clone());
            },
            Some(x) => {
                let ghost before = out;
                let name = env[i].0.clone();
                out.push((name, x));
                assert(out.deep_view() =~= before.deep_view().push((env[i as int].0@, x@)));
            },
        }
        i = i + 1;
    }
    assert(env.deep_view().take(i as int) =~= env.deep_view());
    Ok(out)
}

/// Settles every token and environment value of a stage.
fn settle_step(sub: &Substitutor, step: &Step) -> (r: Result<Step, FinalizeError>)
    requires
        sub.wf(),
    ensures
        step_outcome(r) == settled_step(sub.patterns(), sub.replacements(), step@),
{
    let args = match settle_lines(sub, &step.args) {
        Err(value) => {
            return Err(FinalizeError::Unsettled { value });
        },
        Ok(a) => a,
    };
    let env = match settle_env(sub, &step.env) {
        Err(value) => {
            return Err(FinalizeError::Unsettled { value });
        },
        Ok(e) => e,
    };
    Ok(Step { args, env })
}

/// What finalization takes from the build configuration.
pub struct FinalizeSettings {
    /// The absolute build root.
    pub build_root: String,
    /// The absolute sysroot.
    pub sysroot: String,
    pub target: String,
    pub threads: usize,
    /// Extra placeholder values of the configuration, by lower-case name.
    pub extra: Vec<(String, String)>,
}

pub struct SettingsModel {
    pub build_root: Seq<char>,
    pub sysroot: Seq<char>,
    pub target: Seq<char>,
    pub threads: nat,
    pub extra: Seq<(Seq<char>, Seq<char>)>,
}

impl FinalizeSettings {
    /// Its extra placeholder values are keyed uniquely.
    pub open spec fn wf(&self) -> bool {
        distinct_keys(keys_of(self.extra@))
    }
}

impl View for FinalizeSettings {
    type V = SettingsModel;

    open spec fn view(&self) -> SettingsModel {
        SettingsModel {
            build_root: self.build_root@,
            sysroot: self.sysroot@,
            target: self.target@,
            threads: self.threads as nat,
            extra: self.extra.deep_view(),
        }
    }
}

pub open spec fn builtin_patterns() -> Seq<Seq<char>> {
    seq![
        "@VERSION@"@,
        "@BUILDROOT@"@,
        "@SRCDIR@"@,
        "@DESTDIR@"@,
        "@SYSROOT@"@,
        "@TARGET@"@,
        "@THREADS@"@,
        "\n"@,
    ]
}

/// The placeholder for an extra value: its name upper-cased between `@`s.
pub open spec fn placeholder_of(name: Seq<char>) -> Seq<char> {
    "@"@ + upper_of(name) + "@"@
}

pub open spec fn named_patterns(entries: Seq<(Seq<char>, Seq<char>)>) -> Seq<Seq<char>> {
    entries.map_values(|e: (Seq<char>, Seq<char>)| placeholder_of(e.0))
}

pub open spec fn named_values(entries: Seq<(Seq<char>, Seq<char>)>) -> Seq<Seq<char>> {
    entries.map_values(|e: (Seq<char>, Seq<char>)| e.1)
}

/// `names` followed by each declared name not already among them.
pub open spec fn with_declared(names: Seq<Seq<char>>, declared: Seq<Seq<char>>) -> Seq<Seq<char>>
    decreases declared.len(),
{
    if declared.len() == 0 {
        names
    } else {
        let prev = with_declared(names, declared.drop_last());
        if prev.contains(declared.last()) {
            prev
        } else {
            prev.push(declared.last())
        }
    }
}

pub open spec fn empties(n: nat) -> Seq<Seq<char>> {
    Seq::new(n, |i: int| Seq::<char>::empty())
}

/// The placeholder names that the recipe's template declares.
pub open spec fn declared_of(r: RecipeModel, ts: Seq<(Seq<char>, TemplateModel)>) -> Seq<Seq<char>> {
    match r.general.template {
        Some(name) => match lookup(ts, name) {
            Some(t) => t.opt_args,
            None => seq![],
        },
        None => seq![],
    }
}

pub open spec fn table_patterns(
    g: GeneralModel,
    s: SettingsModel,
    declared: Seq<Seq<char>>,
) -> Seq<Seq<char>> {
    builtin_patterns() + with_declared(
        named_patterns(s.extra) + named_patterns(g.others),
        declared,
    )
}

pub open spec fn table_values(
    g: GeneralModel,
    s: SettingsModel,
    src_dir: Seq<char>,
    dest_dir: Seq<char>,
    declared: Seq<Seq<char>>,
) -> Seq<Seq<char>> {
    let named = named_patterns(s.extra) + named_patterns(g.others);
    seq![
        g.version,
        s.build_root,
        src_dir,
        dest_dir,
        s.sysroot,
        s.target,
        decimal_of(s.threads),
        " "@,
    ] + named_values(s.extra) + named_values(g.others) + empties(
        (with_declared(named, declared).len() - named.len()) as nat,
    )
}

/// The recipe with the table applied: once to sources and work directory,
/// to a fixpoint on stage tokens and environment values.
pub open spec fn substituted(m: RecipeModel, p: Seq<Seq<char>>, rp: Seq<Seq<char>>) -> Result<
    RecipeModel,
    FinalizeFault,
> {
    match settled_step(p, rp, m.prepare) {
        Err(e) => Err(e),
        Ok(prepare) => match settled_step(p, rp, m.configure) {
            Err(e) => Err(e),
            Ok(configure) => match settled_step(p, rp, m.build) {
                Err(e) => Err(e),
                Ok(build) => match settled_step(p, rp, m.install) {
                    Err(e) => Err(e),
                    Ok(install) => Ok(
                        RecipeModel {
                            general: GeneralModel {
                                src: m.general.src.map_values(|x: Seq<char>| replaced_all(p, rp, x)),
                                workdir: replaced_all(p, rp, m.general.workdir),
                                ..m.general
                            },
                            prepare,
                            configure,
                            build,
                            install,
                        },
                    ),
                },
            },
        },
    }
}

/// The absolute source directory: the work directory, with its version
/// placeholder replaced, under the unpack directory or the package's source root.
pub open spec fn source_dir_of(g: GeneralModel, root_src_dir: Seq<char>) -> Seq<char> {
    let workdir = replace_of(g.workdir, "@VERSION@"@, g.version);
    let base = if g.src_unpack_dir.len() > 0 {
        g.src_unpack_dir
    } else {
        root_src_dir
    };
    join_of(base, workdir)
}

/// The recipe that runs: template merged, placeholders replaced.
pub open spec fn finalized(
    r: RecipeModel,
    ts: Seq<(Seq<char>, TemplateModel)>,
    s: SettingsModel,
    root_src_dir: Seq<char>,
    dest_dir: Seq<char>,
) -> Result<RecipeModel, FinalizeFault> {
    match merged(r, ts) {
        Err(e) => Err(e),
        Ok(m) => {
            let workdir = replace_of(m.general.workdir, "@VERSION@"@, m.general.version);
            let src_dir = source_dir_of(m.general, root_src_dir);
            let declared = declared_of(r, ts);
            let p = table_patterns(m.general, s, declared);
            let rp = table_values(m.general, s, src_dir, dest_dir, declared);
            if !matcher_builds(p) {
                Err(FinalizeFault::Matcher)
            } else {
                substituted(RecipeModel { general: GeneralModel { workdir, ..m.general }, ..m }, p, rp)
            }
        },
    }
}

fn contains_text(v: &Vec<String>, s: &String) -> (r: bool)
    ensures
        r == v.deep_view().contains(s@),
{
    let mut i: usize = 0;
    while i < v.len()
        invariant
            i <= v.len(),
            forall|k: int| 0 <= k < i ==> v.deep_view()[k] != s@,
        decreases v.len() - i,
    {
        if v[i] == *s {
            assert(v.deep_view()[i as int] == s@);
            return true;
        }
        i = i + 1;
    }
    false
}

/// Adds each declared placeholder that the table lacks, with an empty value.
fn add_declared(patterns: &mut Vec<String>, values: &mut Vec<String>, declared: &Vec<String>)
    ensures
        final(patterns).deep_view() == with_declared(old(patterns).deep_view(), declared.deep_view()),
        final(values).deep_view() == old(values).deep_view() + empties(
            (final(patterns).len() - old(patterns).len()) as nat,
        ),
        final(patterns).len() >= old(patterns).len(),
{
    let ghost pats_before = patterns.deep_view();
    let ghost vals_before = values.deep_view();
    let ghost n0 = patterns.len();
    let mut i: usize = 0;
    assert(declared.deep_view().take(0) =~= Seq::<Seq<char>>::empty());
    assert(values.deep_view() =~= vals_before + empties(0));
    while i < declared.len()
        invariant
            i <= declared.len(),
            patterns.len() >= n0,
            patterns.deep_view() == with_declared(pats_before, declared.deep_view().take(i as int)),
            values.deep_view() == vals_before + empties((patterns.len() - n0) as nat),
        decreases declared.len() - i,
    {
        assert(declared.deep_view().take(i + 1).drop_last() =~= declared.deep_view().take(i as int));
        assert(declared.deep_view().take(i + 1).last() == declared[i as int]@);
        if !contains_text(patterns, &declared[i]) {
            let ghost pb = patterns.deep_view();
            let ghost vb = values.deep_view();
            patterns.push(declared[i].clone());
            values.push(String::new());
            assert(patterns.deep_view() =~= pb.push(declared[i as int]@));
            assert(values.deep_view() =~= vb.push(Seq::<char>::empty()));
            assert(empties((patterns.len() - n0) as nat) =~= empties(
                (patterns.len() - 1 - n0) as nat,
            ).push(Seq::<char>::empty()));
            assert(values.deep_view() =~= vals_before + empties((patterns.len() - n0) as nat));
        }
        i = i + 1;
    }
    assert(declared.deep_view().take(i as int) =~= declared.deep_view());
}

/// Adds `@NAME@` and its value for each extra entry.
fn add_named(patterns: &mut Vec<String>, values: &mut Vec<String>, entries: &Vec<(String, String)>)
    ensures
        final(patterns).deep_view() == old(patterns).deep_view() + named_patterns(entries.deep_view()),
        final(values).deep_view() == old(values).deep_view() + named_values(entries.deep_view()),
{
    let ghost pats_before = patterns.deep_view();
    let ghost vals_before = values.deep_view();
    let mut i: usize = 0;
    assert(patterns.deep_view() =~= pats_before + named_patterns(entries.deep_view().take(0)));
    assert(values.deep_view() =~= vals_before + named_values(entries.deep_view().take(0)));
    while i < entries.len()
        invariant
            i <= entries.len(),
            patterns.deep_view() == pats_before + named_patterns(entries.deep_view().take(i as int)),
            values.deep_view() == vals_before + named_values(entries.deep_view().take(i as int)),
        decreases entries.len() - i,
    {
        let ghost pb = patterns.deep_view();
        let ghost vb = values.deep_view();
        let upper = uppercase(entries[i].0.as_str());
        let at = "@";
        proof {
            reveal_strlit("@");
        }
        let mut name = String::from_str(at);
        name.append(upper.as_str());
        name.append(at);
        assert(entries.deep_view()[i as int].0 == entries[i as int].0@);
        assert(name@ =~= "@"@ + upper@ + "@"@);
        assert(name@ == placeholder_of(entries.deep_view()[i as int].0));
        patterns.push(name);
        values.push(entries[i].1.clone());
        assert(patterns.deep_view() =~= pb.push(placeholder_of(entries.deep_view()[i as int].0)));
        assert(values.deep_view() =~= vb.push(entries.deep_view()[i as int].1));
        assert(entries.deep_view().take(i + 1) =~= entries.deep_view().take(i as int).push(
            entries.deep_view()[i as int],
        ));
        assert(named_patterns(entries.deep_view().take(i + 1)) =~= named_patterns(
            entries.deep_view().take(i as int),
        ).push(placeholder_of(entries.deep_view()[i as int].0)));
        assert(named_values(entries.deep_view().take(i + 1)) =~= named_values(
            entries.deep_view().take(i as int),
        ).push(entries.deep_view()[i as int].1));
        assert(patterns.deep_view() =~= pats_before + named_patterns(entries.deep_view().take(i + 1)));
        assert(values.deep_view() =~= vals_before + named_values(entries.deep_view().take(i + 1)));
        i = i + 1;
    }
    assert(entries.deep_view().take(i as int) =~= entries.deep_view());
}

/// The placeholder table of one finalization: patterns and their values.
pub fn placeholder_table(
    g: &General,
    settings: &FinalizeSettings,
    src_dir: &String,
    dest_dir: &str,
    declared: &Vec<String>,
) -> (r: (Vec<String>, Vec<String>))
    requires
        g.wf(),
        settings.wf(),
    ensures
        r.0.deep_view() == table_patterns(g@, settings@, declared.deep_view()),
        r.1.deep_view() == table_values(g@, settings@, src_dir@, dest_dir@, declared.deep_view()),
        r.0.len() == r.1.len(),
{
    let mut p: Vec<String> = Vec::new();
    p.push(String::from_str("@VERSION@"));
    p.push(String::from_str("@BUILDROOT@"));
    p.push(String::from_str("@SRCDIR@"));
    p.push(String::from_str("@DESTDIR@"));
    p.push(String::from_str("@SYSROOT@"));
    p.push(String::from_str("@TARGET@"));
    p.push(String::from_str("@THREADS@"));
    p.push(String::from_str("\n"));
    let mut v: Vec<String> = Vec::new();
    v.push(g.version.clone());
    v.push(settings.build_root.clone());
    v.push(src_dir.clone());
    v.push(String::from_str(dest_dir));
    v.push(settings.sysroot.clone());
    v.push(settings.target.clone());
    v.push(decimal(settings.threads));
    v.push(String::from_str(" "));
    assert(p.deep_view() =~= builtin_patterns());
    let ghost vb = v.deep_view();
    let ghost named = named_patterns(settings@.extra) + named_patterns(g@.others);
    let mut names: Vec<String> = Vec::new();
    add_named(&mut names, &mut v, &settings.extra);
    add_named(&mut names, &mut v, &g.others);
    assert(names.deep_view() =~= named);
    let ghost n_named = names.len();
    let ghost vn = v.deep_view();
    add_declared(&mut names, &mut v, declared);
    assert(names.len() == with_declared(named, declared.deep_view()).len());
    let ghost pv = p.deep_view();
    p.append(&mut names);
    assert(p.deep_view() =~= pv + with_declared(named, declared.deep_view()));
    assert(v.deep_view() =~= table_values(g@, settings@, src_dir@, dest_dir@, declared.deep_view()));
    assert(p.len() == 8 + with_declared(named, declared.deep_view()).len());
    (p, v)
}

/// The placeholder names that the recipe's template declares.
fn declared_names(recipe: &Recipe, templates: &Templates) -> (r: Vec<String>)
    ensures
        r.deep_view() == declared_of(recipe@, templates@),
{
    match &recipe.general.template {
        None => Vec::new(),
        Some(name) => {
            let ghost keys = templates@.map_values(|e: (Seq<char>, TemplateModel)| e.0);
            assert(templates.templates@.map_values(|e: (String, Template)| e.0@)
                =~= keys);
            match find_key(&templates.templates, name) {
                None => Vec::new(),
                Some(i) => {
                    proof {
                        lemma_key_index_bounds(keys, name@);
                    }
                    copy_strings(&templates.templates[i].1.opt_args)
                },
            }
        },
    }
}

fn replace_each(sub: &Substitutor, vals: &Vec<String>) -> (r: Vec<String>)
    requires
        sub.wf(),
    ensures
        r.deep_view() == vals.deep_view().map_values(
            |x: Seq<char>| replaced_all(sub.patterns(), sub.replacements(), x),
        ),
{
    let mut out: Vec<String> = Vec::new();
    let mut i: usize = 0;
    while i < vals.len()
        invariant
            sub.wf(),
            i <= vals.len(),
            out.deep_view() =~= vals.deep_view().take(i as int).map_values(
                |x: Seq<char>| replaced_all(sub.patterns(), sub.replacements(), x),
            ),
        decreases vals.len() - i,
    {
        let ghost before = out.deep_view();
        out.push(sub.replace(vals[i].as_str()));
        assert(out.deep_view() =~= before.push(
            replaced_all(sub.patterns(), sub.replacements(), vals.deep_view()[i as int]),
        ));
        assert(vals.deep_view().take(i + 1) =~= vals.deep_view().take(i as int).push(
            vals.deep_view()[i as int],
        ));
        i = i + 1;
    }
    assert(vals.deep_view().take(i as int) =~= vals.deep_view());
    out
}

/// Produces the recipe that runs from a stored one: merges its template,
/// replaces `@VERSION@` in its work directory, and applies the placeholder
/// table. `root_src_dir` and `dest_dir` are absolute.
pub fn finalize_recipe(
    recipe: Recipe,
    templates: &Templates,
    settings: &FinalizeSettings,
    root_src_dir: &str,
    dest_dir: &str,
) -> (r: Result<Recipe, FinalizeError>)
    requires
        recipe.general.wf(),
        templates.wf(),
        settings.wf(),
    ensures
        recipe_outcome(r) == finalized(recipe@, templates@, settings@, root_src_dir@, dest_dir@),
{
    let ghost r0 = recipe@;
    let ghost recipe_others = recipe.general.others;
    let declared = declared_names(&recipe, templates);
    let m = match merge_template(recipe, templates) {
        Err(e) => {
            return Err(e);
        },
        Ok(m) => m,
    };
    let Recipe { general, prepare, configure, build, install } = m;
    let mut general = general;
    assert(general.others.deep_view() == r0.general.others);
    assert(keys_of(general.others@) =~= keys_of(recipe_others@)) by {
        assert forall|i: int| 0 <= i < general.others@.len() implies general.others@[i].0@
            == recipe_others@[i].0@ by {
            assert(general.others.deep_view()[i] == recipe_others.deep_view()[i]);
        }
    }
    let version_placeholder = "@VERSION@";
    proof {
        reveal_strlit("@VERSION@");
    }
    general.workdir = replace_text(
        general.workdir.as_str(),
        version_placeholder,
        general.version.as_str(),
    );
    let src_dir = if general.src_unpack_dir.as_str().is_empty() {
        join_path(root_src_dir, general.workdir.as_str())
    } else {
        join_path(general.src_unpack_dir.as_str(), general.workdir.as_str())
    };
    let (patterns, values) = placeholder_table(&general, settings, &src_dir, dest_dir, &declared);
    let sub = match Substitutor::new(patterns, values) {
        None => {
            return Err(FinalizeError::Matcher);
        },
        Some(sub) => sub,
    };
    let prepare = settle_step(&sub, &prepare)?;
    let configure = settle_step(&sub, &configure)?;
    let build = settle_step(&sub, &build)?;
    let install = settle_step(&sub, &install)?;
    general.src = replace_each(&sub, &general.src);
    general.workdir = sub.replace(general.workdir.as_str());
    Ok(Recipe { general, prepare, configure, build, install })
}

} // verus!
