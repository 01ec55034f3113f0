//! Reusable recipe fragments and how a recipe that names one absorbs it.
use vstd::prelude::*;
use crate::recipe::{
    copy_pairs, copy_strings, distinct_keys, find_key, keys_of, lemma_key_index_bounds, lookup, EnvVar, GeneralModel,
    Recipe, RecipeModel, Stage, Step, StepModel,
};

verus! {

/// A value of a template's free-form table, as the default-step lookup sees it.
pub enum ExtensionValue {
    /// An array whose items are all strings.
    Commands(Vec<String>),
    /// Anything else.
    Other,
}

impl DeepView for ExtensionValue {
    type V = Option<Seq<Seq<char>>>;

    open spec fn deep_view(&self) -> Option<Seq<Seq<char>>> {
        match self {
            ExtensionValue::Commands(v) => Some(v.deep_view()),
            ExtensionValue::Other => None,
        }
    }
}

/// A named, reusable recipe fragment.
pub struct Template {
    /// Placeholders that default to the empty string.
    pub opt_args: Vec<String>,
    pub depends: Vec<String>,
    pub host_depends: Vec<String>,
    pub add_prepare: Vec<String>,
    pub add_configure: Vec<String>,
    pub add_build: Vec<String>,
    pub add_install: Vec<String>,
    pub prepare_env: Vec<EnvVar>,
    pub configure_env: Vec<EnvVar>,
    pub build_env: Vec<EnvVar>,
    pub install_env: Vec<EnvVar>,
    pub default_prepare: String,
    pub default_configure: String,
    pub default_build: String,
    pub default_install: String,
    /// The free-form table that default steps refer into.
    pub others: Vec<(String, ExtensionValue)>,
}

pub struct TemplateModel {
    pub opt_args: Seq<Seq<char>>,
    pub depends: Seq<Seq<char>>,
    pub host_depends: Seq<Seq<char>>,
    pub add_prepare: Seq<Seq<char>>,
    pub add_configure: Seq<Seq<char>>,
    pub add_build: Seq<Seq<char>>,
    pub add_install: Seq<Seq<char>>,
    pub prepare_env: Seq<(Seq<char>, Seq<char>)>,
    pub configure_env: Seq<(Seq<char>, Seq<char>)>,
    pub build_env: Seq<(Seq<char>, Seq<char>)>,
    pub install_env: Seq<(Seq<char>, Seq<char>)>,
    pub default_prepare: Seq<char>,
    pub default_configure: Seq<char>,
    pub default_build: Seq<char>,
    pub default_install: Seq<char>,
    pub others: Seq<(Seq<char>, Option<Seq<Seq<char>>>)>,
}

impl View for Template {
    type V = TemplateModel;

    open spec fn view(&self) -> TemplateModel {
        TemplateModel {
            opt_args: self.opt_args.deep_view(),
            depends: self.depends.deep_view(),
            host_depends: self.host_depends.deep_view(),
            add_prepare: self.add_prepare.deep_view(),
            add_configure: self.add_configure.deep_view(),
            add_build: self.add_build.deep_view(),
            add_install: self.add_install.deep_view(),
            prepare_env: self.prepare_env.deep_view(),
            configure_env: self.configure_env.deep_view(),
            build_env: self.build_env.deep_view(),
            install_env: self.install_env.deep_view(),
            default_prepare: self.default_prepare@,
            default_configure: self.default_configure@,
            default_build: self.default_build@,
            default_install: self.default_install@,
            others: self.others.deep_view(),
        }
    }
}

impl TemplateModel {
    pub open spec fn added(self, stage: Stage) -> Seq<Seq<char>> {
        match stage {
            Stage::Prepare => self.add_prepare,
            Stage::Configure => self.add_configure,
            Stage::Build => self.add_build,
            Stage::Install => self.add_install,
        }
    }

    pub open spec fn env(self, stage: Stage) -> Seq<(Seq<char>, Seq<char>)> {
        match stage {
            Stage::Prepare => self.prepare_env,
            Stage::Configure => self.configure_env,
            Stage::Build => self.build_env,
            Stage::Install => self.install_env,
        }
    }

    pub open spec fn default_key(self, stage: Stage) -> Seq<char> {
        match stage {
            Stage::Prepare => self.default_prepare,
            Stage::Configure => self.default_configure,
            Stage::Build => self.default_build,
            Stage::Install => self.default_install,
        }
    }
}

/// All templates, by name.
pub struct Templates {
    pub templates: Vec<(String, Template)>,
}

impl Templates {
    /// No two templates share a name.
    pub open spec fn wf(&self) -> bool {
        distinct_keys(keys_of(self.templates@))
    }
}

impl View for Templates {
    type V = Seq<(Seq<char>, TemplateModel)>;

    open spec fn view(&self) -> Seq<(Seq<char>, TemplateModel)> {
        self.templates@.map_values(|e: (String, Template)| (e.0@, e.1@))
    }
}

/// Why a recipe could not be finalized.
pub enum FinalizeError {
    /// The recipe names a template that is not defined.
    UndefinedTemplate { template: String, recipe: String },
    /// A template's default step names a key missing from its table.
    UndefinedDefaultStep { stage: Stage, key: String },
    /// A template's default step names an entry that is not an array of strings.
    MalformedDefaultStep { stage: Stage },
    /// The placeholder table could not be compiled into a matcher.
    Matcher,
    /// Repeated substitution of a value did not settle within the pass limit.
    Unsettled { value: String },
}

pub enum FinalizeFault {
    UndefinedTemplate { template: Seq<char>, recipe: Seq<char> },
    UndefinedDefaultStep { stage: Stage, key: Seq<char> },
    MalformedDefaultStep { stage: Stage },
    Matcher,
    Unsettled { value: Seq<char> },
}

impl View for FinalizeError {
    type V = FinalizeFault;

    open spec fn view(&self) -> FinalizeFault {
        match self {
            FinalizeError::UndefinedTemplate { template, recipe } => FinalizeFault::UndefinedTemplate {
                template: template@,
                recipe: recipe@,
            },
            FinalizeError::UndefinedDefaultStep { stage, key } => FinalizeFault::UndefinedDefaultStep {
                stage: *stage,
                key: key@,
            },
            FinalizeError::MalformedDefaultStep { stage } => FinalizeFault::MalformedDefaultStep {
                stage: *stage,
            },
            FinalizeError::Matcher => FinalizeFault::Matcher,
            FinalizeError::Unsettled { value } => FinalizeFault::Unsettled { value: value@ },
        }
    }
}

/// Each command as a command line of one token.
pub open spec fn one_token_lines(cmds: Seq<Seq<char>>) -> Seq<Seq<Seq<char>>> {
    cmds.map_values(|c: Seq<char>| seq![c])
}

/// A stage after the template's additions, and its default step where the
/// stage has no command of its own.
pub open spec fn templated_step(s: StepModel, t: TemplateModel, stage: Stage) -> Result<
    StepModel,
    FinalizeFault,
> {
    let args = s.args + one_token_lines(t.added(stage));
    let env = s.env + t.env(stage);
    let key = t.default_key(stage);
    if args.len() > 0 || key.len() == 0 {
        Ok(StepModel { args, env })
    } else {
        match lookup(t.others, key) {
            None => Err(FinalizeFault::UndefinedDefaultStep { stage, key }),
            Some(None) => Err(FinalizeFault::MalformedDefaultStep { stage }),
            Some(Some(cmds)) => Ok(StepModel { args: one_token_lines(cmds), env }),
        }
    }
}

/// A recipe with a template merged in; the first failing stage, in stage
/// order, decides the error.
pub open spec fn with_template(r: RecipeModel, t: TemplateModel) -> Result<RecipeModel, FinalizeFault> {
    match templated_step(r.prepare, t, Stage::Prepare) {
        Err(e) => Err(e),
        Ok(prepare) => match templated_step(r.configure, t, Stage::Configure) {
            Err(e) => Err(e),
            Ok(configure) => match templated_step(r.build, t, Stage::Build) {
                Err(e) => Err(e),
                Ok(build) => match templated_step(r.install, t, Stage::Install) {
                    Err(e) => Err(e),
                    Ok(install) => Ok(
                        RecipeModel {
                            general: GeneralModel {
                                depends: r.general.depends + t.depends,
                                host_depends: r.general.host_depends + t.host_depends,
                                ..r.general
                            },
                            prepare,
                            configure,
                            build,
                            install,
                        },
                    ),
                },
            },
        },
    }
}

/// The recipe after template merging: unchanged without a template name,
/// an error for an undefined one.
pub open spec fn merged(r: RecipeModel, ts: Seq<(Seq<char>, TemplateModel)>) -> Result<
    RecipeModel,
    FinalizeFault,
> {
    match r.general.template {
        None => Ok(r),
        Some(name) => match lookup(ts, name) {
            None => Err(FinalizeFault::UndefinedTemplate { template: name, recipe: r.general.name }),
            Some(t) => with_template(r, t),
        },
    }
}

pub open spec fn recipe_outcome(r: Result<Recipe, FinalizeError>) -> Result<RecipeModel, FinalizeFault> {
    match r {
        Ok(v) => Ok(v@),
        Err(e) => Err(e@),
    }
}

fn one_token_commands(cmds: &Vec<String>) -> (r: Vec<Vec<String>>)
    ensures
        r.deep_view() == one_token_lines(cmds.deep_view()),
{
    let mut r: Vec<Vec<String>> = Vec::new();
    let mut i: usize = 0;
    while i < cmds.len()
        invariant
            i <= cmds.len(),
            r.deep_view() =~= one_token_lines(cmds.deep_view().take(i as int)),
        decreases cmds.len() - i,
    {
        let ghost before = r;
        let line = vec![cmds[i].clone()];
        assert(line.deep_view() =~= seq![cmds.deep_view()[i as int]]);
        r.push(line);
        assert(r.deep_view() =~= before.deep_view().push(line.deep_view()));
        assert(cmds.deep_view().take(i + 1) =~= cmds.deep_view().take(i as int).push(
            cmds.deep_view()[i as int],
        ));
        i = i + 1;
    }
    assert(cmds.deep_view().take(i as int) =~= cmds.deep_view());
    r
}

fn append_lines(a: &mut Vec<Vec<String>>, b: Vec<Vec<String>>)
    ensures
        final(a).deep_view() == old(a).deep_view() + b.deep_view(),
{
    let ghost a0 = a.deep_view();
    let mut b = b;
    let ghost bv = b.deep_view();
    a.append(&mut b);
    assert(a.deep_view() =~= a0 + bv);
}

fn append_pairs(a: &mut Vec<EnvVar>, b: &Vec<EnvVar>)
    ensures
        final(a).deep_view() == old(a).deep_view() + b.deep_view(),
{
    let ghost a0 = a.deep_view();
    let mut c = copy_pairs(b);
    a.append(&mut c);
    assert(a.deep_view() =~= a0 + b.deep_view());
}

fn append_strings(a: &mut Vec<String>, b: &Vec<String>)
    ensures
        final(a).deep_view() == old(a).deep_view() + b.deep_view(),
{
    let ghost a0 = a.deep_view();
    let mut c = copy_strings(b);
    a.append(&mut c);
    assert(a.deep_view() =~= a0 + b.deep_view());
}

fn extension_commands(others: &Vec<(String, ExtensionValue)>, i: usize) -> (r: Option<Vec<String>>)
    requires
        i < others.len(),
    ensures
        r.deep_view() == others.deep_view()[i as int].1,
{
    match &others[i].1 {
        ExtensionValue::Commands(v) => Some(copy_strings(v)),
        ExtensionValue::Other => None,
    }
}

/// Applies one stage's share of a template.
fn apply_template_step(
    step: Step,
    add: &Vec<String>,
    env: &Vec<EnvVar>,
    default_key: &String,
    template: &Template,
    stage: Stage,
) -> (r: Result<Step, FinalizeError>)
    requires
        add.deep_view() == template@.added(stage),
        env.deep_view() == template@.env(stage),
        default_key@ == template@.default_key(stage),
    ensures
        match r {
            Ok(s) => templated_step(step@, template@, stage) == Ok::<StepModel, FinalizeFault>(s@),
            Err(e) => templated_step(step@, template@, stage) == Err::<StepModel, FinalizeFault>(e@),
        },
{
    let mut step = step;
    append_lines(&mut step.args, one_token_commands(add));
    append_pairs(&mut step.env, env);
    if step.args.len() > 0 || default_key.as_str().is_empty() {
        return Ok(step);
    }
    let ghost keys = template.others.deep_view().map_values(
        |e: (Seq<char>, Option<Seq<Seq<char>>>)| e.0,
    );
    assert(template.others@.map_values(|e: (String, ExtensionValue)| e.0@) =~= keys);
    match find_key(&template.others, default_key) {
        None => Err(FinalizeError::UndefinedDefaultStep { stage, key: default_key.clone() }),
        Some(i) => {
            proof {
                lemma_key_index_bounds(keys, default_key@);
            }
            match extension_commands(&template.others, i) {
                None => Err(FinalizeError::MalformedDefaultStep { stage }),
                Some(cmds) => {
                    step.args = one_token_commands(&cmds);
                    Ok(step)
                },
            }
        },
    }
}

/// Merges the recipe's template, if it names one, into the recipe.
pub fn merge_template(recipe: Recipe, templates: &Templates) -> (r: Result<Recipe, FinalizeError>)
    requires
        templates.wf(),
    ensures
        recipe_outcome(r) == merged(recipe@, templates@),
{
    let name = match &recipe.general.template {
        None => {
            return Ok(recipe);
        },
        Some(name) => name.clone(),
    };
    let ghost keys = templates@.map_values(|e: (Seq<char>, TemplateModel)| e.0);
    assert(templates.templates@.map_values(|e: (String, Template)| e.0@) =~= keys);
    let idx = match find_key(&templates.templates, &name) {
        None => {
            return Err(
                FinalizeError::UndefinedTemplate { template: name, recipe: recipe.general.name },
            );
        },
        Some(idx) => idx,
    };
    proof {
        lemma_key_index_bounds(keys, name@);
    }
    let t = &templates.templates[idx].1;
    let Recipe { general, prepare, configure, build, install } = recipe;
    let prepare = apply_template_step(
        prepare,
        &t.add_prepare,
        &t.prepare_env,
        &t.default_prepare,
        t,
        Stage::Prepare,
    )?;
    let configure = apply_template_step(
        configure,
        &t.add_configure,
        &t.configure_env,
        &t.default_configure,
        t,
        Stage::Configure,
    )?;
    let build = apply_template_step(
        build,
        &t.add_build,
        &t.build_env,
        &t.default_build,
        t,
        Stage::Build,
    )?;
    let install = apply_template_step(
        install,
        &t.add_install,
        &t.install_env,
        &t.default_install,
        t,
        Stage::Install,
    )?;
    let mut general = general;
    append_strings(&mut general.depends, &t.depends);
    append_strings(&mut general.host_depends, &t.host_depends);
    let r = Recipe { general, prepare, configure, build, install };
    assert(r@.general =~= (GeneralModel {
        depends: recipe@.general.depends + t@.depends,
        host_depends: recipe@.general.host_depends + t@.host_depends,
        ..recipe@.general
    }));
    Ok(r)
}

} // verus!
