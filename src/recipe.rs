//! The description of one package: where its source comes from and how each
//! of its four build stages runs.
use vstd::prelude::*;

verus! {

/// The four build stages, in the order they run.
#[derive(Clone, Copy, Debug, PartialEq, Eq, Structural)]
pub enum Stage {
    Prepare,
    Configure,
    Build,
    Install,
}

/// One environment override of a stage: `name=value`.
pub type EnvVar = (String, String);

/// One build stage of a recipe: command lines, each a list of tokens joined
/// by single spaces, and environment overrides in the order they apply.
pub struct Step {
    pub args: Vec<Vec<String>>,
    pub env: Vec<EnvVar>,
}

pub struct StepModel {
    pub args: Seq<Seq<Seq<char>>>,
    pub env: Seq<(Seq<char>, Seq<char>)>,
}

impl View for Step {
    type V = StepModel;

    open spec fn view(&self) -> StepModel {
        StepModel { args: self.args.deep_view(), env: self.env.deep_view() }
    }
}

/// The metadata section of a recipe.
pub struct General {
    pub name: String,
    pub version: String,
    pub src: Vec<String>,
    pub src_unpack_dir: String,
    pub workdir: String,
    pub template: Option<String>,
    pub binary_alternative: String,
    pub no_auto_patch: bool,
    pub no_auto_unpack: bool,
    pub recurse_submodules: bool,
    pub exports_aclocal: bool,
    pub reexports_path: bool,
    pub depends: Vec<String>,
    pub host_depends: Vec<String>,
    /// Extra placeholder values scoped to this recipe, by lower-case name.
    pub others: Vec<(String, String)>,
}

pub struct GeneralModel {
    pub name: Seq<char>,
    pub version: Seq<char>,
    pub src: Seq<Seq<char>>,
    pub src_unpack_dir: Seq<char>,
    pub workdir: Seq<char>,
    pub template: Option<Seq<char>>,
    pub binary_alternative: Seq<char>,
    pub no_auto_patch: bool,
    pub no_auto_unpack: bool,
    pub recurse_submodules: bool,
    pub exports_aclocal: bool,
    pub reexports_path: bool,
    pub depends: Seq<Seq<char>>,
    pub host_depends: Seq<Seq<char>>,
    pub others: Seq<(Seq<char>, Seq<char>)>,
}

impl View for General {
    type V = GeneralModel;

    open spec fn view(&self) -> GeneralModel {
        GeneralModel {
            name: self.name@,
            version: self.version@,
            src: self.src.deep_view(),
            src_unpack_dir: self.src_unpack_dir@,
            workdir: self.workdir@,
            template: self.template.deep_view(),
            binary_alternative: self.binary_alternative@,
            no_auto_patch: self.no_auto_patch,
            no_auto_unpack: self.no_auto_unpack,
            recurse_submodules: self.recurse_submodules,
            exports_aclocal: self.exports_aclocal,
            reexports_path: self.reexports_path,
            depends: self.depends.deep_view(),
            host_depends: self.host_depends.deep_view(),
            others: self.others.deep_view(),
        }
    }
}

/// A package recipe: its metadata and its four stages.
pub struct Recipe {
    pub general: General,
    pub prepare: Step,
    pub configure: Step,
    pub build: Step,
    pub install: Step,
}

pub struct RecipeModel {
    pub general: GeneralModel,
    pub prepare: StepModel,
    pub configure: StepModel,
    pub build: StepModel,
    pub install: StepModel,
}

impl View for Recipe {
    type V = RecipeModel;

    open spec fn view(&self) -> RecipeModel {
        RecipeModel {
            general: self.general@,
            prepare: self.prepare@,
            configure: self.configure@,
            build: self.build@,
            install: self.install@,
        }
    }
}

impl RecipeModel {
    pub open spec fn step(self, stage: Stage) -> StepModel {
        match stage {
            Stage::Prepare => self.prepare,
            Stage::Configure => self.configure,
            Stage::Build => self.build,
            Stage::Install => self.install,
        }
    }
}

/// No key occurs twice: what a keyed table of the configuration files gives.
pub open spec fn distinct_keys(keys: Seq<Seq<char>>) -> bool {
    forall|i: int, j: int| 0 <= i < j < keys.len() ==> keys[i] != keys[j]
}

/// The keys of a table of pairs.
pub open spec fn keys_of<T>(entries: Seq<(String, T)>) -> Seq<Seq<char>> {
    entries.map_values(|e: (String, T)| e.0@)
}

/// Whether no key of `entries` occurs twice.
pub fn has_distinct_keys<T>(entries: &Vec<(String, T)>) -> (r: bool)
    ensures
        r == distinct_keys(keys_of(entries@)),
{
    let ghost keys = keys_of(entries@);
    let mut j: usize = 0;
    while j < entries.len()
        invariant
            j <= entries.len(),
            keys == keys_of(entries@),
            forall|a: int, b: int| 0 <= a < b < j ==> keys[a] != keys[b],
        decreases entries.len() - j,
    {
        let mut i: usize = 0;
        while i < j
            invariant
                i <= j < entries.len(),
                keys == keys_of(entries@),
                forall|a: int, b: int| 0 <= a < b < j ==> keys[a] != keys[b],
                forall|a: int| 0 <= a < i ==> keys[a] != keys[j as int],
            decreases j - i,
        {
            if entries[i].0 == entries[j].0 {
                assert(keys[i as int] == keys[j as int]);
                return false;
            }
            i = i + 1;
        }
        j = j + 1;
    }
    true
}

impl General {
    /// Its extra placeholder values are keyed uniquely.
    pub open spec fn wf(&self) -> bool {
        distinct_keys(keys_of(self.others@))
    }
}

/// The position of the first entry whose key is `key`.
pub open spec fn key_index(keys: Seq<Seq<char>>, key: Seq<char>) -> Option<int>
    decreases keys.len(),
{
    if keys.len() == 0 {
        None
    } else {
        match key_index(keys.drop_last(), key) {
            Some(i) => Some(i),
            None => if keys.last() == key {
                Some(keys.len() - 1)
            } else {
                None
            },
        }
    }
}

/// The value of the first entry whose key is `key`.
pub open spec fn lookup<V>(entries: Seq<(Seq<char>, V)>, key: Seq<char>) -> Option<V> {
    match key_index(entries.map_values(|e: (Seq<char>, V)| e.0), key) {
        Some(i) => Some(entries[i].1),
        None => None,
    }
}

pub proof fn lemma_key_index_bounds(keys: Seq<Seq<char>>, key: Seq<char>)
    ensures
        key_index(keys, key) matches Some(i) ==> 0 <= i < keys.len() && keys[i] == key,
    decreases keys.len(),
{
    if keys.len() > 0 {
        lemma_key_index_bounds(keys.drop_last(), key);
    }
}

pub proof fn lemma_key_index_none(keys: Seq<Seq<char>>, key: Seq<char>)
    ensures
        key_index(keys, key) is None <==> !keys.contains(key),
    decreases keys.len(),
{
    lemma_key_index_bounds(keys, key);
    if keys.len() > 0 {
        lemma_key_index_none(keys.drop_last(), key);
        if keys.contains(key) && key_index(keys.drop_last(), key) is None {
            let p = choose|p: int| 0 <= p < keys.len() && keys[p] == key;
            if p < keys.len() - 1 {
                assert(keys.drop_last()[p] == key);
            }
        }
        if key_index(keys, key) is None && keys.len() > 0 {
            assert forall|p: int| 0 <= p < keys.len() implies keys[p] != key by {
                if p < keys.len() - 1 {
                    assert(keys.drop_last()[p] == keys[p]);
                }
            }
        }
    }
}

pub proof fn lemma_key_index_prefix(keys: Seq<Seq<char>>, key: Seq<char>, j: int)
    requires
        0 <= j <= keys.len(),
        key_index(keys.take(j), key) is Some,
    ensures
        key_index(keys, key) == key_index(keys.take(j), key),
    decreases keys.len(),
{
    if j == keys.len() {
        assert(keys.take(j) =~= keys);
    } else {
        assert(keys.drop_last().take(j) =~= keys.take(j));
        lemma_key_index_prefix(keys.drop_last(), key, j);
    }
}

/// Finds the first entry of `entries` whose key is `key`.
pub fn find_key<T>(entries: &Vec<(String, T)>, key: &String) -> (r: Option<usize>)
    ensures
        r matches Some(i) ==> key_index(entries@.map_values(|e: (String, T)| e.0@), key@) == Some(
            i as int,
        ),
        r is None ==> key_index(entries@.map_values(|e: (String, T)| e.0@), key@) is None,
{
    let ghost keys = entries@.map_values(|e: (String, T)| e.0@);
    let mut i: usize = 0;
    while i < entries.len()
        invariant
            i <= entries.len(),
            keys == entries@.map_values(|e: (String, T)| e.0@),
            key_index(keys.take(i as int), key@) is None,
        decreases entries.len() - i,
    {
        assert(keys.take(i + 1).drop_last() =~= keys.take(i as int));
        if entries[i].0 == *key {
            proof {
                lemma_key_index_prefix(keys, key@, i + 1);
            }
            return Some(i);
        }
        i = i + 1;
    }
    assert(keys.take(i as int) =~= keys);
    None
}

pub fn copy_strings(v: &Vec<String>) -> (r: Vec<String>)
    ensures
        r.deep_view() == v.deep_view(),
{
    let r = v.clone();
    assert(r.deep_view() =~= v.deep_view());
    r
}

pub fn copy_pairs(v: &Vec<(String, String)>) -> (r: Vec<(String, String)>)
    ensures
        r.deep_view() == v.deep_view(),
{
    let mut r: Vec<(String, String)> = Vec::new();
    let mut i: usize = 0;
    while i < v.len()
        invariant
            i <= v.len(),
            r.deep_view() =~= v.deep_view().take(i as int),
        decreases v.len() - i,
    {
        let ghost before = r;
        r.push((v[i].0.clone(), v[i].1.clone()));
        assert(r.deep_view() =~= before.deep_view().push(v.deep_view()[i as int]));
        i = i + 1;
    }
    assert(v.deep_view().take(i as int) =~= v.deep_view());
    r
}

} // verus!
