//! The dependency walk: an explicit stack of work items that yields each
//! package's execution turn after those of all its dependencies, once.
use vstd::prelude::*;
use crate::recipe::{
    copy_strings, find_key, lemma_key_index_bounds, lemma_key_index_none,
    lemma_key_index_prefix, lookup, General,
};

verus! {

/// What a finished package contributes to the environment of its dependents.
pub struct PackageRecord {
    pub path: String,
    pub aclocal: String,
}

pub struct RecordModel {
    pub path: Seq<char>,
    pub aclocal: Seq<char>,
}

impl View for PackageRecord {
    type V = RecordModel;

    open spec fn view(&self) -> RecordModel {
        RecordModel { path: self.path@, aclocal: self.aclocal@ }
    }
}

/// One entry of the walk's stack.
pub struct WorkItem {
    pub name: String,
    pub host: bool,
    /// Set once the item's dependencies have been pushed above it.
    pub expanded: bool,
    /// Named by the user rather than pulled in as a dependency.
    pub user_requested: bool,
    /// The target dependencies recorded when the item was expanded.
    pub depends: Vec<String>,
    /// The host dependencies recorded when the item was expanded.
    pub host_depends: Vec<String>,
    /// The packages this item replaces as their binary alternative.
    pub stands_for: Vec<String>,
}

pub struct ItemModel {
    pub name: Seq<char>,
    pub host: bool,
    pub expanded: bool,
    pub user_requested: bool,
    pub depends: Seq<Seq<char>>,
    pub host_depends: Seq<Seq<char>>,
    pub stands_for: Seq<Seq<char>>,
}

impl ItemModel {
    /// Every dependency, target and host.
    pub open spec fn deps(self) -> Seq<Seq<char>> {
        self.depends + self.host_depends
    }

    /// Whether finishing this item settles `name`.
    pub open spec fn covers(self, name: Seq<char>) -> bool {
        self.name == name || self.stands_for.contains(name)
    }
}

impl View for WorkItem {
    type V = ItemModel;

    open spec fn view(&self) -> ItemModel {
        ItemModel {
            name: self.name@,
            host: self.host,
            expanded: self.expanded,
            user_requested: self.user_requested,
            depends: self.depends.deep_view(),
            host_depends: self.host_depends.deep_view(),
            stands_for: self.stands_for.deep_view(),
        }
    }
}

/// One execution turn as the walk's log keeps it.
pub struct Executed {
    pub name: String,
    pub host: bool,
    pub depends: Vec<String>,
    pub host_depends: Vec<String>,
    /// Where the package's own name entered the resolved list.
    pub position: usize,
}

pub struct ExecutedModel {
    pub name: Seq<char>,
    pub host: bool,
    pub deps: Seq<Seq<char>>,
    pub position: int,
}

impl View for Executed {
    type V = ExecutedModel;

    open spec fn view(&self) -> ExecutedModel {
        ExecutedModel {
            name: self.name@,
            host: self.host,
            deps: self.depends.deep_view() + self.host_depends.deep_view(),
            position: self.position as int,
        }
    }
}

/// What the caller does after one step of the walk.
pub enum Turn {
    /// Nothing is left to visit.
    Finished,
    /// The item's dependencies were pushed; visit on.
    Expanded,
    /// The item was swapped for its binary alternative; visit on.
    Replaced,
    /// Finalize, build and sync this package, with the environment given.
    Execute {
        name: String,
        host: bool,
        user_requested: bool,
        /// `PATH` for the package's commands.
        path: String,
        /// `ACLOCAL_PATH` for the package's commands.
        aclocal: String,
    },
}

/// Why the walk stopped.
pub enum WalkError {
    /// The package depends on itself through the named chain.
    Cycle { name: String },
}

/// The walk's state: the stack, the packages resolved so far with what each
/// contributes, and the log of execution turns.
pub struct Walker {
    stack: Vec<WorkItem>,
    resolved: Vec<(String, PackageRecord)>,
    log: Vec<Executed>,
    prefer_binaries: bool,
    search_path: String,
}

/// Whether an item above position `i` still stands to settle `d`.
pub open spec fn pending_above(stack: Seq<ItemModel>, i: int, d: Seq<char>) -> bool {
    exists|j: int| i < j < stack.len() && (#[trigger] stack[j]).covers(d)
}

/// A package that an expanded item depends on has a record, or an item
/// above it will give it one.
pub open spec fn stack_ok(stack: Seq<ItemModel>, keys: Seq<Seq<char>>) -> bool {
    forall|i: int, d: Seq<char>|
        0 <= i < stack.len() && stack[i].expanded && #[trigger] stack[i].deps().contains(d)
            ==> keys.contains(d) || pending_above(stack, i, d)
}

/// Every dependency of an executed package got its record before the
/// package did.
pub open spec fn deps_first(log: Seq<ExecutedModel>, keys: Seq<Seq<char>>) -> bool {
    forall|k: int|
        0 <= k < log.len() ==> {
            let e = #[trigger] log[k];
            &&& 0 <= e.position < keys.len()
            &&& keys[e.position] == e.name
            &&& forall|d: Seq<char>| e.deps.contains(d) ==> keys.take(e.position).contains(d)
        }
}

/// No package name has two execution turns.
pub open spec fn executes_once(log: Seq<ExecutedModel>) -> bool {
    forall|a: int, b: int|
        0 <= a < b < log.len() ==> (#[trigger] log[a]).name != (#[trigger] log[b]).name
}

/// The items that a package's dependencies push: not expanded, not requested.
pub open spec fn dep_items(names: Seq<Seq<char>>, host: bool) -> Seq<ItemModel> {
    names.map_values(
        |n: Seq<char>|
            ItemModel {
                name: n,
                host,
                expanded: false,
                user_requested: false,
                depends: seq![],
                host_depends: seq![],
                stands_for: seq![],
            },
    )
}

/// `acc` with a `:` separator at its end.
pub open spec fn with_sep(acc: Seq<char>) -> Seq<char> {
    if acc.len() > 0 && acc.last() == ':' {
        acc
    } else {
        acc + seq![':']
    }
}

/// `acc` with one more search-path entry: `dir` and `sub` joined by `/`.
pub open spec fn push_entry(acc: Seq<char>, dir: Seq<char>, sub: Seq<char>) -> Seq<char> {
    let a = with_sep(acc) + dir;
    (if a.last() == '/' {
        a
    } else {
        a + seq!['/']
    }) + sub
}

/// The executable directories of a host package installed at `dir`.
pub open spec fn search_fragment(dir: Seq<char>) -> Seq<char> {
    push_entry(push_entry(push_entry(seq![], dir, "bin"@), dir, "usr/bin"@), dir, "usr/local/bin"@)
}

/// The aclocal directories of a host package installed at `dir`.
pub open spec fn aclocal_fragment(dir: Seq<char>) -> Seq<char> {
    push_entry(
        push_entry(push_entry(seq![], dir, "share/aclocal"@), dir, "usr/share/aclocal"@),
        dir,
        "usr/local/share/aclocal"@,
    )
}

/// What a package contributes: host packages their directories, target
/// packages nothing.
pub open spec fn record_of(host: bool, exports_aclocal: bool, dir: Seq<char>) -> RecordModel {
    if host {
        RecordModel {
            path: search_fragment(dir),
            aclocal: if exports_aclocal {
                aclocal_fragment(dir)
            } else {
                seq![]
            },
        }
    } else {
        RecordModel { path: seq![], aclocal: seq![] }
    }
}

/// The search-path fragments of the named packages, concatenated.
pub open spec fn deps_path(records: Seq<(Seq<char>, RecordModel)>, names: Seq<Seq<char>>) -> Seq<char>
    decreases names.len(),
{
    if names.len() == 0 {
        seq![]
    } else {
        deps_path(records, names.drop_last()) + match lookup(records, names.last()) {
            Some(r) => r.path,
            None => seq![],
        }
    }
}

/// The aclocal fragments of the named packages, concatenated.
pub open spec fn deps_aclocal(records: Seq<(Seq<char>, RecordModel)>, names: Seq<Seq<char>>) -> Seq<
    char,
>
    decreases names.len(),
{
    if names.len() == 0 {
        seq![]
    } else {
        deps_aclocal(records, names.drop_last()) + match lookup(
            records,
            names.last(),
        ) {
            Some(r) => r.aclocal,
            None => seq![],
        }
    }
}

proof fn lemma_keys_grow(
    stack: Seq<ItemModel>,
    log: Seq<ExecutedModel>,
    keys: Seq<Seq<char>>,
    keys2: Seq<Seq<char>>,
)
    requires
        stack_ok(stack, keys),
        deps_first(log, keys),
        keys.len() <= keys2.len(),
        keys2.take(keys.len() as int) == keys,
    ensures
        stack_ok(stack, keys2),
        deps_first(log, keys2),
{
    assert forall|i: int, d: Seq<char>|
        0 <= i < stack.len() && stack[i].expanded && #[trigger] stack[i].deps().contains(d)
            implies keys2.contains(d) || pending_above(stack, i, d) by {
        if keys.contains(d) {
            let p = choose|p: int| 0 <= p < keys.len() && keys[p] == d;
            assert(keys2[p] == keys.take(keys.len() as int)[p]);
        }
    }
    assert forall|k: int| 0 <= k < log.len() implies {
        let e = #[trigger] log[k];
        &&& 0 <= e.position < keys2.len()
        &&& keys2[e.position] == e.name
        &&& forall|d: Seq<char>| e.deps.contains(d) ==> keys2.take(e.position).contains(d)
    } by {
        let e = log[k];
        assert(keys2[e.position] == keys2.take(keys.len() as int)[e.position]);
        assert(keys2.take(e.position) =~= keys.take(e.position));
    }
}

proof fn lemma_pop(stack: Seq<ItemModel>, keys: Seq<Seq<char>>)
    requires
        stack_ok(stack, keys),
        stack.len() > 0,
        forall|d: Seq<char>| stack.last().covers(d) ==> keys.contains(d),
    ensures
        stack_ok(stack.drop_last(), keys),
{
    let s2 = stack.drop_last();
    assert forall|i: int, d: Seq<char>|
        0 <= i < s2.len() && s2[i].expanded && #[trigger] s2[i].deps().contains(d) implies keys.contains(
        d) || pending_above(s2, i, d) by {
        assert(stack[i] == s2[i]);
        if !keys.contains(d) {
            let j = choose|j: int| i < j < stack.len() && (#[trigger] stack[j]).covers(d);
            assert(j < s2.len());
            assert(s2[j] == stack[j]);
        }
    }
}

proof fn lemma_replace_top(stack: Seq<ItemModel>, keys: Seq<Seq<char>>, top: ItemModel)
    requires
        stack_ok(stack, keys),
        stack.len() > 0,
        !top.expanded,
        forall|d: Seq<char>| stack.last().covers(d) ==> top.covers(d),
    ensures
        stack_ok(stack.drop_last().push(top), keys),
{
    let s2 = stack.drop_last().push(top);
    assert forall|i: int, d: Seq<char>|
        0 <= i < s2.len() && s2[i].expanded && #[trigger] s2[i].deps().contains(d) implies keys.contains(
        d) || pending_above(s2, i, d) by {
        assert(i < stack.len() - 1);
        assert(stack[i] == s2[i]);
        if !keys.contains(d) {
            let j = choose|j: int| i < j < stack.len() && (#[trigger] stack[j]).covers(d);
            if j < stack.len() - 1 {
                assert(s2[j] == stack[j]);
            } else {
                assert(s2[j] == top);
            }
        }
    }
}

proof fn lemma_expand(
    stack: Seq<ItemModel>,
    keys: Seq<Seq<char>>,
    top: ItemModel,
    pushed: Seq<ItemModel>,
)
    requires
        stack_ok(stack, keys),
        stack.len() > 0,
        !stack.last().expanded,
        forall|d: Seq<char>| stack.last().covers(d) ==> top.covers(d),
        forall|k: int| 0 <= k < pushed.len() ==> !(#[trigger] pushed[k]).expanded,
        forall|d: Seq<char>|
            #[trigger] top.deps().contains(d) ==> exists|k: int|
                0 <= k < pushed.len() && (#[trigger] pushed[k]).name == d,
    ensures
        stack_ok(stack.drop_last().push(top) + pushed, keys),
{
    let base = stack.drop_last().push(top);
    let s2 = base + pushed;
    assert forall|i: int, d: Seq<char>|
        0 <= i < s2.len() && s2[i].expanded && #[trigger] s2[i].deps().contains(d) implies keys.contains(
        d) || pending_above(s2, i, d) by {
        if i >= base.len() {
            assert(s2[i] == pushed[i - base.len()]);
        } else if i == base.len() - 1 {
            assert(s2[i] == top);
            let k = choose|k: int| 0 <= k < pushed.len() && (#[trigger] pushed[k]).name == d;
            assert(s2[base.len() + k] == pushed[k]);
            assert(s2[base.len() + k].covers(d));
        } else {
            assert(s2[i] == stack[i]);
            assert(stack[i].expanded);
            if !keys.contains(d) {
                let j = choose|j: int| i < j < stack.len() && (#[trigger] stack[j]).covers(d);
                if j < stack.len() - 1 {
                    assert(s2[j] == stack[j]);
                } else {
                    assert(s2[j] == top);
                    assert(s2[j].covers(d));
                }
            }
        }
    }
}

proof fn lemma_top_deps_resolved(stack: Seq<ItemModel>, keys: Seq<Seq<char>>)
    requires
        stack_ok(stack, keys),
        stack.len() > 0,
        stack.last().expanded,
    ensures
        forall|d: Seq<char>| stack.last().deps().contains(d) ==> keys.contains(d),
{
    assert forall|d: Seq<char>| stack.last().deps().contains(d) implies keys.contains(d) by {
        let i = stack.len() - 1;
        assert(stack[i].deps().contains(d));
        if !keys.contains(d) {
            assert(pending_above(stack, i, d));
        }
    }
}

impl Walker {
    pub closed spec fn stack_model(&self) -> Seq<ItemModel> {
        self.stack@.map_values(|w: WorkItem| w@)
    }

    /// The names with a record, in the order they got it.
    pub closed spec fn keys(&self) -> Seq<Seq<char>> {
        self.resolved@.map_values(|e: (String, PackageRecord)| e.0@)
    }

    pub closed spec fn records(&self) -> Seq<(Seq<char>, RecordModel)> {
        self.resolved@.map_values(|e: (String, PackageRecord)| (e.0@, e.1@))
    }

    /// The execution turns so far, in order.
    pub closed spec fn log(&self) -> Seq<ExecutedModel> {
        self.log@.map_values(|e: Executed| e@)
    }

    pub closed spec fn search_path(&self) -> Seq<char> {
        self.search_path@
    }

    pub closed spec fn prefers_binaries(&self) -> bool {
        self.prefer_binaries
    }

    pub open spec fn wf(&self) -> bool {
        &&& stack_ok(self.stack_model(), self.keys())
        &&& deps_first(self.log(), self.keys())
        &&& executes_once(self.log())
    }

    /// The next item is on top of the stack and has no record yet.
    pub open spec fn has_pending(&self) -> bool {
        self.stack_model().len() > 0 && !self.keys().contains(self.stack_model().last().name)
    }
}

fn ends_with_char(s: &String, c: char) -> (r: bool)
    ensures
        r == (s@.len() > 0 && s@.last() == c),
{
    let n = s.as_str().unicode_len();
    n > 0 && s.as_str().get_char(n - 1) == c
}

fn append_entry(acc: &mut String, dir: &String, sub: &str)
    ensures
        final(acc)@ == push_entry(old(acc)@, dir@, sub@),
{
    if !ends_with_char(acc, ':') {
        let colon = ":";
        proof {
            reveal_strlit(":");
        }
        acc.append(colon);
    }
    acc.append(dir.as_str());
    if !ends_with_char(acc, '/') {
        let slash = "/";
        proof {
            reveal_strlit("/");
        }
        acc.append(slash);
    }
    acc.append(sub);
}

/// The record of a finished package installed at `dir`.
pub fn package_record(host: bool, exports_aclocal: bool, dir: &String) -> (r: PackageRecord)
    ensures
        r@ == record_of(host, exports_aclocal, dir@),
{
    if !host {
        return PackageRecord { path: String::new(), aclocal: String::new() };
    }
    let mut path = String::new();
    append_entry(&mut path, dir, "bin");
    append_entry(&mut path, dir, "usr/bin");
    append_entry(&mut path, dir, "usr/local/bin");
    let mut aclocal = String::new();
    if exports_aclocal {
        append_entry(&mut aclocal, dir, "share/aclocal");
        append_entry(&mut aclocal, dir, "usr/share/aclocal");
        append_entry(&mut aclocal, dir, "usr/local/share/aclocal");
    }
    PackageRecord { path, aclocal }
}

/// `path` extended by a package's search-path fragment.
pub open spec fn extended_path(path: Seq<char>, fragment: Seq<char>) -> Seq<char> {
    with_sep(path) + fragment
}

fn copy_record(r: &PackageRecord) -> (c: PackageRecord)
    ensures
        c@ == r@,
{
    PackageRecord { path: r.path.clone(), aclocal: r.aclocal.clone() }
}

fn requested_item(name: String, host: bool) -> (w: WorkItem)
    ensures
        w@ == (ItemModel {
            name: name@,
            host,
            expanded: false,
            user_requested: true,
            depends: seq![],
            host_depends: seq![],
            stands_for: seq![],
        }),
{
    let w = WorkItem {
        name,
        host,
        expanded: false,
        user_requested: true,
        depends: Vec::new(),
        host_depends: Vec::new(),
        stands_for: Vec::new(),
    };
    assert(w@.depends =~= seq![]);
    assert(w@.host_depends =~= seq![]);
    assert(w@.stands_for =~= seq![]);
    w
}

fn dependency_item(name: &String, host: bool) -> (w: WorkItem)
    ensures
        w@ == dep_items(seq![name@], host)[0],
{
    let w = WorkItem {
        name: name.clone(),
        host,
        expanded: false,
        user_requested: false,
        depends: Vec::new(),
        host_depends: Vec::new(),
        stands_for: Vec::new(),
    };
    assert(w@.depends =~= seq![]);
    assert(w@.host_depends =~= seq![]);
    assert(w@.stands_for =~= seq![]);
    w
}

impl Walker {
    /// A walk over the packages the user named, all host or all target.
    /// The last name is visited first.
    pub fn new(names: Vec<String>, host: bool, prefer_binaries: bool, inherited_path: String) -> (w:
        Walker)
        ensures
            w.wf(),
            w.stack_model() == names.deep_view().map_values(
                |n: Seq<char>|
                    ItemModel {
                        name: n,
                        host,
                        expanded: false,
                        user_requested: true,
                        depends: seq![],
                        host_depends: seq![],
                        stands_for: seq![],
                    },
            ),
            w.keys().len() == 0,
            w.log().len() == 0,
            w.search_path() == inherited_path@,
            w.prefers_binaries() == prefer_binaries,
    {
        let mut stack: Vec<WorkItem> = Vec::new();
        let mut i: usize = 0;
        let ghost target = names.deep_view().map_values(
            |n: Seq<char>|
                ItemModel {
                    name: n,
                    host,
                    expanded: false,
                    user_requested: true,
                    depends: seq![],
                    host_depends: seq![],
                    stands_for: seq![],
                },
        );
        while i < names.len()
            invariant
                i <= names.len(),
                target.len() == names.len(),
                target == names.deep_view().map_values(
                    |n: Seq<char>|
                        ItemModel {
                            name: n,
                            host,
                            expanded: false,
                            user_requested: true,
                            depends: seq![],
                            host_depends: seq![],
                            stands_for: seq![],
                        },
                ),
                stack@.map_values(|w: WorkItem| w@) =~= target.take(i as int),
            decreases names.len() - i,
        {
            let ghost before = stack@.map_values(|w: WorkItem| w@);
            stack.push(requested_item(names[i].clone(), host));
            assert(stack@.map_values(|w: WorkItem| w@) =~= before.push(target[i as int]));
            assert(target.take(i + 1) =~= target.take(i as int).push(target[i as int]));
            i = i + 1;
        }
        assert(target.take(i as int) =~= target);
        let w = Walker {
            stack,
            resolved: Vec::new(),
            log: Vec::new(),
            prefer_binaries,
            search_path: inherited_path,
        };
        assert(w.keys() =~= Seq::<Seq<char>>::empty());
        assert(w.log() =~= Seq::<ExecutedModel>::empty());
        w
    }

    fn is_resolved(&self, name: &String) -> (r: bool)
        ensures
            r == self.keys().contains(name@),
    {
        proof {
            lemma_key_index_none(self.keys(), name@);
        }
        assert(self.resolved@.map_values(|e: (String, PackageRecord)| e.0@) =~= self.keys());
        find_key(&self.resolved, name).is_some()
    }

    /// Gives each of `names` a copy of the record at `at`.
    fn add_aliases(&mut self, names: &Vec<String>, at: usize)
        requires
            at < old(self).resolved.len(),
        ensures
            final(self).stack_model() == old(self).stack_model(),
            final(self).log() == old(self).log(),
            final(self).keys() == old(self).keys() + names.deep_view(),
            final(self).records().take(old(self).records().len() as int) == old(self).records(),
            final(self).search_path() == old(self).search_path(),
            final(self).prefers_binaries() == old(self).prefers_binaries(),
    {
        let ghost k0 = self.keys();
        let ghost r0 = self.records();
        let mut i: usize = 0;
        assert(self.keys() =~= k0 + names.deep_view().take(0));
        assert(self.records().take(r0.len() as int) =~= r0);
        while i < names.len()
            invariant
                i <= names.len(),
                at < self.resolved.len(),
                self.stack_model() == old(self).stack_model(),
                self.log() == old(self).log(),
                self.keys() == k0 + names.deep_view().take(i as int),
                self.records().take(r0.len() as int) == r0,
                r0.len() == k0.len(),
                self.search_path() == old(self).search_path(),
                self.prefers_binaries() == old(self).prefers_binaries(),
            decreases names.len() - i,
        {
            let ghost kb = self.keys();
            let ghost rb = self.records();
            let rec = copy_record(&self.resolved[at].1);
            self.resolved.push((names[i].clone(), rec));
            assert(self.keys() =~= kb.push(names.deep_view()[i as int]));
            assert(names.deep_view().take(i + 1) =~= names.deep_view().take(i as int).push(
                names.deep_view()[i as int],
            ));
            assert(self.records().take(r0.len() as int) =~= rb.take(r0.len() as int));
            i = i + 1;
        }
        assert(names.deep_view().take(i as int) =~= names.deep_view());
    }

    /// Drops finished items from the top of the stack and names the package
    /// whose recipe the caller loads next, with its host flag; `None` once the
    /// walk is over.
    pub fn next_item(&mut self) -> (r: Option<(String, bool)>)
        requires
            old(self).wf(),
        ensures
            final(self).wf(),
            final(self).log() == old(self).log(),
            old(self).keys().len() <= final(self).keys().len(),
            final(self).keys().take(old(self).keys().len() as int) == old(self).keys(),
            final(self).search_path() == old(self).search_path(),
            final(self).prefers_binaries() == old(self).prefers_binaries(),
            final(self).stack_model().len() <= old(self).stack_model().len(),
            final(self).stack_model() == old(self).stack_model().take(
                final(self).stack_model().len() as int,
            ),
            forall|k: int|
                final(self).stack_model().len() <= k < old(self).stack_model().len()
                    ==> final(self).keys().contains(#[trigger] old(self).stack_model()[k].name),
            match r {
                Some((name, host)) => final(self).has_pending() && name@
                    == final(self).stack_model().last().name && host
                    == final(self).stack_model().last().host,
                None => final(self).stack_model().len() == 0,
            },
    {
        let ghost s0 = self.stack_model();
        let ghost k0 = self.keys();
        loop
            invariant
                self.wf(),
                self.log() == old(self).log(),
                k0 == old(self).keys(),
                s0 == old(self).stack_model(),
                k0.len() <= self.keys().len(),
                self.keys().take(k0.len() as int) == k0,
                self.search_path() == old(self).search_path(),
                self.prefers_binaries() == old(self).prefers_binaries(),
                self.stack_model().len() <= s0.len(),
                self.stack_model() == s0.take(self.stack_model().len() as int),
                forall|k: int|
                    self.stack_model().len() <= k < s0.len() ==> self.keys().contains(
                        #[trigger] s0[k].name,
                    ),
            decreases self.stack.len(),
        {
            let n = self.stack.len();
            if n == 0 {
                return None;
            }
            if !self.is_resolved(&self.stack[n - 1].name) {
                assert(self.stack_model().last() == self.stack[n - 1]@);
                return Some((self.stack[n - 1].name.clone(), self.stack[n - 1].host));
            }
            let ghost sb = self.stack_model();
            let ghost kb = self.keys();
            let top = self.stack.pop().unwrap();
            assert(self.stack_model() =~= sb.drop_last());
            assert(sb.last() == top@);
            let at = find_key(&self.resolved, &top.name);
            assert(self.resolved@.map_values(|e: (String, PackageRecord)| e.0@) =~= self.keys());
            proof {
                lemma_key_index_none(self.keys(), top.name@);
                lemma_key_index_bounds(self.keys(), top.name@);
            }
            let at = at.unwrap();
            self.add_aliases(&top.stands_for, at);
            proof {
                assert forall|d: Seq<char>| sb.last().covers(d) implies self.keys().contains(d) by {
                    if sb.last().stands_for.contains(d) {
                        let q = choose|q: int|
                            0 <= q < top.stands_for.deep_view().len()
                                && top.stands_for.deep_view()[q] == d;
                        assert(self.keys()[kb.len() + q] == d);
                    } else {
                        let q = choose|q: int| 0 <= q < kb.len() && kb[q] == d;
                        assert(self.keys()[q] == kb[q]);
                    }
                }
                assert(self.keys().take(kb.len() as int) =~= kb);
                lemma_keys_grow(sb, self.log(), kb, self.keys());
                lemma_pop(sb, self.keys());
                assert(self.keys().take(k0.len() as int) =~= k0);
                assert(self.stack_model() =~= s0.take(self.stack_model().len() as int));
                assert forall|k: int|
                    self.stack_model().len() <= k < s0.len() implies self.keys().contains(
                        #[trigger] s0[k].name,
                    ) by {
                    if k == self.stack_model().len() {
                        assert(s0[k] == sb.last());
                        assert(sb.last().covers(s0[k].name));
                    } else {
                        let q = choose|q: int| 0 <= q < kb.len() && kb[q] == s0[k].name;
                        assert(self.keys()[q] == kb[q]);
                    }
                }
            }
        }
    }

    /// The search-path and aclocal fragments of the named packages, concatenated.
    fn dependency_paths(&self, names: &Vec<String>) -> (r: (String, String))
        ensures
            r.0@ == deps_path(self.records(), names.deep_view()),
            r.1@ == deps_aclocal(self.records(), names.deep_view()),
    {
        let mut path = String::new();
        let mut aclocal = String::new();
        let ghost recs = self.records();
        assert(self.resolved@.map_values(|e: (String, PackageRecord)| e.0@) =~= recs.map_values(
            |e: (Seq<char>, RecordModel)| e.0,
        ));
        let mut i: usize = 0;
        assert(names.deep_view().take(0) =~= Seq::<Seq<char>>::empty());
        while i < names.len()
            invariant
                i <= names.len(),
                recs == self.records(),
                self.resolved@.map_values(|e: (String, PackageRecord)| e.0@) == recs.map_values(
                    |e: (Seq<char>, RecordModel)| e.0,
                ),
                path@ == deps_path(recs, names.deep_view().take(i as int)),
                aclocal@ == deps_aclocal(recs, names.deep_view().take(i as int)),
            decreases names.len() - i,
        {
            let ghost t = names.deep_view().take(i + 1);
            assert(t.drop_last() =~= names.deep_view().take(i as int));
            assert(t.last() == names[i as int]@);
            proof {
                lemma_key_index_bounds(
                    recs.map_values(|e: (Seq<char>, RecordModel)| e.0),
                    names[i as int]@,
                );
            }
            match find_key(&self.resolved, &names[i]) {
                Some(k) => {
                    assert(recs[k as int].1 == self.resolved[k as int].1@);
                    path.append(self.resolved[k].1.path.as_str());
                    aclocal.append(self.resolved[k].1.aclocal.as_str());
                },
                None => {
                    assert(path@ =~= path@ + Seq::<char>::empty());
                    assert(aclocal@ =~= aclocal@ + Seq::<char>::empty());
                },
            }
            i = i + 1;
        }
        assert(names.deep_view().take(i as int) =~= names.deep_view());
        (path, aclocal)
    }

    /// Takes one step on the pending item on top of the stack, whose recipe
    /// metadata, with its template already merged in, is `general`. `host_pkg_dir` is where a host package installs.
    ///
    /// An item seen for the first time pushes its dependencies above itself,
    /// each list in reverse so that they come off the stack in the order
    /// declared, host ones first, unless an expanded item of the same name
    /// lies below it, which is a cycle. An expanded item is swapped for its
    /// binary alternative where binaries are preferred and it names one;
    /// otherwise it gets its execution turn and its record.
    pub fn advance(&mut self, general: &General, host_pkg_dir: &String) -> (r: Result<
        Turn,
        WalkError,
    >)
        requires
            old(self).wf(),
            old(self).has_pending(),
        ensures
            final(self).wf(),
            final(self).prefers_binaries() == old(self).prefers_binaries(),
            ({
                let t = old(self).stack_model().last();
                let rest = old(self).stack_model().drop_last();
                if !t.expanded {
                    if exists|i: int|
                        0 <= i < rest.len() && (#[trigger] rest[i]).expanded && rest[i].name
                            == t.name {
                        &&& r matches Err(WalkError::Cycle { name }) && name@ == t.name
                        &&& final(self).stack_model() == old(self).stack_model()
                        &&& final(self).keys() == old(self).keys()
                        &&& final(self).log() == old(self).log()
                        &&& final(self).search_path() == old(self).search_path()
                    } else {
                        &&& r matches Ok(Turn::Expanded)
                        &&& final(self).stack_model() == rest.push(
                            ItemModel {
                                expanded: true,
                                depends: general@.depends,
                                host_depends: general@.host_depends,
                                ..t
                            },
                        ) + dep_items(general@.depends.reverse(), false) + dep_items(
                            general@.host_depends.reverse(),
                            true,
                        )
                        &&& final(self).keys() == old(self).keys()
                        &&& final(self).log() == old(self).log()
                        &&& final(self).search_path() == old(self).search_path()
                    }
                } else if old(self).prefers_binaries() && general@.binary_alternative.len() > 0 {
                    &&& r matches Ok(Turn::Replaced)
                    &&& final(self).stack_model() == rest.push(
                        ItemModel {
                            name: general@.binary_alternative,
                            host: t.host,
                            expanded: false,
                            user_requested: t.user_requested,
                            depends: seq![],
                            host_depends: seq![],
                            stands_for: t.stands_for.push(t.name),
                        },
                    )
                    &&& final(self).keys() == old(self).keys()
                    &&& final(self).log() == old(self).log()
                    &&& final(self).search_path() == old(self).search_path()
                } else {
                    let rec = record_of(t.host, general@.exports_aclocal, host_pkg_dir@);
                    let sp = if t.host && general@.reexports_path {
                        extended_path(old(self).search_path(), rec.path)
                    } else {
                        old(self).search_path()
                    };
                    &&& forall|d: Seq<char>| t.deps().contains(d) ==> old(self).keys().contains(d)
                    &&& final(self).stack_model() == rest
                    &&& final(self).keys() == old(self).keys().push(t.name) + t.stands_for
                    &&& lookup(final(self).records(), t.name) == Some(rec)
                    &&& final(self).search_path() == sp
                    &&& final(self).log() == old(self).log().push(
                        ExecutedModel {
                            name: t.name,
                            host: t.host,
                            deps: t.deps(),
                            position: old(self).keys().len() as int,
                        },
                    )
                    &&& r matches Ok(Turn::Execute { name, host, user_requested, path, aclocal })
                        && name@ == t.name && host == t.host && user_requested == t.user_requested
                        && path@ == deps_path(final(self).records(), t.host_depends) + seq![':']
                        + sp && aclocal@ == deps_aclocal(final(self).records(), t.host_depends)
                }
            }),
    {
        let n = self.stack.len();
        let ghost s0 = self.stack_model();
        let ghost k0 = self.keys();
        let ghost l0 = self.log();
        assert(s0.last() == self.stack[n - 1]@);
        if !self.stack[n - 1].expanded {
            let mut i: usize = 0;
            while i < n - 1
                invariant
                    n == self.stack.len() > 0,
                    s0 == self.stack_model(),
                    s0 == old(self).stack_model(),
                    !s0.last().expanded,
                    k0 == old(self).keys(),
                    l0 == old(self).log(),
                    self.wf(),
                    self.keys() == k0,
                    self.log() == l0,
                    self.search_path() == old(self).search_path(),
                    self.prefers_binaries() == old(self).prefers_binaries(),
                    i <= n - 1,
                    forall|k: int|
                        0 <= k < i ==> !((#[trigger] s0[k]).expanded && s0[k].name == s0.last().name),
                decreases n - 1 - i,
            {
                assert(s0[i as int] == self.stack[i as int]@);
                if self.stack[i].expanded && self.stack[i].name == self.stack[n - 1].name {
                    assert(s0.drop_last()[i as int] == s0[i as int]);
                    assert(s0.last() == self.stack[n - 1]@);
                    assert(s0.drop_last()[i as int].expanded && s0.drop_last()[i as int].name
                        == s0.last().name);
                    return Err(WalkError::Cycle { name: self.stack[n - 1].name.clone() });
                }
                i = i + 1;
            }
            assert forall|k: int|
                0 <= k < s0.drop_last().len() implies !((#[trigger] s0.drop_last()[k]).expanded
                && s0.drop_last()[k].name == s0.last().name) by {
                assert(s0.drop_last()[k] == s0[k]);
            }
            let mut top = self.stack.pop().unwrap();
            top.expanded = true;
            top.depends = copy_strings(&general.depends);
            top.host_depends = copy_strings(&general.host_depends);
            self.stack.push(top);
            assert(self.stack_model() =~= s0.drop_last().push(self.stack[n - 1]@));
            let ghost base = self.stack_model();
            let ghost tm = self.stack[n - 1]@;
            push_deps(&mut self.stack, &general.depends, false);
            push_deps(&mut self.stack, &general.host_depends, true);
            proof {
                let dv = general@.depends;
                let hv = general@.host_depends;
                let pushed = dep_items(dv.reverse(), false) + dep_items(hv.reverse(), true);
                assert(self.stack_model() =~= base + pushed);
                assert forall|d: Seq<char>| #[trigger] tm.deps().contains(d) implies exists|k: int|
                    0 <= k < pushed.len() && (#[trigger] pushed[k]).name == d by {
                    let q = choose|q: int| 0 <= q < tm.deps().len() && tm.deps()[q] == d;
                    if q < dv.len() {
                        assert(dv.reverse()[dv.len() - 1 - q] == dv[q]);
                        assert(pushed[dv.len() - 1 - q].name == d);
                    } else {
                        let q2 = q - dv.len();
                        assert(hv.reverse()[hv.len() - 1 - q2] == hv[q2]);
                        assert(pushed[dv.len() + hv.len() - 1 - q2].name == d);
                    }
                }
                lemma_expand(s0, k0, tm, pushed);
            }
            return Ok(Turn::Expanded);
        }
        if self.prefer_binaries && !general.binary_alternative.as_str().is_empty() {
            let top = self.stack.pop().unwrap();
            let mut stands_for = top.stands_for;
            stands_for.push(top.name);
            let alt = WorkItem {
                name: general.binary_alternative.clone(),
                host: top.host,
                expanded: false,
                user_requested: top.user_requested,
                depends: Vec::new(),
                host_depends: Vec::new(),
                stands_for,
            };
            self.stack.push(alt);
            proof {
                assert(alt@.depends =~= seq![]);
                assert(alt@.host_depends =~= seq![]);
                assert(alt@.stands_for =~= s0.last().stands_for.push(s0.last().name));
                assert forall|d: Seq<char>| s0.last().covers(d) implies alt@.covers(d) by {
                    if s0.last().name == d {
                        assert(alt@.stands_for.last() == d);
                    } else {
                        let q = choose|q: int|
                            0 <= q < s0.last().stands_for.len() && s0.last().stands_for[q] == d;
                        assert(alt@.stands_for[q] == d);
                    }
                }
                lemma_replace_top(s0, k0, alt@);
                assert(self.stack_model() =~= s0.drop_last().push(alt@));
            }
            return Ok(Turn::Replaced);
        }
        proof {
            lemma_top_deps_resolved(s0, k0);
        }
        let top = self.stack.pop().unwrap();
        assert(self.stack_model() =~= s0.drop_last());
        let record = package_record(top.host, general.exports_aclocal, host_pkg_dir);
        if top.host && general.reexports_path {
            if !ends_with_char(&self.search_path, ':') {
                let colon = ":";
                proof {
                    reveal_strlit(":");
                }
                self.search_path.append(colon);
            }
            self.search_path.append(record.path.as_str());
        }
        let pos = self.resolved.len();
        let ghost rec = record@;
        self.resolved.push((top.name.clone(), record));
        let ghost k1 = self.keys();
        assert(k1 =~= k0.push(top.name@));
        proof {
            lemma_key_index_none(k0, top.name@);
            assert(k1.drop_last() =~= k0);
            assert(self.records().map_values(|e: (Seq<char>, RecordModel)| e.0) =~= k1);
        }
        assert(lookup(self.records(), top.name@) == Some(rec));
        self.add_aliases(&top.stands_for, pos);
        let ghost k2 = self.keys();
        proof {
            assert(self.records().map_values(|e: (Seq<char>, RecordModel)| e.0) =~= k2);
            assert(k2.take(k1.len() as int) =~= k1);
            lemma_key_index_prefix(k2, top.name@, k1.len() as int);
            assert(self.records()[pos as int] == self.records().take(k1.len() as int)[pos as int]);
        }
        let (mut path, aclocal) = self.dependency_paths(&top.host_depends);
        let colon = ":";
        proof {
            reveal_strlit(":");
        }
        path.append(colon);
        path.append(self.search_path.as_str());
        let name = top.name.clone();
        self.log.push(
            Executed {
                name: top.name,
                host: top.host,
                depends: top.depends,
                host_depends: top.host_depends,
                position: pos,
            },
        );
        proof {
            let t = s0.last();
            assert(self.log() =~= l0.push(
                ExecutedModel { name: t.name, host: t.host, deps: t.deps(), position: k0.len() as int },
            ));
            assert(k2.take(k0.len() as int) =~= k0);
            lemma_keys_grow(s0, l0, k0, k2);
            assert forall|d: Seq<char>| t.covers(d) implies k2.contains(d) by {
                if t.name == d {
                    assert(k2[k0.len() as int] == d);
                } else {
                    let q = choose|q: int| 0 <= q < t.stands_for.len() && t.stands_for[q] == d;
                    assert(k2[k1.len() + q] == d);
                }
            }
            lemma_pop(s0, k2);
            let l2 = self.log();
            assert forall|k: int| 0 <= k < l2.len() implies {
                let e = #[trigger] l2[k];
                &&& 0 <= e.position < k2.len()
                &&& k2[e.position] == e.name
                &&& forall|d: Seq<char>| e.deps.contains(d) ==> k2.take(e.position).contains(d)
            } by {
                if k == l0.len() {
                    assert(k2[k0.len() as int] == t.name);
                    assert(k2.take(k0.len() as int) =~= k0);
                } else {
                    assert(l2[k] == l0[k]);
                }
            }
            assert forall|a: int, b: int|
                0 <= a < b < l2.len() implies (#[trigger] l2[a]).name != (#[trigger] l2[b]).name by {
                if b == l0.len() {
                    assert(l2[a] == l0[a]);
                    assert(k0[l0[a].position] == l0[a].name);
                    assert(k0.contains(l0[a].name));
                } else {
                    assert(l2[a] == l0[a]);
                    assert(l2[b] == l0[b]);
                }
            }
        }
        Ok(
            Turn::Execute {
                name,
                host: top.host,
                user_requested: top.user_requested,
                path,
                aclocal,
            },
        )
    }
}

fn push_deps(stack: &mut Vec<WorkItem>, names: &Vec<String>, host: bool)
    ensures
        final(stack)@.map_values(|w: WorkItem| w@) == old(stack)@.map_values(|w: WorkItem| w@)
            + dep_items(names.deep_view().reverse(), host),
{
    let ghost s0 = stack@.map_values(|w: WorkItem| w@);
    let ghost rev = names.deep_view().reverse();
    let n = names.len();
    let mut k: usize = 0;
    assert(s0 =~= s0 + dep_items(rev.take(0), host));
    while k < n
        invariant
            k <= n == names.len() == rev.len(),
            rev == names.deep_view().reverse(),
            stack@.map_values(|w: WorkItem| w@) == s0 + dep_items(rev.take(k as int), host),
        decreases n - k,
    {
        let ghost sb = stack@.map_values(|w: WorkItem| w@);
        assert(rev[k as int] == names[n - 1 - k]@);
        let w = dependency_item(&names[n - 1 - k], host);
        stack.push(w);
        assert(dep_items(rev.take(k + 1), host) =~= dep_items(rev.take(k as int), host).push(w@));
        assert(stack@.map_values(|w: WorkItem| w@) =~= sb.push(w@));
        k = k + 1;
    }
    assert(rev.take(k as int) =~= rev);
}

} // verus!
