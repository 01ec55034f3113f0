//! Synchronizing a package's install tree into the sysroot: what to copy,
//! the manifest to record, and what the previous manifest leaves stale.
use vstd::prelude::*;
use crate::text::{trim, trim_of};

verus! {

/// Pieces of `s` between separators: the finished ones and the one still open.
pub open spec fn split_scan(s: Seq<char>, sep: char) -> (Seq<Seq<char>>, Seq<char>)
    decreases s.len(),
{
    if s.len() == 0 {
        (seq![], seq![])
    } else {
        let (done, cur) = split_scan(s.drop_last(), sep);
        if s.last() == sep {
            (done.push(cur), seq![])
        } else {
            (done, cur.push(s.last()))
        }
    }
}

pub open spec fn strip_cr(line: Seq<char>) -> Seq<char> {
    if line.len() > 0 && line.last() == '\r' {
        line.drop_last()
    } else {
        line
    }
}

/// The lines of a text as `str::lines` gives them: split at `\n`, a `\r`
/// before the `\n` dropped, no empty last line.
pub open spec fn lines_of(s: Seq<char>) -> Seq<Seq<char>> {
    let (done, cur) = split_scan(s, '\n');
    done.map_values(|l: Seq<char>| strip_cr(l)) + if cur.len() == 0 {
        seq![]
    } else {
        seq![cur]
    }
}

/// The pieces that name path components: not empty, not `.`.
pub open spec fn named_parts(parts: Seq<Seq<char>>) -> Seq<Seq<char>>
    decreases parts.len(),
{
    if parts.len() == 0 {
        seq![]
    } else {
        let rest = named_parts(parts.drop_last());
        if parts.last().len() == 0 || parts.last() == seq!['.'] {
            rest
        } else {
            rest.push(parts.last())
        }
    }
}

/// The named components of a path.
pub open spec fn components_of(p: Seq<char>) -> Seq<Seq<char>> {
    let (done, cur) = split_scan(p, '/');
    named_parts(done.push(cur))
}

/// Whether `p` lies at or under `base`, component by component. Both are
/// read relative to the same root: a leading `/` names no component, so the
/// sysroot-relative `usr/share/doc/x` lies under `/usr/share/doc`.
pub open spec fn under_of(p: Seq<char>, base: Seq<char>) -> bool {
    let cp = components_of(p);
    let cb = components_of(base);
    cb.len() <= cp.len() && cp.take(cb.len() as int) == cb
}

/// Whether the file name of `p` has the extension `ext`, which holds no
/// `.`: the file name is not `..` and ends in `.` and `ext` after at least
/// one other character.
pub open spec fn has_extension_of(p: Seq<char>, ext: Seq<char>) -> bool {
    let cp = components_of(p);
    cp.len() > 0 && cp.last() != seq!['.', '.'] && cp.last().len() > ext.len() + 1 && cp.last().skip(
        cp.last().len() - ext.len() - 1,
    ) == seq!['.'] + ext
}

pub open spec fn is_la_of(p: Seq<char>) -> bool {
    has_extension_of(p, seq!['l', 'a'])
}

/// The kind of an entry of an install tree.
#[derive(Clone, Copy, Debug, PartialEq, Eq, Structural)]
pub enum EntryKind {
    Dir,
    Symlink,
    File,
}

/// An entry of an install tree, by its path relative to the tree's root.
pub struct DestEntry {
    pub path: String,
    pub kind: EntryKind,
}

impl View for DestEntry {
    type V = (Seq<char>, EntryKind);

    open spec fn view(&self) -> (Seq<char>, EntryKind) {
        (self.path@, self.kind)
    }
}

/// What the synchronizer leaves out of the sysroot.
pub struct SyncPolicy {
    pub strip_la_files: bool,
    pub strip_docs: bool,
    pub doc_dir: String,
}

/// The work of one synchronization.
pub struct SyncPlan {
    /// Entries to create or copy into the sysroot, in walk order.
    pub copies: Vec<DestEntry>,
    /// The new manifest text.
    pub manifest: String,
    /// Sysroot-relative paths to remove, in order.
    pub removals: Vec<String>,
}

pub open spec fn excluded(pol: &SyncPolicy, p: Seq<char>) -> bool {
    (pol.strip_la_files && is_la_of(p)) || (pol.strip_docs && under_of(p, pol.doc_dir@))
}

/// The entries that survive the policy, in order.
pub open spec fn kept(pol: &SyncPolicy, entries: Seq<(Seq<char>, EntryKind)>) -> Seq<
    (Seq<char>, EntryKind),
>
    decreases entries.len(),
{
    if entries.len() == 0 {
        seq![]
    } else {
        let rest = kept(pol, entries.drop_last());
        if excluded(pol, entries.last().0) {
            rest
        } else {
            rest.push(entries.last())
        }
    }
}

/// One path per line, each followed by a newline.
pub open spec fn manifest_of(entries: Seq<(Seq<char>, EntryKind)>) -> Seq<char>
    decreases entries.len(),
{
    if entries.len() == 0 {
        seq![]
    } else {
        manifest_of(entries.drop_last()) + entries.last().0 + seq!['\n']
    }
}

/// The lines of the previous manifest that the current one lacks, last
/// line first, each exactly as written, blank ones left out.
pub open spec fn stale_of(previous: Seq<Seq<char>>, current: Seq<Seq<char>>) -> Seq<Seq<char>>
    decreases previous.len(),
{
    if previous.len() == 0 {
        seq![]
    } else {
        let l = previous.last();
        (if !current.contains(l) && trim_of(l).len() > 0 {
            seq![l]
        } else {
            seq![]
        }) + stale_of(previous.drop_last(), current)
    }
}

pub fn split_on(s: &str, sep: char) -> (r: (Vec<String>, String))
    ensures
        (r.0.deep_view(), r.1@) == split_scan(s@, sep),
{
    let n = s.unicode_len();
    let mut done: Vec<String> = Vec::new();
    let mut start: usize = 0;
    let mut i: usize = 0;
    assert(s@.take(0) =~= Seq::<char>::empty());
    assert(done.deep_view() =~= Seq::<Seq<char>>::empty());
    assert(s@.subrange(0, 0) =~= Seq::<char>::empty());
    while i < n
        invariant
            start <= i <= n == s@.len(),
            split_scan(s@.take(i as int), sep) == (done.deep_view(), s@.subrange(
                start as int,
                i as int,
            )),
        decreases n - i,
    {
        assert(s@.take(i + 1).drop_last() =~= s@.take(i as int));
        assert(s@.take(i + 1).last() == s@[i as int]);
        if s.get_char(i) == sep {
            let ghost before = done.deep_view();
            done.push(String::from_str(s.substring_char(start, i)));
            assert(done.deep_view() =~= before.push(s@.subrange(start as int, i as int)));
            start = i + 1;
            assert(s@.subrange(start as int, i + 1) =~= Seq::<char>::empty());
        } else {
            assert(s@.subrange(start as int, i + 1) =~= s@.subrange(start as int, i as int).push(
                s@[i as int],
            ));
        }
        i = i + 1;
    }
    assert(s@.take(n as int) =~= s@);
    (done, String::from_str(s.substring_char(start, n)))
}

fn strip_cr_text(line: &String) -> (r: String)
    ensures
        r@ == strip_cr(line@),
{
    let n = line.as_str().unicode_len();
    if n > 0 && line.as_str().get_char(n - 1) == '\r' {
        String::from_str(line.as_str().substring_char(0, n - 1))
    } else {
        line.clone()
    }
}

/// The lines of a text, as `str::lines` splits it.
pub fn split_lines(s: &str) -> (r: Vec<String>)
    ensures
        r.deep_view() == lines_of(s@),
{
    let (done, cur) = split_on(s, '\n');
    let mut out: Vec<String> = Vec::new();
    let mut i: usize = 0;
    while i < done.len()
        invariant
            i <= done.len(),
            out.deep_view() =~= done.deep_view().take(i as int).map_values(
                |l: Seq<char>| strip_cr(l),
            ),
        decreases done.len() - i,
    {
        let ghost before = out.deep_view();
        out.push(strip_cr_text(&done[i]));
        assert(out.deep_view() =~= before.push(strip_cr(done.deep_view()[i as int])));
        assert(done.deep_view().take(i + 1) =~= done.deep_view().take(i as int).push(
            done.deep_view()[i as int],
        ));
        i = i + 1;
    }
    assert(done.deep_view().take(i as int) =~= done.deep_view());
    if !cur.as_str().is_empty() {
        let ghost before = out.deep_view();
        out.push(cur);
        assert(out.deep_view() =~= before + seq![cur@]);
    } else {
        assert(out.deep_view() =~= out.deep_view() + Seq::<Seq<char>>::empty());
    }
    out
}

/// The named components of a path.
pub fn path_components(p: &str) -> (r: Vec<String>)
    ensures
        r.deep_view() == components_of(p@),
{
    let (mut parts, cur) = split_on(p, '/');
    let ghost done = parts.deep_view();
    parts.push(cur);
    let ghost all = parts.deep_view();
    assert(all =~= done.push(cur@));
    let mut out: Vec<String> = Vec::new();
    let mut i: usize = 0;
    assert(all.take(0) =~= Seq::<Seq<char>>::empty());
    assert(out.deep_view() =~= Seq::<Seq<char>>::empty());
    while i < parts.len()
        invariant
            i <= parts.len(),
            all == parts.deep_view(),
            out.deep_view() == named_parts(all.take(i as int)),
        decreases parts.len() - i,
    {
        assert(all.take(i + 1).drop_last() =~= all.take(i as int));
        assert(all.take(i + 1).last() == parts[i as int]@);
        let n = parts[i].as_str().unicode_len();
        let dot = n == 1 && parts[i].as_str().get_char(0) == '.';
        if n > 0 && !dot {
            let ghost before = out.deep_view();
            out.push(parts[i].clone());
            assert(out.deep_view() =~= before.push(parts[i as int]@));
            assert(parts[i as int]@ != seq!['.']);
        } else {
            assert(n == 1 ==> parts[i as int]@ =~= seq!['.']);
        }
        i = i + 1;
    }
    assert(all.take(i as int) =~= all);
    out
}

/// Whether `p` lies at or under `base`, component by component.
pub fn path_under(p: &str, base: &str) -> (r: bool)
    ensures
        r == under_of(p@, base@),
{
    let cp = path_components(p);
    let cb = path_components(base);
    if cb.len() > cp.len() {
        return false;
    }
    let mut i: usize = 0;
    while i < cb.len()
        invariant
            i <= cb.len() <= cp.len(),
            cp.deep_view() == components_of(p@),
            cb.deep_view() == components_of(base@),
            cp.deep_view().take(i as int) == cb.deep_view().take(i as int),
        decreases cb.len() - i,
    {
        if cp[i] != cb[i] {
            assert(cp.deep_view()[i as int] != cb.deep_view()[i as int]);
            assert(cp.deep_view().take(cb.len() as int)[i as int] != cb.deep_view()[i as int]);
            assert(cp.deep_view().take(cb.len() as int) != cb.deep_view());
            return false;
        }
        assert(cp.deep_view().take(i + 1) =~= cb.deep_view().take(i + 1));
        i = i + 1;
    }
    assert(cb.deep_view().take(i as int) =~= cb.deep_view());
    true
}

/// Whether the file name of `p` has the extension `ext`.
pub fn has_extension(p: &str, ext: &str) -> (r: bool)
    ensures
        r == has_extension_of(p@, ext@),
{
    let cp = path_components(p);
    let k = cp.len();
    if k == 0 {
        return false;
    }
    let last = cp[k - 1].as_str();
    let n = last.unicode_len();
    let m = ext.unicode_len();
    assert(cp.deep_view().last() == last@);
    if n == 2 && last.get_char(0) == '.' && last.get_char(1) == '.' {
        assert(last@ =~= seq!['.', '.']);
        return false;
    }
    assert(n == 2 ==> last@ != seq!['.', '.']);
    if m >= n || n - m == 1 {
        return false;
    }
    let ghost tail = last@.skip(n - m - 1);
    if last.get_char(n - m - 1) != '.' {
        assert(tail[0] != (seq!['.'] + ext@)[0]);
        return false;
    }
    let mut i: usize = 0;
    while i < m
        invariant
            i <= m == ext@.len(),
            n == last@.len() > m + 1,
            tail == last@.skip(n - m - 1),
            tail[0] == '.',
            components_of(p@).len() > 0,
            components_of(p@).last() == last@,
            last@ != seq!['.', '.'],
            forall|q: int| 0 <= q < i ==> tail[q + 1] == ext@[q],
        decreases m - i,
    {
        if last.get_char(n - m + i) != ext.get_char(i) {
            assert(tail[i + 1] == last@[n - m + i]);
            assert(tail[i + 1] != (seq!['.'] + ext@)[i + 1]);
            return false;
        }
        i = i + 1;
    }
    assert(tail =~= seq!['.'] + ext@);
    true
}

pub fn is_la_file(p: &str) -> (r: bool)
    ensures
        r == is_la_of(p@),
{
    let la = "la";
    proof {
        reveal_strlit("la");
    }
    assert(la@ =~= seq!['l', 'a']);
    has_extension(p, la)
}

/// Whether the policy leaves `p` out of the sysroot.
pub fn is_excluded(policy: &SyncPolicy, p: &str) -> (r: bool)
    ensures
        r == excluded(policy, p@),
{
    (policy.strip_la_files && is_la_file(p)) || (policy.strip_docs && path_under(
        p,
        policy.doc_dir.as_str(),
    ))
}

fn contains_line(v: &Vec<String>, s: &String) -> (r: bool)
    ensures
        r == v.deep_view().contains(s@),
{
    let mut i: usize = 0;
    while i < v.len()
        invariant
            i <= v.len(),
            forall|k: int| 0 <= k < i ==> v.deep_view()[k] != s@,
        decreases v.len() - i,
    {
        if v[i] == *s {
            assert(v.deep_view()[i as int] == s@);
            return true;
        }
        i = i + 1;
    }
    false
}

/// Plans one synchronization of an install tree, given the entries of the
/// tree in walk order and the previous manifest's text.
pub fn plan_sync(entries: &Vec<DestEntry>, previous: &str, policy: &SyncPolicy) -> (r: SyncPlan)
    ensures
        r.copies@.map_values(|e: DestEntry| e@) == kept(
            policy,
            entries@.map_values(|e: DestEntry| e@),
        ),
        r.manifest@ == manifest_of(r.copies@.map_values(|e: DestEntry| e@)),
        r.removals.deep_view() == stale_of(lines_of(previous@), lines_of(r.manifest@)),
        forall|k: int|
            0 <= k < r.removals.len() ==> !lines_of(r.manifest@).contains(
                #[trigger] r.removals.deep_view()[k],
            ),
{
    let ghost ev = entries@.map_values(|e: DestEntry| e@);
    let mut copies: Vec<DestEntry> = Vec::new();
    let mut manifest = String::new();
    let mut i: usize = 0;
    assert(ev.take(0) =~= Seq::<(Seq<char>, EntryKind)>::empty());
    assert(copies@.map_values(|e: DestEntry| e@) =~= Seq::<(Seq<char>, EntryKind)>::empty());
    while i < entries.len()
        invariant
            i <= entries.len(),
            ev == entries@.map_values(|e: DestEntry| e@),
            copies@.map_values(|e: DestEntry| e@) == kept(policy, ev.take(i as int)),
            manifest@ == manifest_of(copies@.map_values(|e: DestEntry| e@)),
        decreases entries.len() - i,
    {
        assert(ev.take(i + 1).drop_last() =~= ev.take(i as int));
        assert(ev.take(i + 1).last() == entries[i as int]@);
        if !is_excluded(policy, entries[i].path.as_str()) {
            let ghost before = copies@.map_values(|e: DestEntry| e@);
            let e = DestEntry { path: entries[i].path.clone(), kind: entries[i].kind };
            let newline = "\n";
            proof {
                reveal_strlit("\n");
            }
            manifest.append(e.path.as_str());
            manifest.append(newline);
            copies.push(e);
            assert(copies@.map_values(|e: DestEntry| e@) =~= before.push(e@));
            assert(copies@.map_values(|e: DestEntry| e@).drop_last() =~= before);
        }
        i = i + 1;
    }
    assert(ev.take(i as int) =~= ev);
    let previous_lines = split_lines(previous);
    let current_lines = split_lines(manifest.as_str());
    let ghost pl = previous_lines.deep_view();
    let ghost cl = current_lines.deep_view();
    let mut removals: Vec<String> = Vec::new();
    let mut k: usize = previous_lines.len();
    assert(pl.take(k as int) =~= pl);
    assert(removals.deep_view() + stale_of(pl.take(k as int), cl) =~= stale_of(pl, cl));
    while k > 0
        invariant
            k <= previous_lines.len(),
            pl == previous_lines.deep_view(),
            cl == current_lines.deep_view(),
            removals.deep_view() + stale_of(pl.take(k as int), cl) == stale_of(pl, cl),
        decreases k,
    {
        let line = &previous_lines[k - 1];
        assert(pl.take(k as int).drop_last() =~= pl.take(k - 1));
        assert(pl.take(k as int).last() == line@);
        let ghost before = removals.deep_view();
        if !contains_line(&current_lines, line) {
            if !trim(line.as_str()).as_str().is_empty() {
                removals.push(line.clone());
                assert(removals.deep_view() =~= before + seq![line@]);
            } else {
                assert(removals.deep_view() =~= before + Seq::<Seq<char>>::empty());
            }
        } else {
            assert(removals.deep_view() =~= before + Seq::<Seq<char>>::empty());
        }
        k = k - 1;
    }
    assert(removals.deep_view() =~= removals.deep_view() + stale_of(pl.take(0), cl));
    proof {
        lemma_removals_stale(pl, cl);
    }
    SyncPlan { copies, manifest, removals }
}

proof fn lemma_stale_of_covered(previous: Seq<Seq<char>>, current: Seq<Seq<char>>)
    requires
        forall|k: int| 0 <= k < previous.len() ==> current.contains(#[trigger] previous[k]),
    ensures
        stale_of(previous, current).len() == 0,
    decreases previous.len(),
{
    if previous.len() > 0 {
        assert(current.contains(previous[previous.len() - 1]));
        assert forall|k: int| 0 <= k < previous.drop_last().len() implies current.contains(
            #[trigger] previous.drop_last()[k],
        ) by {
            assert(previous.drop_last()[k] == previous[k]);
        }
        lemma_stale_of_covered(previous.drop_last(), current);
    }
}

/// Synchronizing an unchanged tree a second time, with the first sync's
/// manifest as the previous one, writes the same manifest and removes nothing.
pub proof fn lemma_sync_idempotent(
    policy: &SyncPolicy,
    entries: Seq<(Seq<char>, EntryKind)>,
    previous: Seq<char>,
)
    ensures
        ({
            let first = manifest_of(kept(policy, entries));
            stale_of(lines_of(first), lines_of(first)).len() == 0
        }),
{
    let m = lines_of(manifest_of(kept(policy, entries)));
    assert forall|k: int| 0 <= k < m.len() implies m.contains(#[trigger] m[k]) by {}
    lemma_stale_of_covered(m, m);
}

/// Nothing that the policy excludes is copied into the sysroot, and only
/// copied entries make the manifest.
pub proof fn lemma_excluded_never_kept(policy: &SyncPolicy, entries: Seq<(Seq<char>, EntryKind)>)
    ensures
        forall|k: int|
            0 <= k < kept(policy, entries).len() ==> !excluded(
                policy,
                (#[trigger] kept(policy, entries)[k]).0,
            ) && entries.contains(kept(policy, entries)[k]),
    decreases entries.len(),
{
    if entries.len() > 0 {
        lemma_excluded_never_kept(policy, entries.drop_last());
        let rest = kept(policy, entries.drop_last());
        assert forall|k: int|
            0 <= k < kept(policy, entries).len() implies !excluded(
            policy,
            (#[trigger] kept(policy, entries)[k]).0,
        ) && entries.contains(kept(policy, entries)[k]) by {
            if k < rest.len() {
                assert(kept(policy, entries)[k] == rest[k]);
                assert(entries.drop_last().contains(rest[k]));
                let q = choose|q: int| 0 <= q < entries.drop_last().len() && entries.drop_last()[q]
                    == rest[k];
                assert(entries[q] == rest[k]);
            } else {
                assert(kept(policy, entries)[k] == entries.last());
                assert(entries[entries.len() - 1] == entries.last());
            }
        }
    }
}

/// A path that synchronization removes is never a line of the new manifest,
/// and always a line of the previous one.
pub proof fn lemma_removals_stale(previous: Seq<Seq<char>>, current: Seq<Seq<char>>)
    ensures
        forall|k: int|
            0 <= k < stale_of(previous, current).len() ==> !current.contains(
                #[trigger] stale_of(previous, current)[k],
            ) && previous.contains(stale_of(previous, current)[k]),
    decreases previous.len(),
{
    if previous.len() > 0 {
        let rest = previous.drop_last();
        lemma_removals_stale(rest, current);
        let l = previous.last();
        let head: Seq<Seq<char>> = if !current.contains(l) && trim_of(l).len() > 0 {
            seq![l]
        } else {
            seq![]
        };
        let st = stale_of(previous, current);
        assert(st == head + stale_of(rest, current));
        assert forall|k: int| 0 <= k < st.len() implies !current.contains(#[trigger] st[k])
            && previous.contains(st[k]) by {
            if k < head.len() {
                assert(st[k] == l);
                assert(previous[previous.len() - 1] == l);
            } else {
                let r = stale_of(rest, current);
                assert(st[k] == r[k - head.len()]);
                let q = choose|q: int| 0 <= q < rest.len() && rest[q] == r[k - head.len()];
                assert(previous[q] == rest[q]);
            }
        }
    }
}

/// What removing an installed package deletes, given its manifest: every
/// listed path, last line first, exactly as written, blank lines left out.
pub fn removal_order(manifest: &str) -> (r: Vec<String>)
    ensures
        r.deep_view() == stale_of(lines_of(manifest@), seq![]),
{
    let lines = split_lines(manifest);
    let ghost pl = lines.deep_view();
    let mut out: Vec<String> = Vec::new();
    let mut k: usize = lines.len();
    assert(pl.take(k as int) =~= pl);
    assert(out.deep_view() + stale_of(pl.take(k as int), seq![]) =~= stale_of(pl, seq![]));
    while k > 0
        invariant
            k <= lines.len(),
            pl == lines.deep_view(),
            out.deep_view() + stale_of(pl.take(k as int), seq![]) == stale_of(pl, seq![]),
        decreases k,
    {
        let line = &lines[k - 1];
        assert(pl.take(k as int).drop_last() =~= pl.take(k - 1));
        assert(pl.take(k as int).last() == line@);
        assert(!Seq::<Seq<char>>::empty().contains(line@));
        let ghost before = out.deep_view();
        if !trim(line.as_str()).as_str().is_empty() {
            out.push(line.clone());
            assert(out.deep_view() =~= before + seq![line@]);
        } else {
            assert(out.deep_view() =~= before + Seq::<Seq<char>>::empty());
        }
        k = k - 1;
    }
    assert(out.deep_view() =~= out.deep_view() + stale_of(pl.take(0), seq![]));
    out
}

proof fn lemma_split_scan_plain(s: Seq<char>, t: Seq<char>, sep: char)
    requires
        !t.contains(sep),
    ensures
        split_scan(s + t, sep) == (split_scan(s, sep).0, split_scan(s, sep).1 + t),
    decreases t.len(),
{
    if t.len() == 0 {
        assert(s + t =~= s);
        assert(split_scan(s, sep).1 + t =~= split_scan(s, sep).1);
    } else {
        let t2 = t.drop_last();
        assert((s + t).drop_last() =~= s + t2);
        assert((s + t).last() == t.last());
        assert(t[t.len() - 1] != sep);
        assert forall|i: int| 0 <= i < t2.len() implies t2[i] != sep by {
            assert(t2[i] == t[i]);
        }
        lemma_split_scan_plain(s, t2, sep);
        assert((split_scan(s, sep).1 + t2).push(t.last()) =~= split_scan(s, sep).1 + t);
    }
}

proof fn lemma_manifest_scan(entries: Seq<(Seq<char>, EntryKind)>)
    requires
        forall|k: int| 0 <= k < entries.len() ==> !(#[trigger] entries[k]).0.contains('\n'),
    ensures
        split_scan(manifest_of(entries), '\n') == (
            entries.map_values(|e: (Seq<char>, EntryKind)| e.0),
            Seq::<char>::empty(),
        ),
    decreases entries.len(),
{
    if entries.len() == 0 {
        assert(entries.map_values(|e: (Seq<char>, EntryKind)| e.0) =~= Seq::<Seq<char>>::empty());
    } else {
        let rest = entries.drop_last();
        assert forall|k: int| 0 <= k < rest.len() implies !(#[trigger] rest[k]).0.contains('\n') by {
            assert(rest[k] == entries[k]);
        }
        lemma_manifest_scan(rest);
        let m0 = manifest_of(rest);
        let p = entries.last().0;
        assert(entries[entries.len() - 1] == entries.last());
        lemma_split_scan_plain(m0, p, '\n');
        let m = manifest_of(entries);
        assert(m =~= m0 + p + seq!['\n']);
        assert(m.drop_last() =~= m0 + p);
        assert(Seq::<char>::empty() + p =~= p);
        assert(entries.map_values(|e: (Seq<char>, EntryKind)| e.0) =~= rest.map_values(
            |e: (Seq<char>, EntryKind)| e.0,
        ).push(p));
    }
}

/// With doc or `.la` stripping on, an excluded path is neither copied into
/// the sysroot nor among the lines of the manifest, provided no entry's path
/// holds a line break the manifest's one-path-per-line format cannot carry.
pub proof fn lemma_excluded_never_listed(
    policy: &SyncPolicy,
    entries: Seq<(Seq<char>, EntryKind)>,
    path: Seq<char>,
)
    requires
        excluded(policy, path),
        forall|k: int|
            0 <= k < entries.len() ==> !(#[trigger] entries[k]).0.contains('\n') && !(
            entries[k].0.len() > 0 && entries[k].0.last() == '\r'),
    ensures
        forall|k: int|
            0 <= k < kept(policy, entries).len() ==> (#[trigger] kept(policy, entries)[k]).0
                != path,
        !lines_of(manifest_of(kept(policy, entries))).contains(path),
{
    let ks = kept(policy, entries);
    lemma_excluded_never_kept(policy, entries);
    assert forall|k: int| 0 <= k < ks.len() implies !(#[trigger] ks[k]).0.contains('\n') && !(
    ks[k].0.len() > 0 && ks[k].0.last() == '\r') by {
        assert(entries.contains(ks[k]));
        let q = choose|q: int| 0 <= q < entries.len() && entries[q] == ks[k];
        assert(!entries[q].0.contains('\n'));
    }
    lemma_manifest_scan(ks);
    let lines = lines_of(manifest_of(ks));
    let paths = ks.map_values(|e: (Seq<char>, EntryKind)| e.0);
    assert(lines =~= paths.map_values(|l: Seq<char>| strip_cr(l)) + Seq::<Seq<char>>::empty());
    if lines.contains(path) {
        let q = choose|q: int| 0 <= q < lines.len() && lines[q] == path;
        assert(lines[q] == strip_cr(ks[q].0));
        assert(strip_cr(ks[q].0) == ks[q].0);
        assert(!excluded(policy, ks[q].0));
    }
}

/// Whether a package syncs this turn: only target packages do, a dependency
/// whose previous manifest lists something is already installed, and a
/// requested package syncs when the user asked for it.
pub open spec fn syncs(host: bool, user_requested: bool, sync_requested: bool, previous: Seq<char>) -> bool {
    &&& !host
    &&& (user_requested || trim_of(previous).len() == 0)
    &&& (!user_requested || sync_requested)
}

pub fn should_sync(host: bool, user_requested: bool, sync_requested: bool, previous: &str) -> (r:
    bool)
    ensures
        r == syncs(host, user_requested, sync_requested, previous@),
{
    if !user_requested && !trim(previous).as_str().is_empty() {
        return false;
    }
    !host && (!user_requested || sync_requested)
}

} // verus!
