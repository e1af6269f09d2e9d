//! The copies that recording, applying and restoring a version consist of.
//!
//! Recording copies each listed file that no excluded path covers to its
//! place under the version root. Applying recovers each stored file's
//! original path and, for every mapping whose source is a prefix of it,
//! copies it to the same place under the mapping's target. Restoring copies
//! each stored file back to its recovered path.
use vstd::prelude::*;
use crate::path::{
    chars_of, eq_chars, join, join_chars, layout, recover, skip_chars, slice_chars,
    starts_with_chars, string_of, texts, trim_leading_slashes, trim_slashes,
};
use crate::plan::{steps, Action, Step};

verus! {

/// `f` is the path `e` or lies below it.
pub open spec fn under(f: Seq<char>, e: Seq<char>) -> bool {
    f == e || (e + seq!['/']).is_prefix_of(f)
}

/// `a` ends with the path `e`, whole components only: `a` is `e`, or `a`
/// ends with `/` followed by `e`.
pub open spec fn ends_with_path(a: Seq<char>, e: Seq<char>) -> bool {
    a == e || (e.len() < a.len() && a.skip(a.len() - e.len()) == e && a[a.len() - e.len() - 1]
        == '/')
}

/// The prefix of `f` of length `k` is an entry met while walking down from
/// `root` to `f`: it is longer than the root and ends where a component of
/// `f` ends.
pub open spec fn entry_end(f: Seq<char>, root: Seq<char>, k: int) -> bool {
    root.len() < k <= f.len() && (k == f.len() || f[k] == '/')
}

/// A file listed under `root` is left out when an entry met while walking
/// down from the root to it (never the root itself) ends with an excluded
/// path: an excluded directory is left out with all it holds.
pub open spec fn pruned(f: Seq<char>, root: Seq<char>, excludes: Seq<Seq<char>>) -> bool {
    exists|k: int, j: int|
        entry_end(f, root, k) && 0 <= j < excludes.len() && #[trigger] ends_with_path(
            f.subrange(0, k),
            excludes[j],
        )
}

/// The copies that store the files listed under `root` in the version
/// directory `dir`, in the order of the listing.
pub open spec fn copies_into(
    files: Seq<Seq<char>>,
    root: Seq<char>,
    excludes: Seq<Seq<char>>,
    dir: Seq<char>,
) -> Seq<Step>
    decreases files.len(),
{
    if files.len() == 0 {
        seq![]
    } else {
        let rest = copies_into(files.drop_first(), root, excludes, dir);
        if pruned(files[0], root, excludes) {
            rest
        } else {
            seq![Step::Copy(files[0], layout(files[0], dir), false)] + rest
        }
    }
}

/// The copies that store, root after root, the files listed under each root.
pub open spec fn snapshot(
    roots: Seq<Seq<char>>,
    listings: Seq<Seq<Seq<char>>>,
    excludes: Seq<Seq<char>>,
    dir: Seq<char>,
) -> Seq<Step>
    decreases roots.len(),
{
    if roots.len() == 0 || listings.len() == 0 {
        seq![]
    } else {
        copies_into(listings[0], roots[0], excludes, dir) + snapshot(
            roots.drop_first(),
            listings.drop_first(),
            excludes,
            dir,
        )
    }
}

/// Where a recovered path `p` goes under a mapping: when the source is a
/// prefix of `p`, the rest of `p` with its leading slashes trimmed, joined
/// onto the target.
pub open spec fn destination(p: Seq<char>, source: Seq<char>, target: Seq<char>) -> Option<
    Seq<char>,
> {
    if source.is_prefix_of(p) {
        Some(join(target, trim_slashes(p.skip(source.len() as int))))
    } else {
        None
    }
}

/// The copies that apply the files stored under `root` for one mapping.
pub open spec fn apply_one(
    m: (Seq<char>, Seq<char>),
    stored: Seq<Seq<char>>,
    root: Seq<char>,
    force: bool,
) -> Seq<Step>
    decreases stored.len(),
{
    if stored.len() == 0 {
        seq![]
    } else {
        let rest = apply_one(m, stored.drop_first(), root, force);
        match recover(stored[0], root) {
            Some(p) => match destination(p, m.0, m.1) {
                Some(d) => seq![Step::Copy(stored[0], d, force)] + rest,
                None => rest,
            },
            None => rest,
        }
    }
}

/// The copies that apply the files stored under `root`, mapping after mapping.
pub open spec fn apply_steps(
    mappings: Seq<(Seq<char>, Seq<char>)>,
    stored: Seq<Seq<char>>,
    root: Seq<char>,
    force: bool,
) -> Seq<Step>
    decreases mappings.len(),
{
    if mappings.len() == 0 {
        seq![]
    } else {
        apply_one(mappings[0], stored, root, force) + apply_steps(
            mappings.drop_first(),
            stored,
            root,
            force,
        )
    }
}

/// The copies that put each file stored under `root` back at the path it
/// stands for.
pub open spec fn restore_steps(stored: Seq<Seq<char>>, root: Seq<char>) -> Seq<Step>
    decreases stored.len(),
{
    if stored.len() == 0 {
        seq![]
    } else {
        let rest = restore_steps(stored.drop_first(), root);
        match recover(stored[0], root) {
            Some(p) => seq![Step::Copy(stored[0], p, false)] + rest,
            None => rest,
        }
    }
}

pub(crate) fn push_action(plan: &mut Vec<Action>, a: Action)
    ensures
        steps(final(plan)@) == steps(old(plan)@).push(a@),
{
    let ghost before = plan@;
    plan.push(a);
    assert(steps(plan@) =~= steps(before).push(a@));
}

proof fn lemma_step_front(all: Seq<Step>, done: Seq<Step>, s: Step, rest: Seq<Step>)
    requires
        all == done + (seq![s] + rest),
    ensures
        all == done.push(s) + rest,
{
    assert(done + (seq![s] + rest) =~= done.push(s) + rest);
}

fn ends_with_path_chars(a: &Vec<char>, e: &Vec<char>) -> (r: bool)
    ensures
        r == ends_with_path(a@, e@),
{
    if eq_chars(a, e) {
        return true;
    }
    if e.len() >= a.len() {
        return false;
    }
    let start = a.len() - e.len();
    a[start - 1] == '/' && eq_chars(&skip_chars(a, start), e)
}

/// Whether `a` ends with one of the excluded paths.
fn ends_with_any(a: &Vec<char>, excludes: &Vec<String>) -> (r: bool)
    ensures
        r == exists|j: int| 0 <= j < excludes@.len() && ends_with_path(a@, texts(excludes@)[j]),
{
    let ghost ex = texts(excludes@);
    let mut j: usize = 0;
    while j < excludes.len()
        invariant
            j <= excludes@.len(),
            ex == texts(excludes@),
            forall|j2: int| 0 <= j2 < j ==> !ends_with_path(a@, ex[j2]),
        decreases excludes.len() - j,
    {
        let e = chars_of(excludes[j].as_str());
        assert(ex[j as int] == e@);
        if ends_with_path_chars(a, &e) {
            return true;
        }
        j = j + 1;
    }
    false
}

/// Whether a file listed under a root of length `root_len` is left out.
fn is_pruned(f: &Vec<char>, root_len: usize, excludes: &Vec<String>) -> (r: bool)
    ensures
        forall|root: Seq<char>| root.len() == root_len ==> (r == pruned(f@, root, texts(excludes@))),
{
    let ghost ex = texts(excludes@);
    if root_len >= f.len() {
        proof {
            assert forall|root: Seq<char>| root.len() == root_len implies !pruned(f@, root, ex) by {
                assert forall|k2: int, j: int|
                    entry_end(f@, root, k2) && 0 <= j < ex.len() implies !ends_with_path(
                    f@.subrange(0, k2),
                    ex[j],
                ) by {}
            }
        }
        return false;
    }
    let mut k: usize = root_len + 1;
    while k < f.len()
        invariant
            root_len < f@.len(),
            root_len + 1 <= k <= f@.len(),
            ex == texts(excludes@),
            forall|k2: int, j: int|
                root_len < k2 < k && f@[k2] == '/' && 0 <= j < ex.len() ==> !ends_with_path(
                    f@.subrange(0, k2),
                    ex[j],
                ),
        decreases f.len() - k,
    {
        if f[k] == '/' {
            let a = slice_chars(f, 0, k);
            if ends_with_any(&a, excludes) {
                proof {
                    let j = choose|j: int| 0 <= j < ex.len() && ends_with_path(a@, ex[j]);
                    assert forall|root: Seq<char>| root.len() == root_len implies pruned(
                        f@,
                        root,
                        ex,
                    ) by {
                        assert(entry_end(f@, root, k as int));
                        assert(ends_with_path(f@.subrange(0, k as int), ex[j]));
                    }
                }
                return true;
            }
        }
        k = k + 1;
    }
    let whole = slice_chars(f, 0, f.len());
    let r = ends_with_any(&whole, excludes);
    proof {
        if r {
            let j = choose|j: int| 0 <= j < ex.len() && ends_with_path(whole@, ex[j]);
            assert forall|root: Seq<char>| root.len() == root_len implies pruned(f@, root, ex) by {
                assert(entry_end(f@, root, f@.len() as int));
                assert(ends_with_path(f@.subrange(0, f@.len() as int), ex[j]));
            }
        } else {
            assert forall|root: Seq<char>| root.len() == root_len implies !pruned(f@, root, ex) by {
                assert forall|k2: int, j: int|
                    entry_end(f@, root, k2) && 0 <= j < ex.len() implies !ends_with_path(
                    f@.subrange(0, k2),
                    ex[j],
                ) by {
                    if k2 == f@.len() {
                        assert(!ends_with_path(whole@, ex[j]));
                    }
                }
            }
        }
    }
    r
}

/// Appends to `plan` the copies that store the files `files`, listed under
/// `root`, in the directory `dir`.
pub(crate) fn push_copies_into(
    plan: &mut Vec<Action>,
    files: &Vec<String>,
    root: &str,
    excludes: &Vec<String>,
    dir: &str,
)
    ensures
        steps(final(plan)@) == steps(old(plan)@) + copies_into(
            texts(files@),
            root@,
            texts(excludes@),
            dir@,
        ),
{
    let ghost all = texts(files@);
    let ghost start = steps(plan@);
    let root_len = chars_of(root).len();
    let d = chars_of(dir);
    let mut i: usize = 0;
    assert(all.skip(0) =~= all);
    while i < files.len()
        invariant
            i <= files@.len(),
            all == texts(files@),
            root_len == root@.len(),
            d@ == dir@,
            start + copies_into(all, root@, texts(excludes@), dir@) == steps(plan@) + copies_into(
                all.skip(i as int),
                root@,
                texts(excludes@),
                dir@,
            ),
        decreases files.len() - i,
    {
        let ghost rest = all.skip(i as int);
        assert(rest[0] == files@[i as int]@);
        assert(rest.drop_first() =~= all.skip(i + 1));
        let f = chars_of(files[i].as_str());
        if !is_pruned(&f, root_len, excludes) {
            let to = join_chars(&d, &trim_leading_slashes(&f));
            let a = Action::Copy {
                from: string_of(f.as_slice()),
                to: string_of(to.as_slice()),
                replace_parent: false,
            };
            proof {
                lemma_step_front(
                    steps(plan@) + copies_into(rest, root@, texts(excludes@), dir@),
                    steps(plan@),
                    a@,
                    copies_into(all.skip(i + 1), root@, texts(excludes@), dir@),
                );
            }
            push_action(plan, a);
        }
        i = i + 1;
    }
    assert(all.skip(i as int) =~= seq![]);
    assert(steps(plan@) + seq![] =~= steps(plan@));
}

/// The copies that store, root after root, the files listed under each root
/// in the version directory `dir`.
pub fn snapshot_plan(
    roots: &Vec<String>,
    listings: &Vec<Vec<String>>,
    excludes: &Vec<String>,
    dir: &str,
) -> (r: Vec<Action>)
    requires
        listings@.len() == roots@.len(),
    ensures
        steps(r@) == snapshot(
            texts(roots@),
            listings@.map_values(|l: Vec<String>| texts(l@)),
            texts(excludes@),
            dir@,
        ),
{
    let ghost rs = texts(roots@);
    let ghost ls = listings@.map_values(|l: Vec<String>| texts(l@));
    let mut plan: Vec<Action> = Vec::new();
    let mut i: usize = 0;
    assert(rs.skip(0) =~= rs);
    assert(ls.skip(0) =~= ls);
    assert(steps(plan@) =~= seq![]);
    while i < roots.len()
        invariant
            i <= roots@.len(),
            listings@.len() == roots@.len(),
            rs == texts(roots@),
            ls == listings@.map_values(|l: Vec<String>| texts(l@)),
            snapshot(rs, ls, texts(excludes@), dir@) == steps(plan@) + snapshot(
                rs.skip(i as int),
                ls.skip(i as int),
                texts(excludes@),
                dir@,
            ),
        decreases roots.len() - i,
    {
        assert(rs.skip(i as int)[0] == roots@[i as int]@);
        assert(ls.skip(i as int)[0] == texts(listings@[i as int]@));
        assert(rs.skip(i as int).drop_first() =~= rs.skip(i + 1));
        assert(ls.skip(i as int).drop_first() =~= ls.skip(i + 1));
        let ghost before = steps(plan@);
        push_copies_into(&mut plan, &listings[i], roots[i].as_str(), excludes, dir);
        proof {
            let c = copies_into(texts(listings@[i as int]@), roots@[i as int]@, texts(excludes@), dir@);
            let tail = snapshot(rs.skip(i + 1), ls.skip(i + 1), texts(excludes@), dir@);
            assert(before + (c + tail) =~= (before + c) + tail);
        }
        i = i + 1;
    }
    assert(rs.skip(i as int) =~= seq![]);
    assert(steps(plan@) + seq![] =~= steps(plan@));
    plan
}

/// Appends to `plan` the copies that apply the files stored under `root`
/// for the mapping from `source` to `target`.
fn push_apply_one(
    plan: &mut Vec<Action>,
    source: &str,
    target: &str,
    stored: &Vec<String>,
    root: &str,
    force: bool,
)
    ensures
        steps(final(plan)@) == steps(old(plan)@) + apply_one(
            (source@, target@),
            texts(stored@),
            root@,
            force,
        ),
{
    let ghost all = texts(stored@);
    let ghost m = (source@, target@);
    let ghost start = steps(plan@);
    let src = chars_of(source);
    let tgt = chars_of(target);
    let rt = chars_of(root);
    let mut i: usize = 0;
    assert(all.skip(0) =~= all);
    while i < stored.len()
        invariant
            i <= stored@.len(),
            all == texts(stored@),
            m == (source@, target@),
            src@ == source@,
            tgt@ == target@,
            rt@ == root@,
            start + apply_one(m, all, root@, force) == steps(plan@) + apply_one(
                m,
                all.skip(i as int),
                root@,
                force,
            ),
        decreases stored.len() - i,
    {
        let ghost rest = all.skip(i as int);
        assert(rest[0] == stored@[i as int]@);
        assert(rest.drop_first() =~= all.skip(i + 1));
        let s = chars_of(stored[i].as_str());
        if starts_with_chars(&s, &rt) {
            let p = skip_chars(&s, rt.len());
            if starts_with_chars(&p, &src) {
                let d = join_chars(&tgt, &trim_leading_slashes(&skip_chars(&p, src.len())));
                let a = Action::Copy {
                    from: string_of(s.as_slice()),
                    to: string_of(d.as_slice()),
                    replace_parent: force,
                };
                proof {
                    lemma_step_front(
                        steps(plan@) + apply_one(m, rest, root@, force),
                        steps(plan@),
                        a@,
                        apply_one(m, all.skip(i + 1), root@, force),
                    );
                }
                push_action(plan, a);
            }
        }
        i = i + 1;
    }
    assert(all.skip(i as int) =~= seq![]);
    assert(steps(plan@) + seq![] =~= steps(plan@));
}

/// The copies that apply the files stored under `root`, mapping after mapping.
pub fn apply_plan(
    sources: &Vec<String>,
    targets: &Vec<String>,
    stored: &Vec<String>,
    root: &str,
    force: bool,
) -> (r: Vec<Action>)
    requires
        sources@.len() == targets@.len(),
    ensures
        steps(r@) == apply_steps(
            Seq::new(sources@.len(), |k: int| (sources@[k]@, targets@[k]@)),
            texts(stored@),
            root@,
            force,
        ),
{
    let ghost ms = Seq::new(sources@.len(), |k: int| (sources@[k]@, targets@[k]@));
    let mut plan: Vec<Action> = Vec::new();
    let mut i: usize = 0;
    assert(ms.skip(0) =~= ms);
    assert(steps(plan@) =~= seq![]);
    while i < sources.len()
        invariant
            i <= sources@.len(),
            sources@.len() == targets@.len(),
            ms == Seq::new(sources@.len(), |k: int| (sources@[k]@, targets@[k]@)),
            apply_steps(ms, texts(stored@), root@, force) == steps(plan@) + apply_steps(
                ms.skip(i as int),
                texts(stored@),
                root@,
                force,
            ),
        decreases sources.len() - i,
    {
        assert(ms.skip(i as int)[0] == (sources@[i as int]@, targets@[i as int]@));
        assert(ms.skip(i as int).drop_first() =~= ms.skip(i + 1));
        let ghost before = steps(plan@);
        push_apply_one(&mut plan, sources[i].as_str(), targets[i].as_str(), stored, root, force);
        proof {
            let c = apply_one(ms[i as int], texts(stored@), root@, force);
            let tail = apply_steps(ms.skip(i + 1), texts(stored@), root@, force);
            assert(before + (c + tail) =~= (before + c) + tail);
        }
        i = i + 1;
    }
    assert(ms.skip(i as int) =~= seq![]);
    assert(steps(plan@) + seq![] =~= steps(plan@));
    plan
}

/// The copies that put each file stored under `root` back at the path it
/// stands for.
pub fn restore_plan(stored: &Vec<String>, root: &str) -> (r: Vec<Action>)
    ensures
        steps(r@) == restore_steps(texts(stored@), root@),
{
    let ghost all = texts(stored@);
    let rt = chars_of(root);
    let mut plan: Vec<Action> = Vec::new();
    let mut i: usize = 0;
    assert(all.skip(0) =~= all);
    assert(steps(plan@) =~= seq![]);
    while i < stored.len()
        invariant
            i <= stored@.len(),
            all == texts(stored@),
            rt@ == root@,
            restore_steps(all, root@) == steps(plan@) + restore_steps(all.skip(i as int), root@),
        decreases stored.len() - i,
    {
        let ghost rest = all.skip(i as int);
        assert(rest[0] == stored@[i as int]@);
        assert(rest.drop_first() =~= all.skip(i + 1));
        let s = chars_of(stored[i].as_str());
        if starts_with_chars(&s, &rt) {
            let p = skip_chars(&s, rt.len());
            let a = Action::Copy {
                from: string_of(s.as_slice()),
                to: string_of(p.as_slice()),
                replace_parent: false,
            };
            proof {
                lemma_step_front(
                    steps(plan@) + restore_steps(rest, root@),
                    steps(plan@),
                    a@,
                    restore_steps(all.skip(i + 1), root@),
                );
            }
            push_action(&mut plan, a);
        }
        i = i + 1;
    }
    assert(all.skip(i as int) =~= seq![]);
    assert(steps(plan@) + seq![] =~= steps(plan@));
    plan
}

} // verus!
