//! Laws that relate the operations on containers: the round trip from
//! recording to applying, exclusion, forced recording, backups, variable
//! resolution and path styles.
use vstd::prelude::*;
use crate::config::{
    find_from, home_name, resolution, resolve_mapping, star, style_fault, substitution, validation,
    variable_value, ConfigView,
};
use crate::error::Failure;
use crate::path::{
    is_absolute, join, lemma_layout_round_trip, layout, proper_root, recover, single_rooted,
    trim_slashes,
};
use crate::plan::{contents_after, lemma_cleared_start, Step};
use crate::qbox::QboxView;
use crate::snapshot::{
    apply_one, apply_steps, copies_into, destination, ends_with_path, entry_end, pruned,
    restore_steps, snapshot, under,
};

verus! {

// Variable resolution.

/// The path `$<name>/<rest>`.
pub open spec fn dollar_path(name: Seq<char>, rest: Seq<char>) -> Seq<char> {
    seq!['$'] + name + seq!['/'] + rest
}

proof fn lemma_find_first(s: Seq<char>, c: char, from: int, k: int)
    requires
        0 <= from <= k < s.len(),
        s[k] == c,
        forall|j: int| from <= j < k ==> s[j] != c,
    ensures
        find_from(s, c, from) == Some(k),
    decreases k - from,
{
    if from < k {
        lemma_find_first(s, c, from + 1, k);
    }
}

proof fn lemma_dollar_path(name: Seq<char>, rest: Seq<char>, home: Option<Seq<char>>)
    requires
        forall|j: int| 0 <= j < name.len() ==> name[j] != '/',
    ensures
        substitution(dollar_path(name, rest), home) == match variable_value(name, home) {
            Ok(v) => Ok(join(join(seq![], v), trim_slashes(seq!['/'] + rest))),
            Err(e) => Err(e),
        },
{
    let s = dollar_path(name, rest);
    let k: int = name.len() as int + 1;
    lemma_find_first(s, '$', 0, 0);
    assert forall|j: int| 0 <= j < k implies s[j] != '/' by {
        if j > 0 {
            assert(s[j] == name[j - 1]);
        }
    }
    assert(s[k] == '/');
    lemma_find_first(s, '/', 0, k);
    assert(s.subrange(1, k) =~= name);
    assert(s.subrange(0, 0) =~= Seq::<char>::empty());
    assert(s.skip(k) =~= seq!['/'] + rest);
}

/// A path `$HOME/<rest>` resolves to the value of `HOME` followed by `/` and
/// the rest, when the value is not empty and has no trailing slash and the
/// rest is not empty and does not start with a slash.
pub proof fn lemma_home_variable(rest: Seq<char>, h: Seq<char>)
    requires
        rest.len() > 0,
        rest[0] != '/',
        h.len() > 0,
        h.last() != '/',
    ensures
        substitution(dollar_path(home_name(), rest), Some(h)) == Ok::<Seq<char>, Failure>(
            h + seq!['/'] + rest,
        ),
{
    let n = home_name();
    assert(n[0] == 'H' && n[1] == 'O' && n[2] == 'M' && n[3] == 'E');
    lemma_dollar_path(n, rest, Some(h));
    let t = seq!['/'] + rest;
    assert(t.drop_first() =~= rest);
    assert(trim_slashes(t) == trim_slashes(rest));
    assert(trim_slashes(rest) == rest);
    if !is_absolute(h) {
        assert(Seq::<char>::empty() + h =~= h);
    }
    assert(join(seq![], h) == h);
}

/// A path `$<name>/<rest>` that names any variable but `HOME` fails as an
/// undefined variable; as the source of a mapping that mirrors its source,
/// it fails before any path is required to exist.
pub proof fn lemma_undefined_variable(
    name: Seq<char>,
    rest: Seq<char>,
    home: Option<Seq<char>>,
    make_dir: bool,
)
    requires
        forall|j: int| 0 <= j < name.len() ==> name[j] != '/',
        name != home_name(),
    ensures
        substitution(dollar_path(name, rest), home) == Err::<Seq<char>, Failure>(
            Failure::ConfigUndefinedVariable(name),
        ),
        resolve_mapping((dollar_path(name, rest), star()), make_dir, home) == (
            Seq::<Seq<char>>::empty(),
            Err::<(Seq<char>, Seq<char>), Failure>(Failure::ConfigUndefinedVariable(name)),
        ),
{
    lemma_dollar_path(name, rest, home);
}

// Path styles.

/// A configuration whose first mapping fails to resolve before requiring
/// any path fails validation with that error, whatever paths exist.
proof fn lemma_first_mapping_fails(c: ConfigView, home: Option<Seq<char>>, present: Seq<Seq<char>>)
    requires
        c.files.len() > 0,
        resolve_mapping(c.files[0], c.make_dir, home).0.len() == 0,
        resolve_mapping(c.files[0], c.make_dir, home).1 is Err,
    ensures
        resolution(c, home).0.len() == 0,
        validation(c, home, present) == Err::<ConfigView, Failure>(
            resolve_mapping(c.files[0], c.make_dir, home).1->Err_0,
        ),
{
}

/// A configuration whose first mapping has an explicit target, with a path
/// that is not absolute or ends with `/`, fails validation with
/// `InvalidPathStyle` before any path is required to exist.
pub proof fn lemma_invalid_style(c: ConfigView, home: Option<Seq<char>>, present: Seq<Seq<char>>)
    requires
        c.files.len() > 0,
        style_fault(c.files[0].0, c.files[0].1),
    ensures
        resolution(c, home).0.len() == 0,
        validation(c, home, present) == Err::<ConfigView, Failure>(
            Failure::InvalidPathStyle(c.files[0].0, c.files[0].1),
        ),
{
    lemma_first_mapping_fails(c, home, present);
}

/// A configuration whose first mapping mirrors a source `$<name>/<rest>`,
/// with a variable other than `HOME`, fails validation as an undefined
/// variable before any path is required to exist.
pub proof fn lemma_undefined_variable_fails(
    c: ConfigView,
    name: Seq<char>,
    rest: Seq<char>,
    home: Option<Seq<char>>,
    present: Seq<Seq<char>>,
)
    requires
        c.files.len() > 0,
        c.files[0] == (dollar_path(name, rest), star()),
        forall|j: int| 0 <= j < name.len() ==> name[j] != '/',
        name != home_name(),
    ensures
        resolution(c, home).0.len() == 0,
        validation(c, home, present) == Err::<ConfigView, Failure>(
            Failure::ConfigUndefinedVariable(name),
        ),
{
    lemma_undefined_variable(name, rest, home, c.make_dir);
    lemma_first_mapping_fails(c, home, present);
}

// Recording and applying.

proof fn lemma_copies_plain(files: Seq<Seq<char>>, root: Seq<char>, dir: Seq<char>)
    ensures
        copies_into(files, root, seq![], dir) == Seq::new(
            files.len(),
            |i: int| Step::Copy(files[i], layout(files[i], dir), false),
        ),
    decreases files.len(),
{
    if files.len() > 0 {
        lemma_copies_plain(files.drop_first(), root, dir);
        assert(!pruned(files[0], root, seq![]));
        assert(Seq::new(files.len(), |i: int| Step::Copy(files[i], layout(files[i], dir), false))
            =~= seq![Step::Copy(files[0], layout(files[0], dir), false)] + Seq::new(
            files.drop_first().len(),
            |i: int|
                Step::Copy(
                    files.drop_first()[i],
                    layout(files.drop_first()[i], dir),
                    false,
                ),
        ));
    } else {
        assert(Seq::new(files.len(), |i: int| Step::Copy(files[i], layout(files[i], dir), false))
            =~= seq![]);
    }
}

/// The file `<s>/<r>`.
pub open spec fn below(s: Seq<char>, r: Seq<char>) -> Seq<char> {
    s + seq!['/'] + r
}

/// A path that does not start with `/` and is not empty.
pub open spec fn relative(r: Seq<char>) -> bool {
    r.len() > 0 && r[0] != '/'
}

proof fn lemma_below_round_trip(
    s: Seq<char>,
    t: Seq<char>,
    dir: Seq<char>,
    r: Seq<char>,
)
    requires
        single_rooted(s),
        proper_root(s),
        proper_root(t),
        proper_root(dir),
        relative(r),
    ensures
        recover(layout(below(s, r), dir), dir) == Some(below(s, r)),
        destination(below(s, r), s, t) == Some(below(t, r)),
{
    let f = below(s, r);
    assert(f[0] == s[0]);
    assert(f[1] == s[1]);
    lemma_layout_round_trip(f, dir);
    assert(s.is_prefix_of(f)) by {
        assert(f.subrange(0, s.len() as int) =~= s);
    }
    let tail = f.skip(s.len() as int);
    assert(tail =~= seq!['/'] + r);
    assert(tail.drop_first() =~= r);
    assert(trim_slashes(tail) == trim_slashes(r));
    assert(trim_slashes(r) == r);
}

proof fn lemma_apply_below(
    s: Seq<char>,
    t: Seq<char>,
    dir: Seq<char>,
    rs: Seq<Seq<char>>,
    force: bool,
)
    requires
        single_rooted(s),
        proper_root(s),
        proper_root(t),
        proper_root(dir),
        forall|i: int| 0 <= i < rs.len() ==> relative(#[trigger] rs[i]),
    ensures
        apply_one(
            (s, t),
            Seq::new(rs.len(), |i: int| layout(below(s, rs[i]), dir)),
            dir,
            force,
        ) == Seq::new(
            rs.len(),
            |i: int| Step::Copy(layout(below(s, rs[i]), dir), below(t, rs[i]), force),
        ),
    decreases rs.len(),
{
    let stored = Seq::new(rs.len(), |i: int| layout(below(s, rs[i]), dir));
    let want = Seq::new(
        rs.len(),
        |i: int| Step::Copy(layout(below(s, rs[i]), dir), below(t, rs[i]), force),
    );
    if rs.len() > 0 {
        let rest = rs.drop_first();
        assert forall|i: int| 0 <= i < rest.len() implies relative(#[trigger] rest[i]) by {
            assert(rest[i] == rs[i + 1]);
        }
        lemma_apply_below(s, t, dir, rest, force);
        assert(stored.drop_first() =~= Seq::new(
            rest.len(),
            |i: int| layout(below(s, rest[i]), dir),
        ));
        assert(relative(rs[0]));
        lemma_below_round_trip(s, t, dir, rs[0]);
        assert(want =~= seq![want[0]] + Seq::new(
            rest.len(),
            |i: int| Step::Copy(layout(below(s, rest[i]), dir), below(t, rest[i]), force),
        ));
    } else {
        assert(want =~= seq![]);
    }
}

/// Round trip: for a container with the one mapping from `s` to `t` and no
/// excluded paths, recording a version with `force` from the files `s/<r>`
/// clears the version and stores each file at its place in it; applying the
/// version from exactly those stored files copies each of them to `t/<r>`,
/// in the same order.
pub proof fn lemma_round_trip(q: QboxView, name: Seq<char>, rs: Seq<Seq<char>>, force: bool)
    requires
        q.config.files.len() == 1,
        q.config.excludes.len() == 0,
        single_rooted(q.config.files[0].0),
        proper_root(q.config.files[0].0),
        proper_root(q.config.files[0].1),
        proper_root(q.version_dir(name)),
        forall|i: int| 0 <= i < rs.len() ==> relative(#[trigger] rs[i]),
    ensures
        ({
            let (s, t) = q.config.files[0];
            let dir = q.version_dir(name);
            let listed = Seq::new(rs.len(), |i: int| below(s, rs[i]));
            let stored = Seq::new(rs.len(), |i: int| layout(below(s, rs[i]), dir));
            &&& q.record_steps(name, true, seq![listed]) == seq![Step::ClearDir(dir)] + Seq::new(
                rs.len(),
                |i: int| Step::Copy(listed[i], stored[i], false),
            )
            &&& apply_steps(q.config.files, stored, dir, force) == Seq::new(
                rs.len(),
                |i: int| Step::Copy(stored[i], below(t, rs[i]), force),
            )
        }),
{
    let (s, t) = q.config.files[0];
    let dir = q.version_dir(name);
    let listed = Seq::new(rs.len(), |i: int| below(s, rs[i]));
    let stored = Seq::new(rs.len(), |i: int| layout(below(s, rs[i]), dir));
    lemma_copies_plain(listed, s, dir);
    assert(q.sources() =~= seq![s]);
    assert(q.config.excludes =~= seq![]);
    let listings = seq![listed];
    assert(snapshot(seq![s].drop_first(), listings.drop_first(), seq![], dir) == Seq::<
        Step,
    >::empty());
    assert(snapshot(seq![s], listings, seq![], dir) =~= copies_into(listed, s, seq![], dir));
    assert(Seq::new(listed.len(), |i: int| Step::Copy(listed[i], layout(listed[i], dir), false))
        =~= Seq::new(rs.len(), |i: int| Step::Copy(listed[i], stored[i], false)));
    lemma_apply_below(s, t, dir, rs, force);
    assert(q.config.files.drop_first() =~= seq![]);
    let applied = apply_one((s, t), stored, dir, force);
    assert(apply_steps(q.config.files.drop_first(), stored, dir, force) == Seq::<Step>::empty());
    assert(apply_steps(q.config.files, stored, dir, force) == applied + Seq::<Step>::empty());
    assert(applied + Seq::<Step>::empty() =~= applied);
}

/// Whether a step copies from the file `f`.
pub open spec fn copies_from(st: Step, f: Seq<char>) -> bool {
    match st {
        Step::Copy(g, _, _) => g == f,
        _ => false,
    }
}

proof fn lemma_copies_not_pruned(
    files: Seq<Seq<char>>,
    root: Seq<char>,
    excludes: Seq<Seq<char>>,
    dir: Seq<char>,
    f: Seq<char>,
)
    requires
        pruned(f, root, excludes),
    ensures
        forall|i: int|
            0 <= i < copies_into(files, root, excludes, dir).len() ==> !copies_from(
                #[trigger] copies_into(files, root, excludes, dir)[i],
                f,
            ),
    decreases files.len(),
{
    if files.len() > 0 {
        lemma_copies_not_pruned(files.drop_first(), root, excludes, dir, f);
        let rest = copies_into(files.drop_first(), root, excludes, dir);
        if !pruned(files[0], root, excludes) {
            let all = copies_into(files, root, excludes, dir);
            assert forall|i: int| 0 <= i < all.len() implies !copies_from(#[trigger] all[i], f) by {
                if i > 0 {
                    assert(all[i] == rest[i - 1]);
                }
            }
        }
    }
}

/// Exclusion: recording a container with one mapping never copies a listed
/// file that lies at or below an excluded path longer than the source.
pub proof fn lemma_excluded_not_recorded(
    q: QboxView,
    name: Seq<char>,
    force: bool,
    listing: Seq<Seq<char>>,
    e: Seq<char>,
    f: Seq<char>,
)
    requires
        q.config.files.len() == 1,
        q.config.excludes.contains(e),
        e.len() > q.config.files[0].0.len(),
        under(f, e),
    ensures
        forall|i: int|
            0 <= i < q.record_steps(name, force, seq![listing]).len() ==> !copies_from(
                #[trigger] q.record_steps(name, force, seq![listing])[i],
                f,
            ),
{
    let s = q.config.files[0].0;
    let dir = q.version_dir(name);
    assert(q.sources() =~= seq![s]);
    let j = choose|j: int| 0 <= j < q.config.excludes.len() && q.config.excludes[j] == e;
    if f == e {
        assert(f.subrange(0, f.len() as int) =~= e);
        assert(entry_end(f, s, f.len() as int));
        assert(ends_with_path(f.subrange(0, f.len() as int), q.config.excludes[j]));
    } else {
        let k = e.len() as int;
        assert(f.subrange(0, k + 1) == e + seq!['/']);
        assert(f[k] == (e + seq!['/'])[k]);
        assert(f.subrange(0, k) =~= e);
        assert(entry_end(f, s, k));
        assert(ends_with_path(f.subrange(0, k), q.config.excludes[j]));
    }
    assert(pruned(f, s, q.config.excludes));
    lemma_copies_not_pruned(listing, s, q.config.excludes, dir, f);
    let listings = seq![listing];
    assert(snapshot(seq![s].drop_first(), listings.drop_first(), q.config.excludes, dir)
        == Seq::<Step>::empty());
    let copies = copies_into(listing, s, q.config.excludes, dir);
    assert(snapshot(seq![s], listings, q.config.excludes, dir) =~= copies);
    let head: Seq<Step> = if force {
        seq![Step::ClearDir(dir)]
    } else {
        seq![]
    };
    let all = q.record_steps(name, force, listings);
    assert(all == head + copies);
    assert forall|i: int| 0 <= i < all.len() implies !copies_from(#[trigger] all[i], f) by {
        if i >= head.len() {
            assert(all[i] == copies[i - head.len()]);
        }
    }
}

/// Forced recording is idempotent: recording a version with `force` leaves
/// the same files in it whatever it held, so recording twice from unchanged
/// listings leaves what recording once does.
pub proof fn lemma_forced_record_idempotent(
    q: QboxView,
    name: Seq<char>,
    listings: Seq<Seq<Seq<char>>>,
    s1: Set<Seq<char>>,
    s2: Set<Seq<char>>,
)
    ensures
        ({
            let plan = q.record_steps(name, true, listings);
            let dir = q.version_dir(name);
            &&& contents_after(plan, dir, s1) == contents_after(plan, dir, s2)
            &&& contents_after(plan, dir, contents_after(plan, dir, s1)) == contents_after(
                plan,
                dir,
                s1,
            )
        }),
{
    let plan = q.record_steps(name, true, listings);
    let dir = q.version_dir(name);
    assert(plan[0] == Step::ClearDir(dir));
    lemma_cleared_start(plan, dir, s1, s2);
    lemma_cleared_start(plan, dir, contents_after(plan, dir, s1), s1);
}

// Backups.

/// Whether a step stores a file with one leading slash at its place under `dir`.
pub open spec fn stores(st: Step, dir: Seq<char>) -> bool {
    match st {
        Step::Copy(f, to, b) => single_rooted(f) && to == layout(f, dir) && !b,
        _ => false,
    }
}

/// Where the copies write.
pub open spec fn copied_to(st: Seq<Step>) -> Seq<Seq<char>> {
    st.map_values(
        |x: Step|
            match x {
                Step::Copy(_, to, _) => to,
                _ => seq![],
            },
    )
}

/// The copies turned around: each written file copied back to its origin.
pub open spec fn copied_back(st: Seq<Step>) -> Seq<Step> {
    st.map_values(
        |x: Step|
            match x {
                Step::Copy(from, to, _) => Step::Copy(to, from, false),
                other => other,
            },
    )
}

proof fn lemma_copies_store(
    files: Seq<Seq<char>>,
    root: Seq<char>,
    excludes: Seq<Seq<char>>,
    dir: Seq<char>,
)
    requires
        forall|j: int| 0 <= j < files.len() ==> single_rooted(#[trigger] files[j]),
    ensures
        forall|i: int|
            0 <= i < copies_into(files, root, excludes, dir).len() ==> stores(
                #[trigger] copies_into(files, root, excludes, dir)[i],
                dir,
            ),
    decreases files.len(),
{
    if files.len() > 0 {
        let rest = files.drop_first();
        assert forall|j: int| 0 <= j < rest.len() implies single_rooted(#[trigger] rest[j]) by {
            assert(rest[j] == files[j + 1]);
        }
        lemma_copies_store(rest, root, excludes, dir);
        assert(single_rooted(files[0]));
        let all = copies_into(files, root, excludes, dir);
        let tail = copies_into(rest, root, excludes, dir);
        if !pruned(files[0], root, excludes) {
            assert forall|i: int| 0 <= i < all.len() implies stores(#[trigger] all[i], dir) by {
                if i > 0 {
                    assert(all[i] == tail[i - 1]);
                }
            }
        }
    }
}

proof fn lemma_snapshot_stores(
    roots: Seq<Seq<char>>,
    listings: Seq<Seq<Seq<char>>>,
    excludes: Seq<Seq<char>>,
    dir: Seq<char>,
)
    requires
        forall|k: int, j: int|
            0 <= k < listings.len() && 0 <= j < listings[k].len() ==> single_rooted(
                #[trigger] listings[k][j],
            ),
    ensures
        forall|i: int|
            0 <= i < snapshot(roots, listings, excludes, dir).len() ==> stores(
                #[trigger] snapshot(roots, listings, excludes, dir)[i],
                dir,
            ),
    decreases roots.len(),
{
    if roots.len() > 0 && listings.len() > 0 {
        let ls = listings.drop_first();
        assert forall|k: int, j: int| 0 <= k < ls.len() && 0 <= j < ls[k].len() implies single_rooted(
            #[trigger] ls[k][j],
        ) by {
            assert(ls[k] == listings[k + 1]);
        }
        lemma_snapshot_stores(roots.drop_first(), ls, excludes, dir);
        assert forall|j: int| 0 <= j < listings[0].len() implies single_rooted(
            #[trigger] listings[0][j],
        ) by {}
        lemma_copies_store(listings[0], roots[0], excludes, dir);
        let head = copies_into(listings[0], roots[0], excludes, dir);
        let tail = snapshot(roots.drop_first(), ls, excludes, dir);
        let all = snapshot(roots, listings, excludes, dir);
        assert forall|i: int| 0 <= i < all.len() implies stores(#[trigger] all[i], dir) by {
            if i < head.len() {
                assert(all[i] == head[i]);
            } else {
                assert(all[i] == tail[i - head.len()]);
            }
        }
    }
}

proof fn lemma_restore_inverts(st: Seq<Step>, dir: Seq<char>)
    requires
        proper_root(dir),
        forall|i: int| 0 <= i < st.len() ==> stores(#[trigger] st[i], dir),
    ensures
        restore_steps(copied_to(st), dir) == copied_back(st),
    decreases st.len(),
{
    if st.len() > 0 {
        let rest = st.drop_first();
        assert forall|i: int| 0 <= i < rest.len() implies stores(#[trigger] rest[i], dir) by {
            assert(rest[i] == st[i + 1]);
        }
        lemma_restore_inverts(rest, dir);
        assert(copied_to(st).drop_first() =~= copied_to(rest));
        assert(stores(st[0], dir));
        match st[0] {
            Step::Copy(f, to, _) => {
                lemma_layout_round_trip(f, dir);
            },
            _ => {},
        }
        assert(copied_back(st) =~= seq![copied_back(st)[0]] + copied_back(rest));
    } else {
        assert(copied_back(st) =~= seq![]);
    }
}

/// Backup and restore: the copies of a backup store each file listed under
/// a target (all with one leading slash) in the backup version, and
/// restoring from exactly the files they wrote copies each back to the file
/// it was taken from.
pub proof fn lemma_backup_restores(
    q: QboxView,
    backup_exists: bool,
    listings: Seq<Seq<Seq<char>>>,
)
    requires
        proper_root(q.backup_dir()),
        forall|k: int, j: int|
            0 <= k < listings.len() && 0 <= j < listings[k].len() ==> single_rooted(
                #[trigger] listings[k][j],
            ),
    ensures
        ({
            let dir = q.backup_dir();
            let copies = snapshot(q.targets(), listings, q.config.excludes, dir);
            &&& q.backup_steps(backup_exists, listings) == (if backup_exists {
                seq![]
            } else {
                seq![Step::MakeDir(dir)]
            }) + seq![Step::ClearDir(dir)] + copies
            &&& restore_steps(copied_to(copies), dir) == copied_back(copies)
        }),
{
    let dir = q.backup_dir();
    lemma_snapshot_stores(q.targets(), listings, q.config.excludes, dir);
    lemma_restore_inverts(snapshot(q.targets(), listings, q.config.excludes, dir), dir);
}

} // verus!
