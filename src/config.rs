//! A container's configuration: which sources map to which targets, which
//! paths are left out, and how a configured path is resolved.
//!
//! Resolving a configuration substitutes variables and checks path styles.
//! It also names, in order, the paths that must exist; `validate` then asks
//! whether each of them is among the paths known to exist.
use vstd::prelude::*;
use crate::error::{agrees, FDError, Failure, QboxError};
use crate::path::{
    chars_of, contains_text, eq_chars, is_absolute, join, join_chars, skip_chars, slice_chars,
    string_of, text_of, texts, trim_leading_slashes, trim_slashes,
};

verus! {

/// One configured mapping: a source path and the target it is applied to,
/// `*` for the source's own place.
#[derive(Debug, Clone, PartialEq, Eq)]
pub struct Mapping {
    pub source: String,
    pub target: String,
}

/// A container's configuration.
#[derive(Debug, Clone, PartialEq, Eq, Default)]
pub struct Config {
    /// Whether a missing target may be created when a version is applied.
    pub make_dir: bool,
    /// The mappings, in order.
    pub files: Vec<Mapping>,
    /// Paths left out of every snapshot, with all they hold.
    pub excludes: Vec<String>,
}

/// The mathematical value of a `Config`.
pub struct ConfigView {
    pub make_dir: bool,
    pub files: Seq<(Seq<char>, Seq<char>)>,
    pub excludes: Seq<Seq<char>>,
}

impl View for Mapping {
    type V = (Seq<char>, Seq<char>);

    open spec fn view(&self) -> (Seq<char>, Seq<char>) {
        (self.source@, self.target@)
    }
}

impl View for Config {
    type V = ConfigView;

    open spec fn view(&self) -> ConfigView {
        ConfigView {
            make_dir: self.make_dir,
            files: self.files@.map_values(|m: Mapping| m@),
            excludes: texts(self.excludes@),
        }
    }
}

/// The target that mirrors the source's own layout.
pub open spec fn star() -> Seq<char> {
    seq!['*']
}

/// The one variable that configured paths may name.
pub open spec fn home_name() -> Seq<char> {
    seq!['H', 'O', 'M', 'E']
}

/// The first index at or after `from` where `s` holds `c`.
pub open spec fn find_from(s: Seq<char>, c: char, from: int) -> Option<int>
    decreases s.len() - from,
{
    if 0 <= from < s.len() {
        if s[from] == c {
            Some(from)
        } else {
            find_from(s, c, from + 1)
        }
    } else {
        None
    }
}

/// The value of a variable: `HOME` is the allow-list, and its value is the
/// one the environment gave, if any.
pub open spec fn variable_value(name: Seq<char>, home: Option<Seq<char>>) -> Result<
    Seq<char>,
    Failure,
> {
    if name == home_name() {
        match home {
            Some(h) => Ok(h),
            None => Err(Failure::Variable(name)),
        }
    } else {
        Err(Failure::ConfigUndefinedVariable(name))
    }
}

/// A configured path with its variable substituted. The variable is the text
/// between the first `$` and the first `/` after it; the path becomes the
/// text before the `$`, joined with the variable's value, joined with the
/// text from that `/` on with its leading slashes trimmed. A path with no `$`,
/// or with no `/` after it, stays as it is.
pub open spec fn substitution(s: Seq<char>, home: Option<Seq<char>>) -> Result<Seq<char>, Failure> {
    match find_from(s, '$', 0) {
        None => Ok(s),
        Some(d) => match find_from(s, '/', d) {
            None => Ok(s),
            Some(sl) => match variable_value(s.subrange(d + 1, sl), home) {
                Ok(v) => Ok(join(join(s.subrange(0, d), v), trim_slashes(s.skip(sl)))),
                Err(e) => Err(e),
            },
        },
    }
}

pub open spec fn ends_with_slash(s: Seq<char>) -> bool {
    s.len() > 0 && s.last() == '/'
}

/// A mapping with an explicit target must have both paths absolute and
/// neither ending with `/`.
pub open spec fn style_fault(source: Seq<char>, target: Seq<char>) -> bool {
    target != star() && (!is_absolute(source) || !is_absolute(target) || ends_with_slash(source)
        || ends_with_slash(target))
}

/// Resolving one mapping: the paths that must exist, in order, and the
/// resolved mapping or the error that stops resolution.
pub open spec fn resolve_mapping(
    m: (Seq<char>, Seq<char>),
    make_dir: bool,
    home: Option<Seq<char>>,
) -> (Seq<Seq<char>>, Result<(Seq<char>, Seq<char>), Failure>) {
    let (s, t) = m;
    if style_fault(s, t) {
        (seq![], Err(Failure::InvalidPathStyle(s, t)))
    } else {
        match substitution(s, home) {
            Err(e) => (seq![], Err(e)),
            Ok(rs) => if t == star() {
                (seq![rs], Ok((rs, rs)))
            } else {
                match substitution(t, home) {
                    Err(e) => (seq![rs], Err(e)),
                    Ok(rt) => (if make_dir {
                        seq![rs]
                    } else {
                        seq![rs, rt]
                    }, Ok((rs, rt))),
                }
            },
        }
    }
}

/// A result of a list with `d` put before the list, errors kept as they are.
pub open spec fn prefixed<A>(d: Seq<A>, r: Result<Seq<A>, Failure>) -> Result<Seq<A>, Failure> {
    match r {
        Ok(xs) => Ok(d + xs),
        Err(e) => Err(e),
    }
}

proof fn lemma_prefixed_twice<A>(d: Seq<A>, m: A, r: Result<Seq<A>, Failure>)
    ensures
        prefixed(d, prefixed(seq![m], r)) == prefixed(d.push(m), r),
{
    match r {
        Ok(xs) => {
            assert(d + (seq![m] + xs) =~= d.push(m) + xs);
        },
        Err(_) => {},
    }
}

/// Resolving the mappings in order, up to the first error.
pub open spec fn resolve_files(
    files: Seq<(Seq<char>, Seq<char>)>,
    make_dir: bool,
    home: Option<Seq<char>>,
) -> (Seq<Seq<char>>, Result<Seq<(Seq<char>, Seq<char>)>, Failure>)
    decreases files.len(),
{
    if files.len() == 0 {
        (seq![], Ok(seq![]))
    } else {
        let first = resolve_mapping(files[0], make_dir, home);
        match first.1 {
            Err(e) => (first.0, Err(e)),
            Ok(m) => {
                let rest = resolve_files(files.drop_first(), make_dir, home);
                (first.0 + rest.0, prefixed(seq![m], rest.1))
            },
        }
    }
}

/// Resolving the excluded paths in order, up to the first error; each one
/// must exist.
pub open spec fn resolve_excludes(ex: Seq<Seq<char>>, home: Option<Seq<char>>) -> (
    Seq<Seq<char>>,
    Result<Seq<Seq<char>>, Failure>,
)
    decreases ex.len(),
{
    if ex.len() == 0 {
        (seq![], Ok(seq![]))
    } else {
        match substitution(ex[0], home) {
            Err(e) => (seq![], Err(e)),
            Ok(p) => {
                let rest = resolve_excludes(ex.drop_first(), home);
                (seq![p] + rest.0, prefixed(seq![p], rest.1))
            },
        }
    }
}

/// Resolving a whole configuration: the mappings, then the excluded paths.
pub open spec fn resolution(c: ConfigView, home: Option<Seq<char>>) -> (
    Seq<Seq<char>>,
    Result<ConfigView, Failure>,
) {
    let (c1, r1) = resolve_files(c.files, c.make_dir, home);
    match r1 {
        Err(e) => (c1, Err(e)),
        Ok(fs) => {
            let (c2, r2) = resolve_excludes(c.excludes, home);
            (
                c1 + c2,
                match r2 {
                    Ok(ex) => Ok(ConfigView { make_dir: c.make_dir, files: fs, excludes: ex }),
                    Err(e) => Err(e),
                },
            )
        },
    }
}

/// The first of the paths that is not among those present.
pub open spec fn first_missing(checks: Seq<Seq<char>>, present: Seq<Seq<char>>) -> Option<
    Seq<char>,
>
    decreases checks.len(),
{
    if checks.len() == 0 {
        None
    } else if present.contains(checks[0]) {
        first_missing(checks.drop_first(), present)
    } else {
        Some(checks[0])
    }
}

/// Validating a configuration when the paths `present` exist: resolution
/// stops at the first required path that is missing, or at the first error
/// of style or of variables, whichever comes first.
pub open spec fn validation(c: ConfigView, home: Option<Seq<char>>, present: Seq<Seq<char>>) -> Result<
    ConfigView,
    Failure,
> {
    let res = resolution(c, home);
    match first_missing(res.0, present) {
        Some(p) => Err(Failure::PathNotFound(p)),
        None => res.1,
    }
}

/// The first index at or after `from` where `s` holds `c`.
fn find_char(s: &Vec<char>, c: char, from: usize) -> (r: Option<usize>)
    requires
        from <= s@.len(),
    ensures
        match find_from(s@, c, from as int) {
            Some(i) => r == Some(i as usize) && from <= i < s@.len() && s@[i] == c,
            None => r is None,
        },
{
    let mut i: usize = from;
    while i < s.len()
        invariant
            from <= i <= s@.len(),
            find_from(s@, c, from as int) == find_from(s@, c, i as int),
        decreases s.len() - i,
    {
        if s[i] == c {
            return Some(i);
        }
        assert(find_from(s@, c, i as int) == find_from(s@, c, i + 1));
        i = i + 1;
    }
    None
}

fn home_chars() -> (r: Vec<char>)
    ensures
        r@ == home_name(),
{
    let r = vec!['H', 'O', 'M', 'E'];
    assert(r@ =~= home_name());
    r
}

fn star_chars() -> (r: Vec<char>)
    ensures
        r@ == star(),
{
    let r = vec!['*'];
    assert(r@ =~= star());
    r
}

/// Whether `path` is among the paths `present`; `NotFound` names it when not.
pub fn path_exists(path: &str, present: &Vec<String>) -> (r: Result<(), FDError>)
    ensures
        r is Ok <==> texts(present@).contains(path@),
        r matches Err(FDError::NotFound(p)) ==> p@ == path@,
        !(r matches Err(FDError::IO(_))),
{
    if contains_text(present, &chars_of(path)) {
        Ok(())
    } else {
        Err(FDError::NotFound(string_of(chars_of(path).as_slice())))
    }
}

fn extend_texts(dst: &mut Vec<String>, src: &Vec<String>)
    ensures
        texts(final(dst)@) == texts(old(dst)@) + texts(src@),
{
    let ghost start = texts(dst@);
    let mut k: usize = 0;
    while k < src.len()
        invariant
            k <= src@.len(),
            texts(dst@) == start + texts(src@).take(k as int),
        decreases src.len() - k,
    {
        let ghost before = dst@;
        dst.push(src[k].clone());
        assert(texts(dst@) =~= texts(before) + seq![src@[k as int]@]);
        assert(texts(src@).take(k + 1) =~= texts(src@).take(k as int) + seq![src@[k as int]@]);
        k = k + 1;
    }
    assert(texts(src@).take(k as int) =~= texts(src@));
}

impl Config {
    /// An empty configuration: no mappings, no excluded paths, no creation
    /// of missing targets.
    pub fn new() -> (r: Config)
        ensures
            r@ == (ConfigView { make_dir: false, files: seq![], excludes: seq![] }),
    {
        let r = Config { make_dir: false, files: Vec::new(), excludes: Vec::new() };
        assert(r@.files =~= seq![]);
        assert(r@.excludes =~= seq![]);
        r
    }

    /// The value of a variable, given the value that the environment holds
    /// for `HOME`, if any.
    pub fn variable_data(variable: &str, home: &Option<String>) -> (r: Result<String, QboxError>)
        ensures
            agrees(r, variable_value(variable@, text_of(*home))),
    {
        let name = chars_of(variable);
        if eq_chars(&name, &home_chars()) {
            match home {
                Some(h) => Ok(h.clone()),
                None => Err(QboxError::Variable(string_of(name.as_slice()))),
            }
        } else {
            Err(QboxError::ConfigUndefinedVariable(string_of(name.as_slice())))
        }
    }

    /// A configured path with its variable substituted (see `substitution`).
    pub fn format_path(path: &str, home: &Option<String>) -> (r: Result<String, QboxError>)
        ensures
            agrees(r, substitution(path@, text_of(*home))),
    {
        let s = chars_of(path);
        match find_char(&s, '$', 0) {
            None => Ok(string_of(s.as_slice())),
            Some(d) => match find_char(&s, '/', d) {
                None => Ok(string_of(s.as_slice())),
                Some(sl) => {
                    let name = slice_chars(&s, d + 1, sl);
                    match Config::variable_data(&string_of(name.as_slice()), home) {
                        Err(e) => Err(e),
                        Ok(value) => {
                            let prefix = slice_chars(&s, 0, d);
                            let base = join_chars(&prefix, &chars_of(value.as_str()));
                            let rest = trim_leading_slashes(&skip_chars(&s, sl));
                            Ok(string_of(join_chars(&base, &rest).as_slice()))
                        },
                    }
                },
            },
        }
    }

    /// Rejects a mapping with an explicit target when either path is not
    /// absolute or ends with `/`.
    pub fn validate_path_style(target_path: &str, source_path: &str) -> (r: Result<(), QboxError>)
        ensures
            r is Ok <==> !style_fault(source_path@, target_path@),
            r matches Err(e) ==> e@ == Failure::InvalidPathStyle(source_path@, target_path@),
    {
        let s = chars_of(source_path);
        let t = chars_of(target_path);
        if eq_chars(&t, &star_chars()) {
            return Ok(());
        }
        let s_abs = s.len() > 0 && s[0] == '/';
        let t_abs = t.len() > 0 && t[0] == '/';
        let s_end = s.len() > 0 && s[s.len() - 1] == '/';
        let t_end = t.len() > 0 && t[t.len() - 1] == '/';
        if !s_abs || !t_abs || s_end || t_end {
            Err(QboxError::InvalidPathStyle(string_of(s.as_slice()), string_of(t.as_slice())))
        } else {
            Ok(())
        }
    }

    fn resolve_mapping(m: &Mapping, make_dir: bool, home: &Option<String>) -> (r: (
        Vec<String>,
        Result<Mapping, QboxError>,
    ))
        ensures
            texts(r.0@) == resolve_mapping(m@, make_dir, text_of(*home)).0,
            agrees(r.1, resolve_mapping(m@, make_dir, text_of(*home)).1),
    {
        let mut checks: Vec<String> = Vec::new();
        if let Err(e) = Config::validate_path_style(m.target.as_str(), m.source.as_str()) {
            assert(texts(checks@) =~= seq![]);
            return (checks, Err(e));
        }
        let rs = match Config::format_path(m.source.as_str(), home) {
            Err(e) => {
                assert(texts(checks@) =~= seq![]);
                return (checks, Err(e));
            },
            Ok(p) => p,
        };
        checks.push(rs.clone());
        assert(texts(checks@) =~= seq![rs@]);
        if eq_chars(&chars_of(m.target.as_str()), &star_chars()) {
            return (checks, Ok(Mapping { source: rs.clone(), target: rs }));
        }
        let rt = match Config::format_path(m.target.as_str(), home) {
            Err(e) => {
                return (checks, Err(e));
            },
            Ok(p) => p,
        };
        if !make_dir {
            checks.push(rt.clone());
            assert(texts(checks@) =~= seq![rs@, rt@]);
        }
        (checks, Ok(Mapping { source: rs, target: rt }))
    }

    /// Resolving this configuration when the environment holds `home` for
    /// `HOME`: the paths that must exist, in order, and the resolved
    /// configuration or the error of style or of variables that stops it.
    pub fn resolve(&self, home: &Option<String>) -> (r: (Vec<String>, Result<Config, QboxError>))
        ensures
            texts(r.0@) == resolution(self@, text_of(*home)).0,
            agrees(r.1, resolution(self@, text_of(*home)).1),
    {
        let ghost h = text_of(*home);
        let ghost md = self.make_dir;
        let ghost files = self@.files;
        let mut checks: Vec<String> = Vec::new();
        let mut done: Vec<Mapping> = Vec::new();
        let mut i: usize = 0;
        assert(files.skip(0) =~= files);
        assert(texts(checks@) =~= seq![]);
        assert(done@.map_values(|m: Mapping| m@) =~= seq![]);
        while i < self.files.len()
            invariant
                i <= self.files@.len(),
                files == self@.files,
                md == self.make_dir,
                h == text_of(*home),
                resolve_files(files, md, h).0 == texts(checks@) + resolve_files(
                    files.skip(i as int),
                    md,
                    h,
                ).0,
                resolve_files(files, md, h).1 == prefixed(
                    done@.map_values(|m: Mapping| m@),
                    resolve_files(files.skip(i as int), md, h).1,
                ),
            decreases self.files.len() - i,
        {
            let (c, r) = Config::resolve_mapping(&self.files[i], self.make_dir, home);
            let ghost rest = files.skip(i as int);
            assert(rest[0] == self.files@[i as int]@);
            assert(rest.drop_first() =~= files.skip(i + 1));
            let ghost old_checks = texts(checks@);
            extend_texts(&mut checks, &c);
            match r {
                Err(e) => {
                    return (checks, Err(e));
                },
                Ok(m) => {
                    let ghost before = done@.map_values(|x: Mapping| x@);
                    proof {
                        lemma_prefixed_twice(before, m@, resolve_files(files.skip(i + 1), md, h).1);
                        assert(old_checks + (texts(c@) + resolve_files(files.skip(i + 1), md, h).0)
                            =~= texts(checks@) + resolve_files(files.skip(i + 1), md, h).0);
                    }
                    done.push(m);
                    assert(done@.map_values(|x: Mapping| x@) =~= before.push(m@));
                },
            }
            i = i + 1;
        }
        assert(files.skip(i as int) =~= seq![]);
        assert(texts(checks@) + seq![] =~= texts(checks@));
        assert(done@.map_values(|m: Mapping| m@) + seq![] =~= done@.map_values(|m: Mapping| m@));
        let ghost ex = self@.excludes;
        let mut valid_excludes: Vec<String> = Vec::new();
        let mut j: usize = 0;
        assert(ex.skip(0) =~= ex);
        assert(texts(valid_excludes@) =~= seq![]);
        let ghost files_checks = texts(checks@);
        let ghost done_view = done@.map_values(|m: Mapping| m@);
        assert(files_checks + texts(checks@).skip(files_checks.len() as int) =~= texts(checks@));
        while j < self.excludes.len()
            invariant
                resolve_files(files, md, h).0 == files_checks,
                resolve_files(files, md, h).1 == Ok::<Seq<(Seq<char>, Seq<char>)>, Failure>(
                    done_view,
                ),
                done_view == done@.map_values(|m: Mapping| m@),
                files == self@.files,
                md == self.make_dir,
                j <= self.excludes@.len(),
                ex == self@.excludes,
                h == text_of(*home),
                files_checks + resolve_excludes(ex, h).0 == texts(checks@) + resolve_excludes(
                    ex.skip(j as int),
                    h,
                ).0,
                resolve_excludes(ex, h).1 == prefixed(
                    texts(valid_excludes@),
                    resolve_excludes(ex.skip(j as int), h).1,
                ),
            decreases self.excludes.len() - j,
        {
            let ghost rest = ex.skip(j as int);
            assert(rest[0] == self.excludes@[j as int]@);
            assert(rest.drop_first() =~= ex.skip(j + 1));
            match Config::format_path(self.excludes[j].as_str(), home) {
                Err(e) => {
                    assert(texts(checks@) + seq![] =~= texts(checks@));
                    return (checks, Err(e));
                },
                Ok(p) => {
                    let ghost before_checks = texts(checks@);
                    let ghost before_ex = texts(valid_excludes@);
                    let ghost tail = resolve_excludes(ex.skip(j + 1), h);
                    proof {
                        lemma_prefixed_twice(before_ex, p@, tail.1);
                    }
                    checks.push(p.clone());
                    valid_excludes.push(p);
                    assert(texts(checks@) =~= before_checks.push(p@));
                    assert(texts(valid_excludes@) =~= before_ex.push(p@));
                    assert(before_checks + (seq![p@] + tail.0) =~= texts(checks@) + tail.0);
                },
            }
            j = j + 1;
        }
        assert(ex.skip(j as int) =~= seq![]);
        assert(texts(checks@) + seq![] =~= texts(checks@));
        assert(texts(valid_excludes@) + seq![] =~= texts(valid_excludes@));
        let r = Config { make_dir: self.make_dir, files: done, excludes: valid_excludes };
        (checks, Ok(r))
    }

    /// The paths that must exist for this configuration to be valid, in the
    /// order in which validation asks for them.
    pub fn required_paths(&self, home: &Option<String>) -> (r: Vec<String>)
        ensures
            texts(r@) == resolution(self@, text_of(*home)).0,
    {
        let (checks, _) = self.resolve(home);
        checks
    }

    /// Validates this configuration when the environment holds `home` for
    /// `HOME` and the paths `present` exist, and replaces it with the
    /// resolved configuration. On an error it is left as it was.
    pub fn validate(&mut self, home: &Option<String>, present: &Vec<String>) -> (r: Result<
        (),
        QboxError,
    >)
        ensures
            match validation(old(self)@, text_of(*home), texts(present@)) {
                Ok(c) => r is Ok && final(self)@ == c,
                Err(f) => r matches Err(e) && e@ == f && final(self)@ == old(self)@,
            },
    {
        let (checks, out) = self.resolve(home);
        let ghost all = texts(checks@);
        let ghost p = texts(present@);
        let mut i: usize = 0;
        assert(all.skip(0) =~= all);
        while i < checks.len()
            invariant
                i <= checks@.len(),
                all == texts(checks@),
                p == texts(present@),
                *self == *old(self),
                resolution(old(self)@, text_of(*home)).0 == all,
                first_missing(all, p) == first_missing(all.skip(i as int), p),
            decreases checks.len() - i,
        {
            assert(all.skip(i as int)[0] == checks@[i as int]@);
            if path_exists(checks[i].as_str(), present).is_err() {
                assert(first_missing(all.skip(i as int), p) == Some(checks@[i as int]@));
                let missing = checks[i].clone();
                assert(missing@ == checks@[i as int]@);
                return Err(QboxError::PathNotFound(missing));
            }
            assert(all.skip(i as int).drop_first() =~= all.skip(i + 1));
            i = i + 1;
        }
        assert(all.skip(i as int) =~= seq![]);
        match out {
            Ok(c) => {
                *self = c;
                Ok(())
            },
            Err(e) => Err(e),
        }
    }

    /// The excluded paths.
    pub fn excludes_to_str(&self) -> (r: Vec<String>)
        ensures
            texts(r@) == self@.excludes,
    {
        let mut r: Vec<String> = Vec::new();
        extend_texts(&mut r, &self.excludes);
        assert(texts(r@) =~= texts(self.excludes@));
        r
    }
}

} // verus!
