//! Containers and their versions.
//!
//! Every operation here decides from plain values: the paths involved, whether
//! they exist, and what the directories hold. It answers with the actions to
//! carry out, or with the error that stops it.
use vstd::prelude::*;
use crate::config::{validation, Config, ConfigView};
use crate::error::{Failure, QboxError};
use crate::path::{chars_of, concat_chars, eq_chars, join, join_chars, string_of, text_of, texts};
use crate::plan::{append_plan, steps, Action, Step};
use crate::snapshot::{
    apply_plan, apply_steps, restore_plan, restore_steps, snapshot, snapshot_plan,
};

verus! {

/// The directory under the data directory that holds all containers.
pub open spec fn boxes_name() -> Seq<char> {
    seq!['b', 'o', 'x', 'e', 's']
}

/// What a container's directory name starts with.
pub open spec fn qbox_prefix() -> Seq<char> {
    seq!['q', 'b', 'o', 'x', '_']
}

/// The name of a container's configuration document.
pub open spec fn config_name() -> Seq<char> {
    seq!['q', 'b', 'o', 'x', '.', 'y', 'a', 'm', 'l']
}

/// The reserved name of the backup version.
pub open spec fn backup_name() -> Seq<char> {
    seq!['b', 'a', 'c', 'k', 'u', 'p']
}

/// The directory that holds all containers.
pub open spec fn boxes_dir(data_dir: Seq<char>) -> Seq<char> {
    join(data_dir, boxes_name())
}

/// The directory of the container `name`.
pub open spec fn qbox_dir(name: Seq<char>, data_dir: Seq<char>) -> Seq<char> {
    join(boxes_dir(data_dir), qbox_prefix() + name)
}

fn boxes_chars() -> (r: Vec<char>)
    ensures
        r@ == boxes_name(),
{
    let r = vec!['b', 'o', 'x', 'e', 's'];
    assert(r@ =~= boxes_name());
    r
}

fn backup_chars() -> (r: Vec<char>)
    ensures
        r@ == backup_name(),
{
    let r = vec!['b', 'a', 'c', 'k', 'u', 'p'];
    assert(r@ =~= backup_name());
    r
}

/// The directory that holds all containers, under the data directory.
pub fn get_boxes_path(data_dir: &str) -> (r: String)
    ensures
        r@ == boxes_dir(data_dir@),
{
    string_of(join_chars(&chars_of(data_dir), &boxes_chars()).as_slice())
}

/// The directory of the container `name`, when the directory of all
/// containers exists.
pub fn make_qbox_path(name: &str, data_dir: &str, boxes_exists: bool) -> (r: Result<
    String,
    QboxError,
>)
    ensures
        boxes_exists ==> (r matches Ok(p) && p@ == qbox_dir(name@, data_dir@)),
        !boxes_exists ==> (r matches Err(QboxError::MissingBoxes(p)) && p@ == boxes_dir(
            data_dir@,
        )),
{
    let boxes = get_boxes_path(data_dir);
    if !boxes_exists {
        return Err(QboxError::MissingBoxes(boxes));
    }
    let prefix = vec!['q', 'b', 'o', 'x', '_'];
    assert(prefix@ =~= qbox_prefix());
    let dir_name = concat_chars(&prefix, &chars_of(name));
    Ok(string_of(join_chars(&chars_of(boxes.as_str()), &dir_name).as_slice()))
}

/// Creating the container `name`: the directory to make, unless the
/// directory of all containers is missing or the container exists.
pub fn make(name: &str, data_dir: &str, boxes_exists: bool, qbox_exists: bool) -> (r: Result<
    Action,
    QboxError,
>)
    ensures
        !boxes_exists ==> (r matches Err(QboxError::MissingBoxes(p)) && p@ == boxes_dir(
            data_dir@,
        )),
        boxes_exists && qbox_exists ==> (r matches Err(QboxError::QboxExists(p)) && p@
            == qbox_dir(name@, data_dir@)),
        boxes_exists && !qbox_exists ==> (r matches Ok(a) && a@ == Step::MakeDir(
            qbox_dir(name@, data_dir@),
        )),
{
    let path = match make_qbox_path(name, data_dir, boxes_exists) {
        Ok(p) => p,
        Err(e) => return Err(e),
    };
    if qbox_exists {
        Err(QboxError::QboxExists(path))
    } else {
        Ok(Action::MakeDir(path))
    }
}

/// Deleting the container `name`: its directory is removed, with all it
/// holds when `force`, unless it or the directory of all containers is missing.
pub fn delete(
    name: &str,
    data_dir: &str,
    force: bool,
    boxes_exists: bool,
    qbox_exists: bool,
) -> (r: Result<Action, QboxError>)
    ensures
        !boxes_exists ==> (r matches Err(QboxError::MissingBoxes(p)) && p@ == boxes_dir(
            data_dir@,
        )),
        boxes_exists && !qbox_exists ==> (r matches Err(QboxError::MissingQbox(p)) && p@
            == qbox_dir(name@, data_dir@)),
        boxes_exists && qbox_exists ==> (r matches Ok(a) && a@ == Step::RemoveDir(
            qbox_dir(name@, data_dir@),
            force,
        )),
{
    let path = match make_qbox_path(name, data_dir, boxes_exists) {
        Ok(p) => p,
        Err(e) => return Err(e),
    };
    if qbox_exists {
        Ok(Action::RemoveDir { path, recursive: force })
    } else {
        Err(QboxError::MissingQbox(path))
    }
}

/// Rejects the name reserved for the backup version.
pub fn check_keywords(name: &str) -> (r: Result<(), QboxError>)
    ensures
        r is Ok <==> name@ != backup_name(),
        r matches Err(e) ==> e@ == Failure::ReservedKeyword(name@),
{
    let n = chars_of(name);
    if eq_chars(&n, &backup_chars()) {
        Err(QboxError::ReservedKeyword(string_of(n.as_slice())))
    } else {
        Ok(())
    }
}

/// An opened container: its directory and its resolved configuration.
#[derive(Debug)]
pub struct Qbox {
    config: Config,
    qbox_path: String,
}

/// The mathematical value of a `Qbox`.
pub struct QboxView {
    pub config: ConfigView,
    pub path: Seq<char>,
}

impl View for Qbox {
    type V = QboxView;

    closed spec fn view(&self) -> QboxView {
        QboxView { config: self.config@, path: self.qbox_path@ }
    }
}

impl QboxView {
    /// The directory of the version `name`.
    pub open spec fn version_dir(self, name: Seq<char>) -> Seq<char> {
        join(self.path, name)
    }

    /// The directory of the backup version.
    pub open spec fn backup_dir(self) -> Seq<char> {
        self.version_dir(backup_name())
    }

    /// The configured sources, in order.
    pub open spec fn sources(self) -> Seq<Seq<char>> {
        self.config.files.map_values(|m: (Seq<char>, Seq<char>)| m.0)
    }

    /// The configured targets, in order.
    pub open spec fn targets(self) -> Seq<Seq<char>> {
        self.config.files.map_values(|m: (Seq<char>, Seq<char>)| m.1)
    }

    /// The steps of recording the version `name` from the files listed under
    /// each source.
    pub open spec fn record_steps(
        self,
        name: Seq<char>,
        force: bool,
        listings: Seq<Seq<Seq<char>>>,
    ) -> Seq<Step> {
        let dir = self.version_dir(name);
        (if force {
            seq![Step::ClearDir(dir)]
        } else {
            seq![]
        }) + snapshot(self.sources(), listings, self.config.excludes, dir)
    }

    /// The steps of backing up the files listed under each target.
    pub open spec fn backup_steps(self, backup_exists: bool, listings: Seq<Seq<Seq<char>>>) -> Seq<
        Step,
    > {
        let dir = self.backup_dir();
        (if backup_exists {
            seq![]
        } else {
            seq![Step::MakeDir(dir)]
        }) + seq![Step::ClearDir(dir)] + snapshot(
            self.targets(),
            listings,
            self.config.excludes,
            dir,
        )
    }
}

/// The character sequences of the listings.
pub open spec fn listing_texts(listings: Seq<Vec<String>>) -> Seq<Seq<Seq<char>>> {
    listings.map_values(|l: Vec<String>| texts(l@))
}

impl Qbox {
    /// The container `name` under the data directory, not yet opened, when
    /// its directory exists.
    pub fn new(name: &str, data_dir: &str, boxes_exists: bool, qbox_exists: bool) -> (r: Result<
        Qbox,
        QboxError,
    >)
        ensures
            !boxes_exists ==> (r matches Err(QboxError::MissingBoxes(p)) && p@ == boxes_dir(
                data_dir@,
            )),
            boxes_exists && !qbox_exists ==> (r matches Err(QboxError::MissingQbox(p)) && p@
                == qbox_dir(name@, data_dir@)),
            boxes_exists && qbox_exists ==> (r matches Ok(q) && q@ == (QboxView {
                config: ConfigView { make_dir: false, files: seq![], excludes: seq![] },
                path: qbox_dir(name@, data_dir@),
            })),
    {
        let qbox_path = match make_qbox_path(name, data_dir, boxes_exists) {
            Ok(p) => p,
            Err(e) => return Err(e),
        };
        if qbox_exists {
            Ok(Qbox { config: Config::new(), qbox_path })
        } else {
            Err(QboxError::MissingQbox(qbox_path))
        }
    }

    /// The container's directory.
    pub fn path(&self) -> (r: String)
        ensures
            r@ == self@.path,
    {
        self.qbox_path.clone()
    }

    /// The container's configuration.
    pub fn config(&self) -> (r: &Config)
        ensures
            r@ == self@.config,
    {
        &self.config
    }

    /// Where the container's configuration document lies.
    pub fn config_path(&self) -> (r: String)
        ensures
            r@ == join(self@.path, config_name()),
    {
        let c = vec!['q', 'b', 'o', 'x', '.', 'y', 'a', 'm', 'l'];
        assert(c@ =~= config_name());
        string_of(join_chars(&chars_of(self.qbox_path.as_str()), &c).as_slice())
    }

    /// The directory of the version `name`.
    pub fn version_path(&self, name: &str) -> (r: String)
        ensures
            r@ == self@.version_dir(name@),
    {
        string_of(join_chars(&chars_of(self.qbox_path.as_str()), &chars_of(name)).as_slice())
    }

    /// The directory of the backup version.
    pub fn backup_path(&self) -> (r: String)
        ensures
            r@ == self@.backup_dir(),
    {
        string_of(join_chars(&chars_of(self.qbox_path.as_str()), &backup_chars()).as_slice())
    }

    /// The configured sources, in order.
    pub fn sources(&self) -> (r: Vec<String>)
        ensures
            texts(r@) == self@.sources(),
    {
        let mut r: Vec<String> = Vec::new();
        let mut i: usize = 0;
        while i < self.config.files.len()
            invariant
                i <= self.config.files@.len(),
                texts(r@) =~= self@.sources().take(i as int),
            decreases self.config.files.len() - i,
        {
            let ghost before = r@;
            r.push(self.config.files[i].source.clone());
            assert(texts(r@) =~= texts(before).push(self.config.files@[i as int].source@));
            i = i + 1;
        }
        assert(self@.sources().take(i as int) =~= self@.sources());
        r
    }

    /// The configured targets, in order.
    pub fn targets(&self) -> (r: Vec<String>)
        ensures
            texts(r@) == self@.targets(),
    {
        let mut r: Vec<String> = Vec::new();
        let mut i: usize = 0;
        while i < self.config.files.len()
            invariant
                i <= self.config.files@.len(),
                texts(r@) =~= self@.targets().take(i as int),
            decreases self.config.files.len() - i,
        {
            let ghost before = r@;
            r.push(self.config.files[i].target.clone());
            assert(texts(r@) =~= texts(before).push(self.config.files@[i as int].target@));
            i = i + 1;
        }
        assert(self@.targets().take(i as int) =~= self@.targets());
        r
    }

    /// Opens the container with the configuration read from its document
    /// (`None` when there is none): the configuration is validated when the
    /// environment holds `home` for `HOME` and the paths `present` exist,
    /// and it replaces the container's. On an error the container is left
    /// as it was.
    pub fn open(&mut self, raw: Option<Config>, home: &Option<String>, present: &Vec<String>) -> (r:
        Result<(), QboxError>)
        ensures
            final(self)@.path == old(self)@.path,
            raw is None ==> (r matches Err(QboxError::MissingConfig(p)) && p@ == join(
                old(self)@.path,
                config_name(),
            ) && final(self)@ == old(self)@),
            raw matches Some(c) ==> match validation(c@, text_of(*home), texts(present@)) {
                Ok(v) => r is Ok && final(self)@.config == v,
                Err(f) => r matches Err(e) && e@ == f && final(self)@ == old(self)@,
            },
    {
        match raw {
            None => Err(QboxError::MissingConfig(self.config_path())),
            Some(c) => {
                let mut c = c;
                match c.validate(home, present) {
                    Ok(()) => {
                        self.config = c;
                        Ok(())
                    },
                    Err(e) => Err(e),
                }
            },
        }
    }

    /// Creating the version `name`: the directory to make, unless the name
    /// is reserved or the version exists.
    pub fn new_version(&self, name: &str, exists: bool) -> (r: Result<Action, QboxError>)
        ensures
            name@ == backup_name() ==> (r matches Err(e) && e@ == Failure::ReservedKeyword(name@)),
            name@ != backup_name() && exists ==> (r matches Err(e) && e@ == Failure::VersionExists(
                self@.version_dir(name@),
            )),
            name@ != backup_name() && !exists ==> (r matches Ok(a) && a@ == Step::MakeDir(
                self@.version_dir(name@),
            )),
    {
        if let Err(e) = check_keywords(name) {
            return Err(e);
        }
        let path = self.version_path(name);
        if exists {
            Err(QboxError::VersionExists(path))
        } else {
            Ok(Action::MakeDir(path))
        }
    }

    /// Removing the version `name`: its directory is removed, with all it
    /// holds when `force`, unless the name is reserved or the version is
    /// missing.
    pub fn remove_version(&self, name: &str, force: bool, exists: bool) -> (r: Result<
        Action,
        QboxError,
    >)
        ensures
            name@ == backup_name() ==> (r matches Err(e) && e@ == Failure::ReservedKeyword(name@)),
            name@ != backup_name() && !exists ==> (r matches Err(e) && e@
                == Failure::VersionNotFound(self@.version_dir(name@))),
            name@ != backup_name() && exists ==> (r matches Ok(a) && a@ == Step::RemoveDir(
                self@.version_dir(name@),
                force,
            )),
    {
        if let Err(e) = check_keywords(name) {
            return Err(e);
        }
        let path = self.version_path(name);
        if exists {
            Ok(Action::RemoveDir { path, recursive: force })
        } else {
            Err(QboxError::VersionNotFound(path))
        }
    }

    /// Recording the version `version` from `listings`, the files found under
    /// each source in order: the version is cleared first when `force`, then
    /// each file that no excluded path covers is copied to its place in the
    /// version. Fails when the version does not exist.
    pub fn record(
        &self,
        version: &str,
        force: bool,
        exists: bool,
        listings: &Vec<Vec<String>>,
    ) -> (r: Result<Vec<Action>, QboxError>)
        requires
            listings@.len() == self@.config.files.len(),
        ensures
            !exists ==> (r matches Err(e) && e@ == Failure::VersionNotFound(
                self@.version_dir(version@),
            )),
            exists ==> (r matches Ok(plan) && steps(plan@) == self@.record_steps(
                version@,
                force,
                listing_texts(listings@),
            )),
    {
        let path = self.version_path(version);
        if !exists {
            return Err(QboxError::VersionNotFound(path));
        }
        let mut plan: Vec<Action> = Vec::new();
        if force {
            plan.push(Action::ClearDir(path.clone()));
        }
        let ghost head = steps(plan@);
        assert(head =~= (if force {
            seq![Step::ClearDir(self@.version_dir(version@))]
        } else {
            seq![]
        }));
        let sources = self.sources();
        assert(texts(sources@).len() == sources@.len());
        let excludes = self.config.excludes_to_str();
        let copies = snapshot_plan(&sources, listings, &excludes, path.as_str());
        append_plan(&mut plan, copies);
        assert(listing_texts(listings@) =~= listings@.map_values(|l: Vec<String>| texts(l@)));
        Ok(plan)
    }

    /// Backing up the targets from `listings`, the files found under each
    /// target in order (none under a missing target): the backup version is
    /// made when it does not exist, cleared, and each file that no excluded
    /// path covers is copied to its place in it.
    pub fn make_backup(&self, backup_exists: bool, listings: &Vec<Vec<String>>) -> (r: Vec<
        Action,
    >)
        requires
            listings@.len() == self@.config.files.len(),
        ensures
            steps(r@) == self@.backup_steps(backup_exists, listing_texts(listings@)),
    {
        let path = self.backup_path();
        let mut plan: Vec<Action> = Vec::new();
        if !backup_exists {
            plan.push(Action::MakeDir(path.clone()));
        }
        plan.push(Action::ClearDir(path.clone()));
        assert(steps(plan@) =~= (if backup_exists {
            seq![]
        } else {
            seq![Step::MakeDir(self@.backup_dir())]
        }) + seq![Step::ClearDir(self@.backup_dir())]);
        let targets = self.targets();
        assert(texts(targets@).len() == targets@.len());
        let excludes = self.config.excludes_to_str();
        let copies = snapshot_plan(&targets, listings, &excludes, path.as_str());
        append_plan(&mut plan, copies);
        assert(listing_texts(listings@) =~= listings@.map_values(|l: Vec<String>| texts(l@)));
        plan
    }

    /// Applying the version `version` from `stored`, the files found in its
    /// directory: the backup version is restored (see `apply_backup`); any
    /// other version must exist, and each stored file is copied, mapping after
    /// mapping, to its place under the target of each mapping whose source is
    /// a prefix of its original path. With `force` the parent directory of
    /// each destination is replaced.
    pub fn apply(&self, version: &str, force: bool, exists: bool, stored: &Vec<String>) -> (r:
        Result<Vec<Action>, QboxError>)
        ensures
            version@ == backup_name() ==> !exists ==> (r matches Err(e) && e@
                == Failure::BackupNotFound(self@.backup_dir())),
            version@ == backup_name() ==> exists ==> (r matches Ok(plan) && steps(plan@)
                == restore_steps(texts(stored@), self@.backup_dir())),
            version@ != backup_name() ==> !exists ==> (r matches Err(e) && e@
                == Failure::VersionNotFound(self@.version_dir(version@))),
            version@ != backup_name() ==> exists ==> (r matches Ok(plan) && steps(plan@)
                == apply_steps(self@.config.files, texts(stored@), self@.version_dir(version@), force)),
    {
        if check_keywords(version).is_err() {
            return self.apply_backup(exists, stored);
        }
        let path = self.version_path(version);
        if !exists {
            return Err(QboxError::VersionNotFound(path));
        }
        let sources = self.sources();
        let targets = self.targets();
        assert(texts(sources@).len() == sources@.len());
        assert(texts(targets@).len() == targets@.len());
        let plan = apply_plan(&sources, &targets, stored, path.as_str(), force);
        assert forall|k: int| 0 <= k < sources@.len() implies (sources@[k]@, targets@[k]@)
            == self@.config.files[k] by {
            assert(texts(sources@)[k] == sources@[k]@);
            assert(texts(targets@)[k] == targets@[k]@);
            assert(self@.sources()[k] == self@.config.files[k].0);
            assert(self@.targets()[k] == self@.config.files[k].1);
        }
        assert(Seq::new(sources@.len(), |k: int| (sources@[k]@, targets@[k]@)) =~= self@.config.files);
        Ok(plan)
    }

    /// Restoring the backup version from `stored`, the files found in its
    /// directory: each is copied back to the path it stands for. Fails when
    /// the backup version does not exist.
    pub fn apply_backup(&self, exists: bool, stored: &Vec<String>) -> (r: Result<
        Vec<Action>,
        QboxError,
    >)
        ensures
            !exists ==> (r matches Err(e) && e@ == Failure::BackupNotFound(self@.backup_dir())),
            exists ==> (r matches Ok(plan) && steps(plan@) == restore_steps(
                texts(stored@),
                self@.backup_dir(),
            )),
    {
        let path = self.backup_path();
        if !exists {
            return Err(QboxError::BackupNotFound(path));
        }
        Ok(restore_plan(stored, path.as_str()))
    }
}

} // verus!
