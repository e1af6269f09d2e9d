//! Filesystem actions that the operations of a container decide on, and what
//! a sequence of them does to the set of files in one directory.
use vstd::prelude::*;

verus! {

/// One filesystem action.
#[derive(Debug, Clone, PartialEq, Eq)]
pub enum Action {
    /// Create the directory and any missing ancestors.
    MakeDir(String),
    /// Remove the directory: with all it holds when `recursive`, else only when empty.
    RemoveDir { path: String, recursive: bool },
    /// Remove the directory with all it holds and create it again, empty.
    ClearDir(String),
    /// Copy the file `from` to `to`. The parent directory of `to` is first
    /// removed with all it holds when `replace_parent` is set and it exists;
    /// then it is created if missing.
    Copy { from: String, to: String, replace_parent: bool },
}

/// The mathematical value of an `Action`.
pub enum Step {
    MakeDir(Seq<char>),
    RemoveDir(Seq<char>, bool),
    ClearDir(Seq<char>),
    Copy(Seq<char>, Seq<char>, bool),
}

impl View for Action {
    type V = Step;

    open spec fn view(&self) -> Step {
        match self {
            Action::MakeDir(p) => Step::MakeDir(p@),
            Action::RemoveDir { path, recursive } => Step::RemoveDir(path@, *recursive),
            Action::ClearDir(p) => Step::ClearDir(p@),
            Action::Copy { from, to, replace_parent } => Step::Copy(from@, to@, *replace_parent),
        }
    }
}

/// The steps of a plan.
pub open spec fn steps(plan: Seq<Action>) -> Seq<Step> {
    plan.map_values(|a: Action| a@)
}

/// Appends the actions of `more` to `plan`.
pub fn append_plan(plan: &mut Vec<Action>, more: Vec<Action>)
    ensures
        steps(final(plan)@) == steps(old(plan)@) + steps(more@),
{
    let ghost before = plan@;
    let ghost added = more@;
    let mut more = more;
    plan.append(&mut more);
    assert(steps(plan@) =~= steps(before) + steps(added));
}

/// The files written into the directory `dir` once the steps have run, from
/// the files `start` that it held: clearing `dir` empties it, a copy adds its
/// destination.
pub open spec fn contents_after(plan: Seq<Step>, dir: Seq<char>, start: Set<Seq<char>>) -> Set<
    Seq<char>,
>
    decreases plan.len(),
{
    if plan.len() == 0 {
        start
    } else {
        let before = contents_after(plan.drop_last(), dir, start);
        match plan.last() {
            Step::ClearDir(d) => if d == dir {
                Set::empty()
            } else {
                before
            },
            Step::Copy(_, to, _) => before.insert(to),
            _ => before,
        }
    }
}

/// A plan that begins by clearing `dir` leaves in it the same files whatever
/// it held before.
pub proof fn lemma_cleared_start(
    plan: Seq<Step>,
    dir: Seq<char>,
    s1: Set<Seq<char>>,
    s2: Set<Seq<char>>,
)
    requires
        plan.len() > 0,
        plan[0] == Step::ClearDir(dir),
    ensures
        contents_after(plan, dir, s1) == contents_after(plan, dir, s2),
    decreases plan.len(),
{
    if plan.len() > 1 {
        lemma_cleared_start(plan.drop_last(), dir, s1, s2);
    }
}

} // verus!
