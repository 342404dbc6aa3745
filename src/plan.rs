//! The rename and archive workflows: the tool invocations each one makes, in order,
//! and the rule that decides after every invocation whether the sequence goes on.
use vstd::prelude::*;
use crate::naming::{
    archive_prefix, base_prefix, branch_of, carries_prefix, prefixed_name, remote_of, split_remote,
    NameError,
};

verus! {

/// Exit status of a run in which every step succeeded.
pub const EXIT_OK: i32 = 0;

/// Exit status of a run stopped by a failed tool invocation or an existing destination.
pub const EXIT_TOOL_FAILURE: i32 = 2;

/// What a workflow does next.
#[derive(Debug, Clone, Copy, PartialEq, Eq, Structural)]
pub enum Action {
    /// Run the step with this index.
    Run(usize),
    /// Every step has succeeded: stop with status 0.
    Finish,
    /// Stop at once with this exit status; completed steps are not undone.
    Abort(i32),
}

fn word(s: &str) -> (r: String)
    ensures
        r@ == s@,
{
    s.to_owned()
}

/// The single step that renames local branch `old` to `new`.
pub open spec fn rename_steps(old: Seq<char>, new: Seq<char>) -> Seq<Seq<Seq<char>>> {
    seq![seq!["branch"@, "-m"@, old, new]]
}

/// The query that succeeds exactly when a branch called `name` exists.
pub open spec fn ref_check_args(name: Seq<char>) -> Seq<Seq<char>> {
    seq!["show-ref"@, "--verify"@, "--quiet"@, name]
}

/// The steps that move remote branch `target` (on remote `remote`, named `branch` there)
/// to `moved`, and then return to local branch `current`.
pub open spec fn remote_move_steps(
    current: Seq<char>,
    target: Seq<char>,
    remote: Seq<char>,
    branch: Seq<char>,
    moved: Seq<char>,
) -> Seq<Seq<Seq<char>>> {
    seq![
        seq!["checkout"@, "-b"@, moved, target],
        seq!["push"@, remote, moved],
        seq!["push"@, remote, "-u"@, moved],
        seq!["push"@, remote, "--delete"@, branch],
        seq!["checkout"@, current],
        seq!["branch"@, "--delete"@, moved],
    ]
}

fn rename_plan(old: &str, new: &str) -> (r: Vec<Vec<String>>)
    ensures
        r.deep_view() == rename_steps(old@, new@),
{
    let step = vec![word("branch"), word("-m"), word(old), word(new)];
    let r = vec![step];
    assert(r.deep_view() =~~= rename_steps(old@, new@));
    r
}

/// The arguments of the query that tells whether a branch called `name` exists.
pub fn ref_check(name: &str) -> (r: Vec<String>)
    ensures
        r.deep_view() == ref_check_args(name@),
{
    let r = vec![word("show-ref"), word("--verify"), word("--quiet"), word(name)];
    assert(r.deep_view() =~~= ref_check_args(name@));
    r
}

/// The steps that move local branch `name` into the archive namespace.
pub fn archive_branch_plan(name: &str) -> (r: Result<Vec<Vec<String>>, NameError>)
    ensures
        carries_prefix(name@, archive_prefix()) <==> r == Err::<Vec<Vec<String>>, NameError>(
            NameError::AlreadyPrefixed,
        ),
        !carries_prefix(name@, archive_prefix()) ==> (r matches Ok(steps) && steps.deep_view()
            == rename_steps(name@, archive_prefix() + name@)),
{
    match prefixed_name(name, "archive/") {
        Err(e) => Err(e),
        Ok(new) => Ok(rename_plan(name, new.as_str())),
    }
}

/// The existence query and the steps that move local branch `name` under the base
/// namespace `base`. The steps run only when the query reports that no branch has
/// the new name.
pub fn append_base_plan(name: &str, base: &str) -> (r: Result<
    (Vec<String>, Vec<Vec<String>>),
    NameError,
>)
    ensures
        carries_prefix(name@, base_prefix(base@)) <==> r == Err::<
            (Vec<String>, Vec<Vec<String>>),
            NameError,
        >(NameError::AlreadyPrefixed),
        !carries_prefix(name@, base_prefix(base@)) ==> (r matches Ok((check, steps))
            && check.deep_view() == ref_check_args(base_prefix(base@) + name@)
            && steps.deep_view() == rename_steps(name@, base_prefix(base@) + name@)),
{
    match crate::naming::based_name(name, base) {
        Err(e) => Err(e),
        Ok(new) => Ok((ref_check(new.as_str()), rename_plan(name, new.as_str()))),
    }
}

/// The steps that move remote branch `target` (written `remote/branch`) under `prefix`
/// on the same remote, leaving local branch `current` checked out at the end.
pub fn remote_move_plan(current: &str, target: &str, prefix: &str) -> (r: Result<
    Vec<Vec<String>>,
    NameError,
>)
    ensures
        !target@.contains('/') ==> r == Err::<Vec<Vec<String>>, NameError>(
            NameError::MissingRemote,
        ),
        target@.contains('/') ==> (carries_prefix(branch_of(target@), prefix@) <==> r == Err::<
            Vec<Vec<String>>,
            NameError,
        >(NameError::AlreadyPrefixed)),
        target@.contains('/') && !carries_prefix(branch_of(target@), prefix@) ==> (r matches Ok(
            steps,
        ) && steps.deep_view() == remote_move_steps(
            current@,
            target@,
            remote_of(target@),
            branch_of(target@),
            prefix@ + branch_of(target@),
        )),
{
    let (remote, branch) = match split_remote(target) {
        Err(e) => {
            return Err(e);
        },
        Ok(parts) => parts,
    };
    let moved = match prefixed_name(branch.as_str(), prefix) {
        Err(e) => {
            return Err(e);
        },
        Ok(m) => m,
    };
    let r = vec![
        vec![word("checkout"), word("-b"), word(moved.as_str()), word(target)],
        vec![word("push"), word(remote.as_str()), word(moved.as_str())],
        vec![word("push"), word(remote.as_str()), word("-u"), word(moved.as_str())],
        vec![word("push"), word(remote.as_str()), word("--delete"), word(branch.as_str())],
        vec![word("checkout"), word(current)],
        vec![word("branch"), word("--delete"), word(moved.as_str())],
    ];
    assert(r.deep_view() =~~= remote_move_steps(
        current@,
        target@,
        remote@,
        branch@,
        moved@,
    ));
    Ok(r)
}

/// The steps that move remote branch `target` into the archive namespace on its remote.
pub fn archive_remote_branch_plan(current: &str, target: &str) -> (r: Result<
    Vec<Vec<String>>,
    NameError,
>)
    ensures
        !target@.contains('/') ==> r == Err::<Vec<Vec<String>>, NameError>(
            NameError::MissingRemote,
        ),
        target@.contains('/') ==> (carries_prefix(branch_of(target@), archive_prefix()) <==> r
            == Err::<Vec<Vec<String>>, NameError>(NameError::AlreadyPrefixed)),
        target@.contains('/') && !carries_prefix(branch_of(target@), archive_prefix()) ==> (r matches Ok(
            steps,
        ) && steps.deep_view() == remote_move_steps(
            current@,
            target@,
            remote_of(target@),
            branch_of(target@),
            archive_prefix() + branch_of(target@),
        )),
{
    remote_move_plan(current, target, "archive/")
}

/// The steps that move remote branch `target` under the base namespace `base` on its remote.
pub fn append_base_remote_plan(current: &str, target: &str, base: &str) -> (r: Result<
    Vec<Vec<String>>,
    NameError,
>)
    ensures
        !target@.contains('/') ==> r == Err::<Vec<Vec<String>>, NameError>(
            NameError::MissingRemote,
        ),
        target@.contains('/') ==> (carries_prefix(branch_of(target@), base_prefix(base@)) <==> r
            == Err::<Vec<Vec<String>>, NameError>(NameError::AlreadyPrefixed)),
        target@.contains('/') && !carries_prefix(branch_of(target@), base_prefix(base@)) ==> (r matches Ok(
            steps,
        ) && steps.deep_view() == remote_move_steps(
            current@,
            target@,
            remote_of(target@),
            branch_of(target@),
            base_prefix(base@) + branch_of(target@),
        )),
{
    let mut b = crate::text::chars_of(base);
    b.push('/');
    let p = crate::text::string_of(&b);
    remote_move_plan(current, target, p.as_str())
}

/// What follows the existence query of a rename: an existing destination stops the
/// workflow with status 2, otherwise the first step runs.
pub fn after_ref_check(exists: bool) -> (r: Action)
    ensures
        exists ==> r == Action::Abort(EXIT_TOOL_FAILURE),
        !exists ==> r == Action::Run(0),
{
    if exists {
        Action::Abort(EXIT_TOOL_FAILURE)
    } else {
        Action::Run(0)
    }
}

/// What follows step `done` of a workflow of `total` steps, given its outcome. A failure
/// of either kind stops the workflow with status 2; a success runs the next step, or
/// finishes after the last.
pub fn next_action(done: usize, total: usize, outcome: &Result<Option<String>, Option<String>>) -> (r: Action)
    requires
        done < total,
    ensures
        outcome is Err ==> r == Action::Abort(EXIT_TOOL_FAILURE),
        outcome is Ok && done + 1 < total ==> r == Action::Run((done + 1) as usize),
        outcome is Ok && done + 1 == total ==> r == Action::Finish,
{
    match outcome {
        Err(_) => Action::Abort(EXIT_TOOL_FAILURE),
        Ok(_) => {
            if done + 1 < total {
                Action::Run(done + 1)
            } else {
                Action::Finish
            }
        },
    }
}

} // verus!
