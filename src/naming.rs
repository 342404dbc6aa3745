//! Branch names: prefixes, the archive namespace and remote-qualified names.
use vstd::prelude::*;
use crate::text::{chars_of, has_prefix, starts_with, string_of};

verus! {

/// The lower-case form of a string, as Unicode case mapping gives it.
pub uninterp spec fn lower_of(s: Seq<char>) -> Seq<char>;

/// Relies on `str::to_lowercase`: the result depends on the characters alone.
#[verifier::external_body]
fn lowercase(s: &str) -> (r: String)
    ensures
        r@ == lower_of(s@),
{
    s.to_lowercase()
}

/// Why a branch name cannot be moved onto a namespace.
#[derive(Debug, Clone, Copy, PartialEq, Eq, Structural)]
pub enum NameError {
    /// The name already starts with the namespace prefix.
    AlreadyPrefixed,
    /// A remote-qualified name holds no `/` between remote and branch.
    MissingRemote,
}

impl NameError {
    /// The process exit status that reports this error: every validation failure exits with 1.
    pub fn exit_code(&self) -> (r: i32)
        ensures
            r == 1,
    {
        1
    }
}

/// The namespace that retired branches are moved to.
pub open spec fn archive_prefix() -> Seq<char> {
    "archive/"@
}

/// `name` starts with `prefix` once both are lower-cased.
pub open spec fn carries_prefix(name: Seq<char>, prefix: Seq<char>) -> bool {
    has_prefix(lower_of(name), lower_of(prefix))
}

/// Whether `name` starts with `prefix`, ignoring case.
pub fn has_prefix_ignoring_case(name: &str, prefix: &str) -> (r: bool)
    ensures
        r == carries_prefix(name@, prefix@),
{
    let n = lowercase(name);
    let p = lowercase(prefix);
    starts_with(n.as_str(), p.as_str())
}

/// `prefix` followed by `name`, refused when `name` already carries `prefix`.
pub fn prefixed_name(name: &str, prefix: &str) -> (r: Result<String, NameError>)
    ensures
        carries_prefix(name@, prefix@) <==> r == Err::<String, NameError>(NameError::AlreadyPrefixed),
        !carries_prefix(name@, prefix@) ==> (r matches Ok(n) && n@ == prefix@ + name@),
{
    if has_prefix_ignoring_case(name, prefix) {
        return Err(NameError::AlreadyPrefixed);
    }
    let mut v = chars_of(prefix);
    let n = chars_of(name);
    crate::text::extend_chars(&mut v, &n);
    Ok(string_of(&v))
}

/// The name a branch gets in the archive namespace.
pub fn archive_name(name: &str) -> (r: Result<String, NameError>)
    ensures
        carries_prefix(name@, archive_prefix()) <==> r == Err::<String, NameError>(
            NameError::AlreadyPrefixed,
        ),
        !carries_prefix(name@, archive_prefix()) ==> (r matches Ok(n) && n@ == archive_prefix()
            + name@),
{
    prefixed_name(name, "archive/")
}

/// The namespace prefix that a base name stands for: the base and a `/`.
pub open spec fn base_prefix(base: Seq<char>) -> Seq<char> {
    base.push('/')
}

/// The name a branch gets under the base namespace `base`.
pub fn based_name(name: &str, base: &str) -> (r: Result<String, NameError>)
    ensures
        carries_prefix(name@, base_prefix(base@)) <==> r == Err::<String, NameError>(
            NameError::AlreadyPrefixed,
        ),
        !carries_prefix(name@, base_prefix(base@)) ==> (r matches Ok(n) && n@ == base_prefix(
            base@,
        ) + name@),
{
    let mut b = chars_of(base);
    b.push('/');
    let p = string_of(&b);
    prefixed_name(name, p.as_str())
}

/// The index of the first `/` in `s`.
pub open spec fn first_slash(s: Seq<char>, i: int) -> bool {
    0 <= i < s.len() && s[i] == '/' && forall|k: int| 0 <= k < i ==> s[k] != '/'
}

/// The position of the first `/` in `s`, where there is one.
pub open spec fn slash_index(s: Seq<char>) -> int {
    choose|i: int| first_slash(s, i)
}

/// The remote part of a remote-qualified name: what stands before the first `/`.
pub open spec fn remote_of(s: Seq<char>) -> Seq<char> {
    s.subrange(0, slash_index(s))
}

/// The branch part of a remote-qualified name: what stands after the first `/`.
pub open spec fn branch_of(s: Seq<char>) -> Seq<char> {
    s.subrange(slash_index(s) + 1, s.len() as int)
}

/// Splits a remote-qualified name at its first `/` into remote and branch name.
pub fn split_remote(target: &str) -> (r: Result<(String, String), NameError>)
    ensures
        !target@.contains('/') <==> r == Err::<(String, String), NameError>(NameError::MissingRemote),
        target@.contains('/') <==> r is Ok,
        r matches Ok((remote, branch)) ==> remote@ == remote_of(target@) && branch@ == branch_of(
            target@,
        ),
{
    let t = chars_of(target);
    let mut i: usize = 0;
    while i < t.len()
        invariant
            t@ == target@,
            0 <= i <= t@.len(),
            forall|k: int| 0 <= k < i ==> t@[k] != '/',
        decreases t@.len() - i,
    {
        if t[i] == '/' {
            let mut remote: Vec<char> = Vec::new();
            let mut branch: Vec<char> = Vec::new();
            let mut j: usize = 0;
            while j < i
                invariant
                    i < t@.len(),
                    0 <= j <= i,
                    remote@ == t@.subrange(0, j as int),
                decreases i - j,
            {
                remote.push(t[j]);
                j += 1;
                assert(t@.subrange(0, j as int) == t@.subrange(0, j - 1 as int).push(t@[j - 1]));
            }
            let mut j: usize = i + 1;
            while j < t.len()
                invariant
                    i < t@.len(),
                    i + 1 <= j <= t@.len(),
                    branch@ == t@.subrange(i + 1, j as int),
                decreases t@.len() - j,
            {
                branch.push(t[j]);
                j += 1;
                assert(t@.subrange(i + 1, j as int) == t@.subrange(i + 1, j - 1 as int).push(
                    t@[j - 1],
                ));
            }
            assert(target@.contains('/'));
            assert(first_slash(target@, i as int));
            assert(slash_index(target@) == i) by {
                let j = slash_index(target@);
                assert(first_slash(target@, j));
                if j < i {
                    assert(t@[j] != '/');
                } else if j > i {
                    assert(target@[i as int] != '/');
                }
            }
            return Ok((string_of(&remote), string_of(&branch)));
        }
        i += 1;
    }
    Err(NameError::MissingRemote)
}

} // verus!
