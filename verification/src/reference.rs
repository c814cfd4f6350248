//! Repository references: a branch, tag, or commit pinning a package.
//!
//! A `Commit` value must be a 40-character hexadecimal object id,
//! checked at construction; branch and tag values are mapped to their
//! full ref paths (`refs/heads/...`, `refs/tags/...`), while a commit
//! value is used directly as an object id.

use vstd::prelude::*;
use vstd::string::StrSliceExecFns;
use vstd::string::StringExecFns;
use crate::error::Error;

verus! {

/// Which kind of revision a reference names.
#[derive(Clone, Copy, Debug, PartialEq, Eq, Structural)]
pub enum RefKind {
    Branch,
    Tag,
    Commit,
}

/// A desired revision: kind plus its textual value.
#[derive(Debug)]
pub struct RepoReference {
    pub kind: RefKind,
    pub value: String,
}

/// Mathematical model of a reference: the kind and the value's
/// character sequence.
#[verifier::ext_equal]
pub ghost struct RefView {
    pub kind: RefKind,
    pub value: Seq<char>,
}

impl View for RepoReference {
    type V = RefView;

    open spec fn view(&self) -> RefView {
        RefView { kind: self.kind, value: self.value@ }
    }
}

/// ASCII hexadecimal digit, either case.
pub open spec fn is_hex_digit(c: char) -> bool {
    (48 <= c as u32 <= 57)  // 0-9
     || (97 <= c as u32 <= 102)  // a-f
     || (65 <= c as u32 <= 70)  // A-F

}

/// A well-formed commit id: exactly 40 hexadecimal characters.
pub open spec fn is_commit_hash(s: Seq<char>) -> bool {
    s.len() == 40 && forall|i: int| 0 <= i < s.len() ==> is_hex_digit(#[trigger] s[i])
}

impl RefView {
    /// Commit references carry a validated object id; branch and tag
    /// values are unconstrained.
    pub open spec fn wf(self) -> bool {
        self.kind is Commit ==> is_commit_hash(self.value)
    }

    /// Ref path the reference resolves through: `refs/heads/<v>` for a
    /// branch, `refs/tags/<v>` for a tag, and the object id itself for
    /// a commit.
    pub open spec fn ref_path(self) -> Seq<char> {
        match self.kind {
            RefKind::Branch => "refs/heads/"@ + self.value,
            RefKind::Tag => "refs/tags/"@ + self.value,
            RefKind::Commit => self.value,
        }
    }
}

impl RepoReference {
    /// Validating constructor: rejects a commit value that is not a
    /// 40-character hex id with a format error; branch and tag values
    /// are accepted as given.
    pub fn new(kind: RefKind, value: String) -> (r: Result<RepoReference, Error>)
        ensures
            r is Ok <==> (kind is Commit ==> is_commit_hash(value@)),
            r matches Ok(rr) ==> rr@ == (RefView { kind, value: value@ }) && rr@.wf(),
            r matches Err(e) ==> e is Format,
    {
        match kind {
            RefKind::Commit => {
                if is_commit_hash_exec(value.as_str()) {
                    Ok(RepoReference { kind, value })
                } else {
                    Err(Error::Format)
                }
            },
            _ => Ok(RepoReference { kind, value }),
        }
    }

    /// Build the ref path (or bare object id) for this reference.
    pub fn ref_path(&self) -> (r: String)
        ensures
            r@ == self@.ref_path(),
    {
        match self.kind {
            RefKind::Branch => "refs/heads/".to_owned().concat(self.value.as_str()),
            RefKind::Tag => "refs/tags/".to_owned().concat(self.value.as_str()),
            RefKind::Commit => self.value.clone(),
        }
    }
}

impl Clone for RepoReference {
    fn clone(&self) -> (r: Self)
        ensures
            r@ == self@,
    {
        RepoReference { kind: self.kind, value: self.value.clone() }
    }
}

/// Decide `is_commit_hash(s@)`.
pub fn is_commit_hash_exec(s: &str) -> (r: bool)
    ensures
        r == is_commit_hash(s@),
{
    let len = s.unicode_len();
    if len != 40 {
        return false;
    }
    let mut i: usize = 0;
    while i < len
        invariant
            len == s@.len(),
            i <= len,
            forall|j: int| 0 <= j < i ==> is_hex_digit(#[trigger] s@[j]),
        decreases len - i,
    {
        let c = s.get_char(i) as u32;
        if !((48 <= c && c <= 57) || (97 <= c && c <= 102) || (65 <= c && c <= 70)) {
            return false;
        }
        i += 1;
    }
    true
}

} // verus!
