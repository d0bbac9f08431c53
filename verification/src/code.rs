//! Command entries: a validated name paired with the handler it invokes.

use vstd::prelude::*;

verus! {

use crate::io::Stream;
use crate::parser::{is_space_char, space_char};
use vstd::string::StrSliceExecFns;

/// Error raised while constructing a [`Code`].
#[derive(Debug, PartialEq, Eq)]
pub enum CodeError {
    /// The name handed to [`Code::new`] contains a whitespace character.
    InvalidName { name: String },
}

/// A trait for handlers that a shell can invoke by name.
pub trait Invokable {
    /// Runs the handler. `args` is the argument remainder of the invocation,
    /// empty when none was given; output goes to the two channels.
    fn invoke(&self, args: &str, stdout: &mut Stream, stderr: &mut Stream);
}

/// True when `name` is acceptable as a command name: it contains no
/// whitespace character.
pub open spec fn valid_name(name: Seq<char>) -> bool {
    forall|i: int| 0 <= i < name.len() ==> !is_space_char(#[trigger] name[i])
}

/// A cheat code: a validated name bound to a handler.
pub struct Code<H> {
    pub name: String,
    pub invokable: H,
}

impl<H> Code<H> {
    /// Pairs `name` with `invokable` after validating the name: a name with
    /// any whitespace character is rejected with [`CodeError::InvalidName`].
    pub fn new(name: &str, invokable: H) -> (r: Result<Code<H>, CodeError>)
        ensures
            valid_name(name@) ==> (r matches Ok(c) && c.name@ == name@ && c.invokable
                == invokable),
            !valid_name(name@) ==> (r matches Err(CodeError::InvalidName { name: n }) && n@
                == name@),
    {
        if contains_whitespace(name) {
            Err(CodeError::InvalidName { name: name.to_owned() })
        } else {
            Ok(Code { name: name.to_owned(), invokable })
        }
    }
}

/// Scans `name` for a character of the grammar's whitespace class.
fn contains_whitespace(name: &str) -> (r: bool)
    ensures
        r == !valid_name(name@),
{
    let n = name.unicode_len();
    let mut i: usize = 0;
    while i < n
        invariant
            i <= n,
            n == name@.len(),
            forall|k: int| 0 <= k < i ==> !is_space_char(#[trigger] name@[k]),
        decreases n - i,
    {
        if space_char(name.get_char(i)) {
            return true;
        }
        i = i + 1;
    }
    false
}

} // verus!
