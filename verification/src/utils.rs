//! Names and limits shared by the whole program, and the one path rule.

use vstd::prelude::*;
use vstd::string::{StrSliceExecFns, StringExecFns};

verus! {

/// The name under which the program keeps its files.
pub const APP_NAME: &'static str = "trading_simulator";

/// How long a cached answer of the data provider stays good, in seconds:
/// thirty minutes.
pub const CACHE_INVALIDATE_RATE: i64 = 1_800;

/// Where the first `~` stands in `path`, or the length of `path` where
/// there is none.
pub open spec fn tilde_position(path: Seq<char>) -> int
    decreases path.len(),
{
    if path.len() == 0 {
        0
    } else if path.first() == '~' {
        0
    } else {
        1 + tilde_position(path.drop_first())
    }
}

/// `path` with its first `~` replaced by `home`; `path` itself where it has
/// no `~` or no home directory is known.
pub open spec fn expanded(path: Seq<char>, home: Option<Seq<char>>) -> Seq<char> {
    let at = tilde_position(path);
    match home {
        Some(directory) => if at < path.len() {
            path.subrange(0, at) + directory + path.subrange(at + 1, path.len() as int)
        } else {
            path
        },
        None => path,
    }
}

/// The position of the first `~` is within the path, nothing before it is
/// a `~`, and where it is short of the end a `~` stands there.
pub proof fn lemma_tilde_position(path: Seq<char>)
    ensures
        0 <= tilde_position(path) <= path.len(),
        forall|i: int| 0 <= i < tilde_position(path) ==> path[i] != '~',
        tilde_position(path) < path.len() ==> path[tilde_position(path)] == '~',
    decreases path.len(),
{
    if path.len() > 0 && path.first() != '~' {
        lemma_tilde_position(path.drop_first());
        assert forall|i: int| 0 <= i < tilde_position(path) implies path[i] != '~' by {
            if i > 0 {
                assert(path[i] == path.drop_first()[i - 1]);
            }
        }
    }
}

/// The first position that holds a `~` after none does is the position of
/// the first `~`.
pub proof fn lemma_tilde_found(path: Seq<char>, at: int)
    requires
        0 <= at <= path.len(),
        forall|i: int| 0 <= i < at ==> path[i] != '~',
        at < path.len() ==> path[at] == '~',
    ensures
        tilde_position(path) == at,
{
    lemma_tilde_position(path);
    let found = tilde_position(path);
    if found < at {
        assert(path[found] != '~');
    }
}

/// Replaces the first `~` of `path` by the home directory `home`, if one is
/// known.
pub fn expand_tilde(path: &str, home: Option<&str>) -> (full: String)
    ensures
        full@ == expanded(
            path@,
            match home {
                Some(directory) => Some(directory@),
                None => None,
            },
        ),
{
    let directory = match home {
        Some(directory) => directory,
        None => {
            return String::from_str(path);
        },
    };
    let length: usize = path.unicode_len();
    let mut at: usize = 0;
    while at < length
        invariant
            at <= length,
            length == path@.len(),
            home == Some(directory),
            forall|i: int| 0 <= i < at ==> path@[i] != '~',
        decreases length - at,
    {
        if path.get_char(at) == '~' {
            proof {
                lemma_tilde_found(path@, at as int);
            }
            let head = path.substring_char(0, at);
            let tail = path.substring_char(at + 1, length);
            return String::from_str(head).concat(directory).concat(tail);
        }
        at = at + 1;
    }
    proof {
        lemma_tilde_found(path@, at as int);
    }
    String::from_str(path)
}

} // verus!
