//! What the failure of a remote command means.

use vstd::prelude::*;
use crate::error::DutError;
use crate::error::DutErrorView;
use crate::text::chars_of;

verus! {

/// The exit code by which the transport says that it failed itself, as
/// opposed to the command that it ran.
pub const TRANSPORT_FAILED: i32 = 255;

/// Whether `pattern` stands in `text` at position `i`.
pub open spec fn occurs_at(text: Seq<char>, pattern: Seq<char>, i: int) -> bool {
    0 <= i && i + pattern.len() <= text.len() && text.subrange(i, i + pattern.len()) == pattern
}

/// Whether `pattern` stands somewhere in `text`.
pub open spec fn occurs(text: Seq<char>, pattern: Seq<char>) -> bool {
    exists|i: int| occurs_at(text, pattern, i)
}

/// Whether `x[at..]` begins with `y`.
fn matches_at(x: &Vec<char>, y: &Vec<char>, at: usize) -> (b: bool)
    requires
        at + y.len() <= x.len(),
    ensures
        b == occurs_at(x@, y@, at as int),
{
    let mut k: usize = 0;
    while k < y.len()
        invariant
            k <= y.len(),
            at + y.len() <= x.len(),
            forall|j: int| 0 <= j < k ==> x@[at + j] == y@[j],
        decreases y.len() - k,
    {
        if x[at + k] != y[k] {
            proof {
                assert(x@.subrange(at as int, at + y.len())[k as int] == x@[at + k]);
            }
            return false;
        }
        k = k + 1;
    }
    proof {
        assert(x@.subrange(at as int, at + y.len()) =~= y@);
    }
    true
}

/// Whether `pattern` stands somewhere in `text`.
pub fn contains_text(text: &str, pattern: &str) -> (b: bool)
    ensures
        b == occurs(text@, pattern@),
{
    let x = chars_of(text);
    let y = chars_of(pattern);
    if y.len() > x.len() {
        proof {
            assert forall|i: int| !occurs_at(x@, y@, i) by {}
        }
        return false;
    }
    let last: usize = x.len() - y.len();
    let mut i: usize = 0;
    loop
        invariant
            i <= last,
            last == x.len() - y.len(),
            x@ == text@,
            y@ == pattern@,
            forall|j: int| 0 <= j < i ==> !occurs_at(x@, y@, j),
        decreases last - i,
    {
        if matches_at(&x, &y, i) {
            return true;
        }
        if i == last {
            proof {
                assert forall|j: int| !occurs_at(x@, y@, j) by {}
            }
            return false;
        }
        i = i + 1;
    }
}

/// What the failure of a command on a host means. The transport's own
/// exit code tells that the host was not reached, or, where the complaint
/// speaks of a denied permission, that it refused the credentials; any
/// other code is the failure of the command itself.
pub open spec fn failure_meaning(
    host: Seq<char>,
    command: Seq<char>,
    code: Option<i32>,
    complaint: Seq<char>,
) -> DutErrorView {
    if code != Some(TRANSPORT_FAILED) {
        DutErrorView::Resolution(command)
    } else if occurs(complaint, "Permission denied"@) {
        DutErrorView::Authentication(host)
    } else {
        DutErrorView::Connectivity(host)
    }
}

/// Classifies the failure of a command on a host by its exit code, if it
/// has one, and by what it complained of.
pub fn classify_failure(host: &str, command: &str, code: Option<i32>, complaint: &str) -> (e:
    DutError)
    ensures
        e@ == failure_meaning(host@, command@, code, complaint@),
{
    let transport = match code {
        Some(n) => n == TRANSPORT_FAILED,
        None => false,
    };
    if !transport {
        DutError::Resolution(command.to_owned())
    } else if contains_text(complaint, "Permission denied") {
        DutError::Authentication(host.to_owned())
    } else {
        DutError::Connectivity(host.to_owned())
    }
}

} // verus!
