//! The client errors a submission can be rejected with.
use vstd::prelude::*;

verus! {

/// Why a posting submission was rejected. Every rejection is the client's
/// fault and is never retried.
#[derive(Clone, Copy, Debug, PartialEq, Eq, Structural)]
pub enum FormError {
    /// The body is not a sequence of `key=value` pairs, or a percent escape
    /// holds something other than two hex digits.
    MalformedForm,
    /// A field the submission kind requires is absent.
    MissingField,
    /// The submit field names neither a reply nor a new thread.
    UnrecognizedSubmitAction,
    /// The reply's thread key is not a number.
    InvalidThreadKey,
}

/// `pat` stands somewhere in `s`.
pub open spec fn contains_text(s: Seq<char>, pat: Seq<char>) -> bool {
    exists|i: int| 0 <= i && i + pat.len() <= s.len() && #[trigger] s.subrange(i, i + pat.len())
        == pat
}

/// The marker a storage error carries when the board or thread does not
/// exist.
pub open spec fn not_found_marker() -> Seq<char> {
    "No results found"@
}

fn contains_chars(v: &Vec<char>, pat: &Vec<char>) -> (r: bool)
    requires
        pat@.len() > 0,
    ensures
        r == contains_text(v@, pat@),
{
    if pat.len() > v.len() {
        return false;
    }
    let mut i: usize = 0;
    while i <= v.len() - pat.len()
        invariant
            pat@.len() > 0,
            pat@.len() <= v@.len(),
            i <= v@.len() - pat@.len() + 1,
            forall|j: int| 0 <= j < i ==> #[trigger] v@.subrange(j, j + pat@.len()) != pat@,
        decreases v@.len() - pat@.len() + 1 - i,
    {
        if crate::strutil::window_eq(v, i, pat) {
            proof {
                assert(v@.subrange(i as int, i + pat@.len()) =~= v@.skip(i as int).take(
                    pat@.len() as int,
                ));
            }
            return true;
        }
        proof {
            assert(v@.subrange(i as int, i + pat@.len()) =~= v@.skip(i as int).take(
                pat@.len() as int,
            ));
        }
        i += 1;
    }
    proof {
        assert(!contains_text(v@, pat@));
    }
    false
}

/// The response status a storage failure maps to: the distinguishable
/// not-found condition becomes 404, anything else 500; never retried.
pub fn backend_error_status(message: &str) -> (code: u16)
    ensures
        code == 404 <==> contains_text(message@, not_found_marker()),
        code == 404 || code == 500,
{
    let v = crate::strutil::str_to_chars(message);
    let pat = crate::strutil::str_to_chars("No results found");
    proof {
        reveal_strlit("No results found");
    }
    if contains_chars(&v, &pat) {
        404
    } else {
        500
    }
}

} // verus!
