//! The server's console: which typed lines stop it.

use vstd::prelude::*;
use vstd::string::StringSliceAdditionalSpecFns;
use vstd::utf8::encode_utf8_decode_utf8;

verus! {

/// What `str::trim` leaves of a text: the text without its leading and
/// trailing Unicode white space.
pub uninterp spec fn trimmed(text: Seq<char>) -> Seq<char>;

/// `str::trim`: the text without leading and trailing white space.
#[verifier::external_body]
fn trim_text(text: &str) -> (t: &str)
    ensures
        t@ == trimmed(text@),
{
    text.trim()
}

/// Whether two texts are the same, compared byte by byte.
fn same_text(a: &str, b: &str) -> (same: bool)
    ensures
        same == (a@ == b@),
{
    let x = a.as_bytes();
    let y = b.as_bytes();
    proof {
        encode_utf8_decode_utf8(a@);
        encode_utf8_decode_utf8(b@);
    }
    if x.len() != y.len() {
        return false;
    }
    let mut i: usize = 0;
    while i < x.len()
        invariant
            x@ == a.spec_bytes(),
            y@ == b.spec_bytes(),
            x@.len() == y@.len(),
            i <= x@.len(),
            forall|j: int| 0 <= j < i ==> x@[j] == y@[j],
        decreases x.len() - i,
    {
        if x[i] != y[i] {
            return false;
        }
        i = i + 1;
    }
    assert(x@ =~= y@);
    true
}

/// Whether a line typed at the server's console stops the server: "exit"
/// or "stop", with any surrounding white space.
pub fn is_stop_command(input: &str) -> (stop: bool)
    ensures
        stop == (trimmed(input@) == "exit"@ || trimmed(input@) == "stop"@),
{
    let command = trim_text(input);
    same_text(command, "exit") || same_text(command, "stop")
}

} // verus!
