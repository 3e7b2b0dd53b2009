//! Small helpers shared by the rest of the crate.

use vstd::prelude::*;

verus! {

/// `first` and `second`, joined by a hyphen.
pub open spec fn hyphenated(first: Seq<char>, second: Seq<char>) -> Seq<char> {
    first + seq!['-'] + second
}

/// Whether `name` is two words joined by a hyphen, whatever the words are.
pub open spec fn two_words(name: Seq<char>) -> bool {
    exists|first: Seq<char>, second: Seq<char>|
        first.len() > 0 && second.len() > 0 && name == #[trigger] hyphenated(first, second)
}

/// Calls `petname::petname` for a name of two words joined by a hyphen: it
/// picks an adjective and a name from the word lists that come with the
/// crate, neither of which is empty or holds an empty word, and puts the
/// separator between them. The words are picked at random, so nothing more
/// is known of the name.
#[verifier::external_body]
pub(crate) fn gen_petname() -> (name: String)
    ensures
        two_words(name@),
{
    petname::petname(2, "-")
}

/// Hands out the current value of `counter` and advances it by one.
pub fn next_global_counter(counter: &mut u64) -> (current: u64)
    requires
        *old(counter) < u64::MAX,
    ensures
        current == *old(counter),
        *final(counter) == *old(counter) + 1,
{
    let current_val = *counter;
    *counter = current_val + 1;
    current_val
}

} // verus!
