//! Unique ordinals, one stream per category of generated name.

use vstd::prelude::*;
use vstd::string::StringExecFns;

use crate::utils::next_global_counter;

verus! {

/// What a generated ordinal is going to name.
#[derive(Clone, Copy, Debug, PartialEq, Eq, Structural)]
pub enum NameCategory {
    /// Entries that were given no name of their own.
    Entry,
    /// The directories that symlinked directories point at.
    SymlinkDest,
    /// The places that broken symlinks point at.
    BrokenSymlinkDest,
}

/// The mathematical content of a [`NameAllocator`]: the next ordinal of each stream.
pub struct Counters {
    pub entry: nat,
    pub symlink_dest: nat,
    pub broken_symlink_dest: nat,
}

impl Counters {
    /// The streams before anything was drawn.
    pub open spec fn fresh() -> Counters {
        Counters { entry: 0, symlink_dest: 1, broken_symlink_dest: 1 }
    }

    /// The next ordinal of `category`.
    pub open spec fn peek(self, category: NameCategory) -> nat {
        match category {
            NameCategory::Entry => self.entry,
            NameCategory::SymlinkDest => self.symlink_dest,
            NameCategory::BrokenSymlinkDest => self.broken_symlink_dest,
        }
    }

    /// The streams after `count` more ordinals of `category` were drawn.
    pub open spec fn advance(self, category: NameCategory, count: nat) -> Counters {
        match category {
            NameCategory::Entry => Counters { entry: self.entry + count, ..self },
            NameCategory::SymlinkDest => Counters {
                symlink_dest: self.symlink_dest + count,
                ..self
            },
            NameCategory::BrokenSymlinkDest => Counters {
                broken_symlink_dest: self.broken_symlink_dest + count,
                ..self
            },
        }
    }
}

/// Monotonic counters that mint unique ordinals, one stream per [`NameCategory`].
#[derive(Clone, Copy, Debug)]
pub struct NameAllocator {
    entry: u64,
    symlink_dest: u64,
    broken_symlink_dest: u64,
}

impl View for NameAllocator {
    type V = Counters;

    closed spec fn view(&self) -> Counters {
        Counters {
            entry: self.entry as nat,
            symlink_dest: self.symlink_dest as nat,
            broken_symlink_dest: self.broken_symlink_dest as nat,
        }
    }
}

impl NameAllocator {
    /// An allocator from which nothing was drawn yet.
    pub fn new() -> (names: Self)
        ensures
            names@ == Counters::fresh(),
    {
        NameAllocator { entry: 0, symlink_dest: 1, broken_symlink_dest: 1 }
    }

    /// The ordinal that the next draw from `category` returns.
    pub fn peek(&self, category: NameCategory) -> (ordinal: u64)
        ensures
            ordinal == self@.peek(category),
    {
        match category {
            NameCategory::Entry => self.entry,
            NameCategory::SymlinkDest => self.symlink_dest,
            NameCategory::BrokenSymlinkDest => self.broken_symlink_dest,
        }
    }

    /// Draws the next ordinal of `category`; the other streams stay as they are.
    pub fn next(&mut self, category: NameCategory) -> (ordinal: u64)
        requires
            old(self)@.peek(category) < u64::MAX,
        ensures
            ordinal == old(self)@.peek(category),
            final(self)@ == old(self)@.advance(category, 1),
    {
        match category {
            NameCategory::Entry => next_global_counter(&mut self.entry),
            NameCategory::SymlinkDest => next_global_counter(&mut self.symlink_dest),
            NameCategory::BrokenSymlinkDest => next_global_counter(&mut self.broken_symlink_dest),
        }
    }
}

/// The character that stands for `digit` in decimal notation.
pub open spec fn digit_char(digit: nat) -> char {
    if digit == 0 {
        '0'
    } else if digit == 1 {
        '1'
    } else if digit == 2 {
        '2'
    } else if digit == 3 {
        '3'
    } else if digit == 4 {
        '4'
    } else if digit == 5 {
        '5'
    } else if digit == 6 {
        '6'
    } else if digit == 7 {
        '7'
    } else if digit == 8 {
        '8'
    } else {
        '9'
    }
}

/// `n` in decimal notation, most significant digit first, without leading zeros.
pub open spec fn decimal(n: nat) -> Seq<char>
    decreases n,
{
    if n < 10 {
        seq![digit_char(n)]
    } else {
        decimal(n / 10).push(digit_char(n % 10))
    }
}

/// The name of the directory that the `ordinal`-th symlinked directory points at.
pub open spec fn symlink_dest_name(ordinal: nat) -> Seq<char> {
    "symlink-dest-"@ + decimal(ordinal)
}

/// The name of the place that the `ordinal`-th broken symlink points at.
pub open spec fn broken_symlink_dest_name(ordinal: nat) -> Seq<char> {
    "broken-symlink-dest-"@ + decimal(ordinal)
}

/// Two different numbers have two different decimal notations.
pub proof fn lemma_decimal_injective(a: nat, b: nat)
    requires
        decimal(a) == decimal(b),
    ensures
        a == b,
    decreases a,
{
    if a < 10 && b < 10 {
        assert(decimal(a)[0] == digit_char(a));
        assert(decimal(b)[0] == digit_char(b));
        lemma_digit_injective(a, b);
    } else if a < 10 {
        assert(decimal(b).len() == decimal(b / 10).len() + 1);
        lemma_decimal_nonempty(b / 10);
    } else if b < 10 {
        assert(decimal(a).len() == decimal(a / 10).len() + 1);
        lemma_decimal_nonempty(a / 10);
    } else {
        let high_a = decimal(a / 10);
        let high_b = decimal(b / 10);
        assert(high_a == decimal(a).drop_last());
        assert(high_b == decimal(b).drop_last());
        assert(digit_char(a % 10) == decimal(a).last());
        assert(digit_char(b % 10) == decimal(b).last());
        lemma_decimal_injective(a / 10, b / 10);
        lemma_digit_injective(a % 10, b % 10);
    }
}

proof fn lemma_digit_injective(x: nat, y: nat)
    requires
        x < 10,
        y < 10,
        digit_char(x) == digit_char(y),
    ensures
        x == y,
{
}

proof fn lemma_decimal_nonempty(n: nat)
    ensures
        decimal(n).len() >= 1,
    decreases n,
{
    if n >= 10 {
        lemma_decimal_nonempty(n / 10);
    }
}

fn digit_text(digit: u64) -> (text: &'static str)
    requires
        digit < 10,
    ensures
        text@ == seq![digit_char(digit as nat)],
{
    proof {
        reveal_strlit("0");
        reveal_strlit("1");
        reveal_strlit("2");
        reveal_strlit("3");
        reveal_strlit("4");
        reveal_strlit("5");
        reveal_strlit("6");
        reveal_strlit("7");
        reveal_strlit("8");
        reveal_strlit("9");
    }
    let text = if digit == 0 {
        "0"
    } else if digit == 1 {
        "1"
    } else if digit == 2 {
        "2"
    } else if digit == 3 {
        "3"
    } else if digit == 4 {
        "4"
    } else if digit == 5 {
        "5"
    } else if digit == 6 {
        "6"
    } else if digit == 7 {
        "7"
    } else if digit == 8 {
        "8"
    } else {
        "9"
    };
    assert(text@ =~= seq![digit_char(digit as nat)]);
    text
}

/// Writes `n` in decimal notation.
pub fn decimal_text(n: u64) -> (text: String)
    ensures
        text@ == decimal(n as nat),
    decreases n,
{
    if n < 10 {
        String::from_str(digit_text(n))
    } else {
        let mut text = decimal_text(n / 10);
        text.append(digit_text(n % 10));
        assert(text@ =~= decimal(n as nat));
        text
    }
}

/// `prefix` followed by `ordinal` in decimal notation.
pub fn numbered_name(prefix: &str, ordinal: u64) -> (name: String)
    ensures
        name@ == prefix@ + decimal(ordinal as nat),
{
    let mut name = String::from_str(prefix);
    let digits = decimal_text(ordinal);
    name.append(digits.as_str());
    name
}

} // verus!
