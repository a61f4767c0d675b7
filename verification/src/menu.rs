//! The console menu of the blackjack trainer: what a line of input asks for.

use vstd::prelude::*;

verus! {

/// What a line typed at the menu asks for.
#[derive(Clone, Copy, Debug, PartialEq, Eq, Structural)]
pub enum Command {
    /// `q`: save the models and quit.
    Quit,
    /// `l`: train for a number of generations.
    Learn,
    /// `t`: play one game with a chosen model.
    Test,
    /// Any other line, which is ignored.
    Ignored,
}

/// Whether two texts are the same characters.
pub fn text_equals(text: &str, expected: &str) -> (same: bool)
    ensures
        same == (text@ == expected@),
{
    let n = text.unicode_len();
    let m = expected.unicode_len();
    if n != m {
        return false;
    }
    let mut i: usize = 0;
    while i < n
        invariant
            n == text@.len(),
            m == expected@.len(),
            n == m,
            0 <= i <= n,
            forall|j: int| 0 <= j < i ==> text@[j] == expected@[j],
        decreases n - i,
    {
        if text.get_char(i) != expected.get_char(i) {
            return false;
        }
        i += 1;
    }
    assert(text@ =~= expected@);
    true
}

/// The command that a (trimmed) input line names.
pub open spec fn command_of(input: Seq<char>) -> Command {
    if input == "q"@ {
        Command::Quit
    } else if input == "l"@ {
        Command::Learn
    } else if input == "t"@ {
        Command::Test
    } else {
        Command::Ignored
    }
}

/// Reads a menu command from a (trimmed) input line.
pub fn parse_command(input: &str) -> (command: Command)
    ensures
        command == command_of(input@),
{
    if text_equals(input, "q") {
        Command::Quit
    } else if text_equals(input, "l") {
        Command::Learn
    } else if text_equals(input, "t") {
        Command::Test
    } else {
        Command::Ignored
    }
}

/// The number of generations asked for: one of 1, 5, 10, 50, 100, 500 or
/// 1000 written out, and 1 for anything else.
pub open spec fn simulations_of(input: Seq<char>) -> u32 {
    if input == "1"@ {
        1
    } else if input == "5"@ {
        5
    } else if input == "10"@ {
        10
    } else if input == "50"@ {
        50
    } else if input == "100"@ {
        100
    } else if input == "500"@ {
        500
    } else if input == "1000"@ {
        1000
    } else {
        1
    }
}

/// Reads the number of generations to train from a (trimmed) input line.
pub fn simulations_from_input(input: &str) -> (simulations: u32)
    ensures
        simulations == simulations_of(input@),
{
    if text_equals(input, "1") {
        1
    } else if text_equals(input, "5") {
        5
    } else if text_equals(input, "10") {
        10
    } else if text_equals(input, "50") {
        50
    } else if text_equals(input, "100") {
        100
    } else if text_equals(input, "500") {
        500
    } else if text_equals(input, "1000") {
        1000
    } else {
        1
    }
}

/// The model a (trimmed) input line picks for a test game: `Z` picks the
/// last of `model_count` models, anything else the first.
pub fn model_index_from_input(input: &str, model_count: usize) -> (index: usize)
    requires
        input@ == "Z"@ ==> model_count > 0,
    ensures
        index == (if input@ == "Z"@ { model_count - 1 } else { 0 }),
{
    if text_equals(input, "Z") {
        model_count - 1
    } else {
        0
    }
}

} // verus!
