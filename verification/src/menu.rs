//! Decisions of the interactive text prompt.
//!
//! The host reads lines from the console and hands the first character
//! of each answer here; what happens next is decided by these
//! functions, not by the host.

use vstd::prelude::*;

verus! {

/// What the opening prompt's answer asks for.
#[derive(Clone, Copy, Debug, PartialEq, Eq, Structural)]
pub enum StartChoice {
    /// Graph the built-in demonstration set.
    Demo,
    /// Enter custom equations.
    Custom,
    /// Anything else: ask again.
    Invalid,
}

/// What the after-each-equation prompt's answer asks for.
#[derive(Clone, Copy, Debug, PartialEq, Eq, Structural)]
pub enum NextChoice {
    /// Enter another equation.
    Another,
    /// Graph what has been entered.
    Graph,
    /// Anything else: ask again.
    Invalid,
}

/// Classify the opening answer by its first character: `d` graphs the
/// demonstration set, `e` enters custom equations.
pub fn classify_start(first: Option<char>) -> (r: StartChoice)
    ensures
        r == StartChoice::Demo <==> first == Some('d'),
        r == StartChoice::Custom <==> first == Some('e'),
{
    match first {
        Some(c) => {
            if c == 'd' {
                StartChoice::Demo
            } else if c == 'e' {
                StartChoice::Custom
            } else {
                StartChoice::Invalid
            }
        },
        None => StartChoice::Invalid,
    }
}

/// Classify the after-each-equation answer by its first character: `e`
/// enters another equation, `g` graphs the entered set.
pub fn classify_next(first: Option<char>) -> (r: NextChoice)
    ensures
        r == NextChoice::Another <==> first == Some('e'),
        r == NextChoice::Graph <==> first == Some('g'),
{
    match first {
        Some(c) => {
            if c == 'e' {
                NextChoice::Another
            } else if c == 'g' {
                NextChoice::Graph
            } else {
                NextChoice::Invalid
            }
        },
        None => NextChoice::Invalid,
    }
}

} // verus!
