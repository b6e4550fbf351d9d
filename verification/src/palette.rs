//! The colours that output is printed in, by name.

use vstd::prelude::*;

verus! {

/// A colour of the terminal; each is printed bright and bold.
#[derive(Debug, Clone, Copy, PartialEq, Eq, Structural)]
pub enum Colour {
    Green,
    Red,
    Cyan,
    Purple,
    Blue,
    Yellow,
}

/// How a piece of text is printed.
#[derive(Debug, Clone, Copy, PartialEq, Eq, Structural)]
pub struct Style {
    pub colour: Colour,
    /// Whether the line ends after the text. Where it does not, the text
    /// is set off by a space and the output is flushed.
    pub ends_line: bool,
}

/// The style that goes by `name`: `flush_green` is green text that leaves
/// the line open; `green`, `red`, `cyan`, `purple`, `blue` and `yellow` are
/// lines in that colour; any other name is a yellow line.
pub open spec fn style_of(name: Seq<char>) -> Style {
    if name == "flush_green"@ {
        Style { colour: Colour::Green, ends_line: false }
    } else if name == "green"@ {
        Style { colour: Colour::Green, ends_line: true }
    } else if name == "red"@ {
        Style { colour: Colour::Red, ends_line: true }
    } else if name == "cyan"@ {
        Style { colour: Colour::Cyan, ends_line: true }
    } else if name == "purple"@ {
        Style { colour: Colour::Purple, ends_line: true }
    } else if name == "blue"@ {
        Style { colour: Colour::Blue, ends_line: true }
    } else {
        Style { colour: Colour::Yellow, ends_line: true }
    }
}

fn is_word(name: &String, word: &str) -> (same: bool)
    ensures
        same == (name@ == word@),
{
    let word = word.to_owned();
    *name == word
}

/// The style that goes by `name`.
pub fn style_named(name: &str) -> (style: Style)
    ensures
        style == style_of(name@),
{
    let name = name.to_owned();
    if is_word(&name, "flush_green") {
        Style { colour: Colour::Green, ends_line: false }
    } else if is_word(&name, "green") {
        Style { colour: Colour::Green, ends_line: true }
    } else if is_word(&name, "red") {
        Style { colour: Colour::Red, ends_line: true }
    } else if is_word(&name, "cyan") {
        Style { colour: Colour::Cyan, ends_line: true }
    } else if is_word(&name, "purple") {
        Style { colour: Colour::Purple, ends_line: true }
    } else if is_word(&name, "blue") {
        Style { colour: Colour::Blue, ends_line: true }
    } else {
        Style { colour: Colour::Yellow, ends_line: true }
    }
}

} // verus!
