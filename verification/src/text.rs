//! The notification texts the dispatcher sends, built and specified down to
//! the character.

use crate::canvas::{CanvasElement, CanvasEntry, ElementView, EntryView};
use vstd::prelude::*;
use vstd::string::StringExecFns;

verus! {

/// The character for one decimal digit.
pub open spec fn digit_char(d: nat) -> char {
    if d == 0 {
        '0'
    } else if d == 1 {
        '1'
    } else if d == 2 {
        '2'
    } else if d == 3 {
        '3'
    } else if d == 4 {
        '4'
    } else if d == 5 {
        '5'
    } else if d == 6 {
        '6'
    } else if d == 7 {
        '7'
    } else if d == 8 {
        '8'
    } else {
        '9'
    }
}

/// The decimal digits of `n`, most significant first, no leading zeroes
/// (a single zero for zero itself).
pub open spec fn decimal_digits(n: nat) -> Seq<char>
    decreases n,
{
    if n < 10 {
        seq![digit_char(n)]
    } else {
        decimal_digits(n / 10).push(digit_char(n % 10))
    }
}

fn digit_str(d: usize) -> (r: &'static str)
    requires
        d < 10,
    ensures
        r@ == seq![digit_char(d as nat)],
{
    proof {
        reveal_strlit("0");
        reveal_strlit("1");
        reveal_strlit("2");
        reveal_strlit("3");
        reveal_strlit("4");
        reveal_strlit("5");
        reveal_strlit("6");
        reveal_strlit("7");
        reveal_strlit("8");
        reveal_strlit("9");
    }
    let r = match d {
        0 => "0",
        1 => "1",
        2 => "2",
        3 => "3",
        4 => "4",
        5 => "5",
        6 => "6",
        7 => "7",
        8 => "8",
        _ => "9",
    };
    proof {
        assert(r@ =~= seq![digit_char(d as nat)]);
    }
    r
}

/// `n` written in decimal.
pub fn usize_to_string(n: usize) -> (r: String)
    ensures
        r@ == decimal_digits(n as nat),
    decreases n,
{
    if n < 10 {
        String::from_str(digit_str(n))
    } else {
        let mut s = usize_to_string(n / 10);
        s.append(digit_str(n % 10));
        proof {
            assert(s@ =~= decimal_digits((n as nat) / 10).push(digit_char((n as nat) % 10)));
        }
        s
    }
}

/// A colour written as its four channel values, `[r, g, b, a]`.
pub open spec fn colour_text(c: Seq<u8>) -> Seq<char>
    recommends
        c.len() == 4,
{
    "["@ + decimal_digits(c[0] as nat) + ", "@ + decimal_digits(c[1] as nat) + ", "@
        + decimal_digits(c[2] as nat) + ", "@ + decimal_digits(c[3] as nat) + "]"@
}

/// One element written out for a listing.
pub open spec fn element_text(e: ElementView) -> Seq<char> {
    match e {
        ElementView::Line { x1, y1, x2, y2, colour } => "Line: ("@ + decimal_digits(x1 as nat)
            + ", "@ + decimal_digits(y1 as nat) + ") -> ("@ + decimal_digits(x2 as nat) + ", "@
            + decimal_digits(y2 as nat) + ") in "@ + colour_text(colour),
        ElementView::Circle { x, y, radius, colour } => "Circle: ("@ + decimal_digits(x as nat)
            + ", "@ + decimal_digits(y as nat) + ") in "@ + colour_text(colour) + " - radius: "@
            + decimal_digits(radius as nat),
        ElementView::Rect { x, y, width, height, colour } => "Rect: ("@ + decimal_digits(x as nat)
            + ", "@ + decimal_digits(y as nat) + ") - width: "@ + decimal_digits(width as nat)
            + ", height: "@ + decimal_digits(height as nat) + " in "@ + colour_text(colour),
        ElementView::Text { x, y, text, colour } => "Text: ("@ + decimal_digits(x as nat) + ", "@
            + decimal_digits(y as nat) + ") - "@ + text + " in "@ + colour_text(colour),
    }
}

/// One entry written out for a listing: identifier, author, element.
pub open spec fn entry_text(e: EntryView) -> Seq<char> {
    "["@ + decimal_digits(e.id as nat) + "] by ["@ + e.author + "], "@ + element_text(e.element)
}

fn u16_to_string(v: u16) -> (r: String)
    ensures
        r@ == decimal_digits(v as nat),
{
    usize_to_string(v as usize)
}

/// A colour written as its four channel values.
pub fn describe_colour(c: &[u8; 4]) -> (r: String)
    ensures
        r@ == colour_text(c@),
{
    let r = String::from_str("[")
        .concat(usize_to_string(c[0] as usize).as_str())
        .concat(", ")
        .concat(usize_to_string(c[1] as usize).as_str())
        .concat(", ")
        .concat(usize_to_string(c[2] as usize).as_str())
        .concat(", ")
        .concat(usize_to_string(c[3] as usize).as_str())
        .concat("]");
    proof {
        assert(r@ =~= colour_text(c@));
    }
    r
}

impl CanvasElement {
    /// The element written out for a listing, character for character as
    /// [`element_text`] says.
    pub fn describe(&self) -> (r: String)
        ensures
            r@ == element_text(self@),
    {
        let r = match self {
            CanvasElement::Line { x1, y1, x2, y2, colour } => String::from_str("Line: (")
                .concat(u16_to_string(*x1).as_str())
                .concat(", ")
                .concat(u16_to_string(*y1).as_str())
                .concat(") -> (")
                .concat(u16_to_string(*x2).as_str())
                .concat(", ")
                .concat(u16_to_string(*y2).as_str())
                .concat(") in ")
                .concat(describe_colour(colour).as_str()),
            CanvasElement::Circle { x, y, radius, colour } => String::from_str("Circle: (")
                .concat(u16_to_string(*x).as_str())
                .concat(", ")
                .concat(u16_to_string(*y).as_str())
                .concat(") in ")
                .concat(describe_colour(colour).as_str())
                .concat(" - radius: ")
                .concat(u16_to_string(*radius).as_str()),
            CanvasElement::Rect { x, y, width, height, colour } => String::from_str("Rect: (")
                .concat(u16_to_string(*x).as_str())
                .concat(", ")
                .concat(u16_to_string(*y).as_str())
                .concat(") - width: ")
                .concat(u16_to_string(*width).as_str())
                .concat(", height: ")
                .concat(u16_to_string(*height).as_str())
                .concat(" in ")
                .concat(describe_colour(colour).as_str()),
            CanvasElement::Text { x, y, text, colour } => String::from_str("Text: (")
                .concat(u16_to_string(*x).as_str())
                .concat(", ")
                .concat(u16_to_string(*y).as_str())
                .concat(") - ")
                .concat(text.as_str())
                .concat(" in ")
                .concat(describe_colour(colour).as_str()),
        };
        proof {
            assert(r@ =~= element_text(self@));
        }
        r
    }
}

impl CanvasEntry {
    /// The entry written out for a listing, character for character as
    /// [`entry_text`] says.
    pub fn describe(&self) -> (r: String)
        ensures
            r@ == entry_text(self@),
    {
        let r = String::from_str("[")
            .concat(usize_to_string(self.id).as_str())
            .concat("] by [")
            .concat(self.author.as_str())
            .concat("], ")
            .concat(self.element.describe().as_str());
        proof {
            assert(r@ =~= entry_text(self@));
        }
        r
    }
}

/// The broadcast that tells everyone a user joined.
pub open spec fn join_message(name: Seq<char>) -> Seq<char> {
    "[+] "@ + name
}

pub fn make_join_message(name: &str) -> (r: String)
    ensures
        r@ == join_message(name@),
{
    String::from_str("[+] ").concat(name)
}

/// The reply to a `Connect` whose nickname a live session already holds.
pub open spec fn taken_message(name: Seq<char>) -> Seq<char> {
    "Username "@ + name + " is already taken"@
}

pub fn make_taken_message(name: &str) -> (r: String)
    ensures
        r@ == taken_message(name@),
{
    let r = String::from_str("Username ").concat(name).concat(" is already taken");
    proof {
        assert(r@ =~= taken_message(name@));
    }
    r
}

/// The reply to an update that named an entry the canvas does not hold.
pub open spec fn missing_entry_message(id: usize) -> Seq<char> {
    "Entry with id "@ + decimal_digits(id as nat) + " does not exist"@
}

pub fn make_missing_entry_message(id: usize) -> (r: String)
    ensures
        r@ == missing_entry_message(id),
{
    let num = usize_to_string(id);
    let r = String::from_str("Entry with id ").concat(num.as_str()).concat(" does not exist");
    proof {
        assert(r@ =~= missing_entry_message(id));
    }
    r
}

} // verus!
