//! Reading the user's menu choice and numeric answers, and recognising the
//! reaction test's prompt.

use vstd::prelude::*;
use crate::text::{parse_u32, is_u32_text, digits_value, digits_part};

verus! {

/// A test to run, or what to do with the menu.
#[derive(Clone, Copy, Debug, PartialEq, Eq, Structural)]
pub enum MenuChoice {
    ReactionTime,
    Typing,
    SequenceMemory,
    AimTrainer,
    NumberMemory,
    ChimpTest,
    VerbalMemory,
    VisualMemory,
    Quit,
    Empty,
    Invalid,
}

/// Text on the reaction screen once it is time to click.
pub const CLICK_PROMPT: &'static str = "Click!";

/// The characters with Unicode's `White_Space` property.
pub open spec fn is_white_space(c: char) -> bool {
    let u = c as u32;
    (0x09 <= u <= 0x0D) || u == 0x20 || u == 0x85 || u == 0xA0 || u == 0x1680 || (0x2000 <= u <= 0x200A) || u
        == 0x2028 || u == 0x2029 || u == 0x202F || u == 0x205F || u == 0x3000
}

/// `s` without its leading white space.
pub open spec fn trim_start_spec(s: Seq<char>) -> Seq<char>
    decreases s.len(),
{
    if s.len() > 0 && is_white_space(s[0]) {
        trim_start_spec(s.drop_first())
    } else {
        s
    }
}

/// `s` without its trailing white space.
pub open spec fn trim_end_spec(s: Seq<char>) -> Seq<char>
    decreases s.len(),
{
    if s.len() > 0 && is_white_space(s.last()) {
        trim_end_spec(s.drop_last())
    } else {
        s
    }
}

/// `s` with leading and trailing white space removed.
pub open spec fn trimmed_of(s: Seq<char>) -> Seq<char> {
    trim_end_spec(trim_start_spec(s))
}

/// The Unicode lowercase mapping of `s`.
pub uninterp spec fn lowercase_of(s: Seq<char>) -> Seq<char>;

/// Relies on str::trim: leading and trailing characters with the Unicode
/// `White_Space` property are removed.
#[verifier::external_body]
fn trim_text(s: &str) -> (r: &str)
    ensures
        r@ == trimmed_of(s@),
{
    s.trim()
}

/// Relies on str::to_lowercase: the result depends on the text alone, and an
/// empty text stays empty.
#[verifier::external_body]
fn lowercase_text(s: &str) -> (r: String)
    ensures
        r@ == lowercase_of(s@),
        s@.len() == 0 ==> r@.len() == 0,
{
    s.to_lowercase()
}

/// `needle` occurs in `hay` as a run of consecutive characters.
pub open spec fn has_substring(hay: Seq<char>, needle: Seq<char>) -> bool {
    exists|i: int| 0 <= i && i + needle.len() <= hay.len() && #[trigger] hay.subrange(i, i + needle.len()) == needle
}

/// The characters of `s`, in order.
fn chars_of(s: &str) -> (r: Vec<char>)
    ensures
        r@ == s@,
{
    broadcast use vstd::string::axiom_spec_iter;

    let mut out: Vec<char> = Vec::new();
    for c in it: s.chars()
        invariant
            it.seq() == s@,
            out@ == s@.take(it.index() as int),
    {
        out.push(c);
        assert(out@ =~= s@.take(it.index() + 1));
    }
    assert(s@.take(s@.len() as int) =~= s@);
    out
}

/// Whether `needle` occurs in `hay`.
fn contains_text(hay: &str, needle: &str) -> (r: bool)
    ensures
        r == has_substring(hay@, needle@),
{
    let h = chars_of(hay);
    let n = chars_of(needle);
    if n.len() == 0 {
        assert(hay@.subrange(0int, 0int + needle@.len()) =~= needle@);
        return true;
    }
    if n.len() > h.len() {
        return false;
    }
    let last = h.len() - n.len();
    let mut i: usize = 0;
    while i <= last
        invariant
            h@ == hay@,
            n@ == needle@,
            last == h.len() - n.len(),
            n.len() > 0,
            i <= last + 1,
            forall|k: int| 0 <= k < i ==> #[trigger] h@.subrange(k, k + n.len()) != n@,
        decreases last + 1 - i,
    {
        let mut j: usize = 0;
        let mut same: bool = true;
        while j < n.len() && same
            invariant
                i <= last,
                last == h.len() - n.len(),
                j <= n.len(),
                same ==> forall|q: int| 0 <= q < j ==> h@[i + q] == n@[q],
                !same ==> h@.subrange(i as int, i + n.len()) != n@,
            decreases n.len() - j + (if same { 1int } else { 0 }),
        {
            if h[i + j] != n[j] {
                same = false;
                assert(h@.subrange(i as int, i + n.len())[j as int] != n@[j as int]);
            } else {
                j = j + 1;
            }
        }
        if same {
            assert(h@.subrange(i as int, i + n.len()) =~= n@);
            return true;
        }
        i = i + 1;
    }
    proof {
        assert forall|k: int| 0 <= k && k + n@.len() <= h@.len() implies #[trigger] h@.subrange(k, k + n@.len())
            != n@ by {
            assert(k < i);
        }
    }
    false
}

fn same_text(a: &str, b: &str) -> (r: bool)
    ensures
        r == (a@ == b@),
{
    let x = a.to_owned();
    let y = b.to_owned();
    x == y
}

/// The menu entry that a trimmed, lowercased command names.
pub open spec fn choice_spec(c: Seq<char>) -> MenuChoice {
    if c == "1"@ || c == "reaction"@ || c == "reaction-time"@ {
        MenuChoice::ReactionTime
    } else if c == "2"@ || c == "typing"@ {
        MenuChoice::Typing
    } else if c == "3"@ || c == "sequence"@ || c == "sequence-memory"@ {
        MenuChoice::SequenceMemory
    } else if c == "4"@ || c == "aim"@ || c == "aim-trainer"@ {
        MenuChoice::AimTrainer
    } else if c == "5"@ || c == "number"@ || c == "number-memory"@ {
        MenuChoice::NumberMemory
    } else if c == "6"@ || c == "chimp"@ || c == "chimp-test"@ {
        MenuChoice::ChimpTest
    } else if c == "7"@ || c == "verbal"@ || c == "verbal-memory"@ {
        MenuChoice::VerbalMemory
    } else if c == "8"@ || c == "visual"@ || c == "visual-memory"@ {
        MenuChoice::VisualMemory
    } else if c == "9"@ || c == "quit"@ || c == "exit"@ || c == "q"@ {
        MenuChoice::Quit
    } else if c.len() == 0 {
        MenuChoice::Empty
    } else {
        MenuChoice::Invalid
    }
}

/// The menu entry that `command` (already trimmed and lowercased) names.
pub fn menu_choice_of(command: &str) -> (r: MenuChoice)
    ensures
        r == choice_spec(command@),
{
    let c = command;
    if same_text(c, "1") || same_text(c, "reaction") || same_text(c, "reaction-time") {
        MenuChoice::ReactionTime
    } else if same_text(c, "2") || same_text(c, "typing") {
        MenuChoice::Typing
    } else if same_text(c, "3") || same_text(c, "sequence") || same_text(c, "sequence-memory") {
        MenuChoice::SequenceMemory
    } else if same_text(c, "4") || same_text(c, "aim") || same_text(c, "aim-trainer") {
        MenuChoice::AimTrainer
    } else if same_text(c, "5") || same_text(c, "number") || same_text(c, "number-memory") {
        MenuChoice::NumberMemory
    } else if same_text(c, "6") || same_text(c, "chimp") || same_text(c, "chimp-test") {
        MenuChoice::ChimpTest
    } else if same_text(c, "7") || same_text(c, "verbal") || same_text(c, "verbal-memory") {
        MenuChoice::VerbalMemory
    } else if same_text(c, "8") || same_text(c, "visual") || same_text(c, "visual-memory") {
        MenuChoice::VisualMemory
    } else if same_text(c, "9") || same_text(c, "quit") || same_text(c, "exit") || same_text(c, "q") {
        MenuChoice::Quit
    } else if c.is_empty() {
        MenuChoice::Empty
    } else {
        MenuChoice::Invalid
    }
}

/// The menu entry that a line typed by the user names, ignoring surrounding
/// white space and case.
pub fn parse_menu_choice(input: &str) -> (r: MenuChoice)
    ensures
        r == choice_spec(lowercase_of(trimmed_of(input@))),
{
    let t = trim_text(input);
    let lower = lowercase_text(t);
    menu_choice_of(lower.as_str())
}

/// What a line typed at a numeric prompt holds.
#[derive(Clone, Copy, Debug, PartialEq, Eq, Structural)]
pub enum NumericInput {
    Blank,
    Number(u32),
    Invalid,
}

/// What `text` holds once surrounding white space is removed.
pub open spec fn numeric_spec(t: Seq<char>) -> NumericInput {
    if t.len() == 0 {
        NumericInput::Blank
    } else if is_u32_text(t) {
        NumericInput::Number(digits_value(digits_part(t)) as u32)
    } else {
        NumericInput::Invalid
    }
}

/// Reads a line typed at a numeric prompt: blank, an unsigned decimal that
/// fits in a `u32`, or something else.
pub fn read_numeric(input: &str) -> (r: NumericInput)
    ensures
        r == numeric_spec(trimmed_of(input@)),
{
    let t = trim_text(input);
    if t.is_empty() {
        NumericInput::Blank
    } else {
        match parse_u32(t) {
            Some(v) => NumericInput::Number(v),
            None => NumericInput::Invalid,
        }
    }
}

/// The number typed on a line, ignoring surrounding white space; `default`
/// when the line is blank or not such a number.
pub fn get_numeric_input(input: &str, default: u32) -> (r: u32)
    ensures
        r == (match numeric_spec(trimmed_of(input@)) {
            NumericInput::Number(v) => v,
            _ => default,
        }),
        trimmed_of(input@).len() == 0 ==> r == default,
{
    match read_numeric(input) {
        NumericInput::Number(v) => v,
        _ => default,
    }
}

/// Whether the reaction screen's content says it is time to click.
pub fn is_click_prompt(content: &str) -> (r: bool)
    ensures
        r == has_substring(content@, CLICK_PROMPT@),
{
    contains_text(content, CLICK_PROMPT)
}

} // verus!
