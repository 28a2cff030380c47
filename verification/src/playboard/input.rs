//! What the user types: the keys that drive the board, and the text of a
//! score.

use crate::players::ScoreInput;
use vstd::prelude::*;

verus! {

/// A key as the board sees it.
#[derive(Debug, Clone, Copy, PartialEq, Eq)]
pub enum KeyPress {
    /// A character key.
    Char(char),
    /// A character key held together with Ctrl.
    Ctrl(char),
    /// Any other key.
    Other,
}

/// What a key asks of the board.
#[derive(Debug, Clone, Copy, PartialEq, Eq)]
pub enum Command {
    /// Leave the program.
    Quit,
    /// Show the key bindings.
    Help,
    /// Give every player a blank board.
    ClearScores,
    /// Ask for a name and add that player.
    AddPlayer,
    /// Ask for a name and remove that player.
    DeletePlayer,
    /// Ask for a number, fill it into the input, then ask for the player on
    /// whose board it is scored.
    EnterScore(ScoreInput),
    /// Ask for the player on whose board the input is scored as it is.
    ClaimScore(ScoreInput),
    /// Ask for a file name and save the registry.
    Save,
    /// Ask for a path and load the registry.
    Load,
    /// The key means nothing to the board.
    Ignored,
}

/// The command bound to each key.
pub open spec fn bound_command(key: KeyPress) -> Command {
    match key {
        KeyPress::Char('q') => Command::Quit,
        KeyPress::Char('?') => Command::Help,
        KeyPress::Char('C') => Command::ClearScores,
        KeyPress::Char('a') => Command::AddPlayer,
        KeyPress::Char('d') => Command::DeletePlayer,
        KeyPress::Char('1') => Command::EnterScore(ScoreInput::Ones(None)),
        KeyPress::Char('2') => Command::EnterScore(ScoreInput::Twos(None)),
        KeyPress::Char('3') => Command::EnterScore(ScoreInput::Threes(None)),
        KeyPress::Char('4') => Command::EnterScore(ScoreInput::Fours(None)),
        KeyPress::Char('5') => Command::EnterScore(ScoreInput::Fives(None)),
        KeyPress::Char('6') => Command::EnterScore(ScoreInput::Sixes(None)),
        KeyPress::Char('c') => Command::EnterScore(ScoreInput::Choice(None)),
        KeyPress::Char('h') => Command::EnterScore(ScoreInput::FullHouse(None)),
        KeyPress::Char('k') => Command::EnterScore(ScoreInput::FourOfKind(None)),
        KeyPress::Char('s') => Command::ClaimScore(ScoreInput::SmallStraight(true)),
        KeyPress::Char('l') => Command::ClaimScore(ScoreInput::LargeStraight(true)),
        KeyPress::Char('y') => Command::ClaimScore(ScoreInput::Yacht(true)),
        KeyPress::Ctrl('s') => Command::Save,
        KeyPress::Ctrl('l') => Command::Load,
        _ => Command::Ignored,
    }
}

/// What `key` asks of the board. A key that enters a score yields an input
/// that awaits its value; a key that claims a combination yields the claim.
pub fn command_for(key: KeyPress) -> (command: Command)
    ensures
        command == bound_command(key),
        command matches Command::EnterScore(input) ==> input.awaits_value(),
        command matches Command::ClaimScore(input) ==> !input.awaits_value(),
{
    match key {
        KeyPress::Char(c) => {
            if c == 'q' {
                Command::Quit
            } else if c == '?' {
                Command::Help
            } else if c == 'C' {
                Command::ClearScores
            } else if c == 'a' {
                Command::AddPlayer
            } else if c == 'd' {
                Command::DeletePlayer
            } else if c == '1' {
                Command::EnterScore(ScoreInput::Ones(None))
            } else if c == '2' {
                Command::EnterScore(ScoreInput::Twos(None))
            } else if c == '3' {
                Command::EnterScore(ScoreInput::Threes(None))
            } else if c == '4' {
                Command::EnterScore(ScoreInput::Fours(None))
            } else if c == '5' {
                Command::EnterScore(ScoreInput::Fives(None))
            } else if c == '6' {
                Command::EnterScore(ScoreInput::Sixes(None))
            } else if c == 'c' {
                Command::EnterScore(ScoreInput::Choice(None))
            } else if c == 'h' {
                Command::EnterScore(ScoreInput::FullHouse(None))
            } else if c == 'k' {
                Command::EnterScore(ScoreInput::FourOfKind(None))
            } else if c == 's' {
                Command::ClaimScore(ScoreInput::SmallStraight(true))
            } else if c == 'l' {
                Command::ClaimScore(ScoreInput::LargeStraight(true))
            } else if c == 'y' {
                Command::ClaimScore(ScoreInput::Yacht(true))
            } else {
                Command::Ignored
            }
        },
        KeyPress::Ctrl(c) => {
            if c == 's' {
                Command::Save
            } else if c == 'l' {
                Command::Load
            } else {
                Command::Ignored
            }
        },
        KeyPress::Other => Command::Ignored,
    }
}

/// `text` without the white space at its two ends.
pub uninterp spec fn trimmed(text: Seq<char>) -> Seq<char>;

/// `str::trim` of the standard library: the slice of `text` that is left when
/// leading and trailing white space is taken away. The contract gives that
/// slice a name and claims nothing else of it.
#[verifier::external_body]
fn trim(text: &str) -> (inner: &str)
    ensures
        inner@ == trimmed(text@),
{
    text.trim()
}

/// The character is one of the ten decimal digits.
pub open spec fn is_digit(c: char) -> bool {
    '0' <= c <= '9'
}

/// The number that a sequence of decimal digits writes.
pub open spec fn decimal_value(digits: Seq<char>) -> nat
    decreases digits.len(),
{
    if digits.len() == 0 {
        0
    } else {
        (10 * decimal_value(digits.drop_last()) + (digits.last() as u32 - '0' as u32)) as nat
    }
}

/// The digits of a written number: the text itself, without a leading plus
/// sign where it has one.
pub open spec fn digits_of(text: Seq<char>) -> Seq<char> {
    if text.len() > 0 && text[0] == '+' {
        text.skip(1)
    } else {
        text
    }
}

/// The score that `text` writes: a number of at least one decimal digit and
/// nothing else, but for a plus sign that may stand in front, and no greater
/// than a `u16` holds.
pub open spec fn written_score(text: Seq<char>) -> Option<u16> {
    let digits = digits_of(text);
    if digits.len() > 0 && (forall|i: int| 0 <= i < digits.len() ==> is_digit(#[trigger] digits[i]))
        && decimal_value(digits) <= u16::MAX {
        Some(decimal_value(digits) as u16)
    } else {
        None
    }
}

/// `str::parse::<u16>` of the standard library, its error left out. As
/// the library documents the parsing of an unsigned integer: the text is an
/// optional plus sign followed by decimal digits only, at least one; any
/// other character, white space included, is an error, and so is a number
/// that does not fit.
#[verifier::external_body]
fn parse_u16(text: &str) -> (number: Option<u16>)
    ensures
        number == written_score(text@),
{
    match text.parse::<u16>() {
        Ok(number) => Some(number),
        Err(_) => None,
    }
}

/// The score that the user has typed, white space around it set aside; `None`
/// where what is left is no score.
pub fn parse_score(text: &str) -> (score: Option<u16>)
    ensures
        score == written_score(trimmed(text@)),
{
    parse_u16(trim(text))
}

} // verus!
