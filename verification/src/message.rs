//! The wording of diagnostics.

use vstd::prelude::*;
use crate::syntax::positions;
use crate::validate::{Diagnostic, ValidationError};

verus! {

/// The decimal digit for `d`, which is below ten.
pub open spec fn digit(d: nat) -> char {
    ((48 + d) as u8) as char
}

/// The decimal numeral of `n`, without leading zeros.
pub open spec fn decimal(n: nat) -> Seq<char>
    decreases n,
{
    if n < 10 {
        seq![digit(n)]
    } else {
        decimal(n / 10).push(digit(n % 10))
    }
}

/// The numerals of `indices`, separated by a comma and a space.
pub open spec fn joined(indices: Seq<int>) -> Seq<char>
    decreases indices.len(),
{
    if indices.len() == 0 {
        Seq::empty()
    } else if indices.len() == 1 {
        decimal(indices[0] as nat)
    } else {
        joined(indices.drop_last()) + ", "@ + decimal(indices.last() as nat)
    }
}

/// The sentence that reports `d`.
pub open spec fn message_text(d: Diagnostic) -> Seq<char> {
    match d {
        Diagnostic::InvalidCharacter { character, index } => "Invalid Char: "@.push(character)
            + ", at idx: "@ + decimal(index as nat),
        Diagnostic::UnmatchedClosingBracket { index } => "Unexpected closing bracket at: "@
            + decimal(index as nat),
        Diagnostic::UnclosedBrackets { indices } => if indices.len() > 1 {
            "Unclosed brackets at indexs: "@ + joined(indices)
        } else {
            "Unclosed bracket at index: "@ + joined(indices)
        },
    }
}

/// Appends `c` to `text`.
///
/// Trusted: the body is `String::push`, which std documents as appending
/// the given character to the end of the string.
#[verifier::external_body]
fn push_char(text: &mut String, c: char)
    ensures
        final(text)@ == old(text)@.push(c),
{
    text.push(c);
}

/// Appends the decimal numeral of `n` to `text`.
pub fn push_decimal(text: &mut String, n: usize)
    ensures
        final(text)@ == old(text)@ + decimal(n as nat),
    decreases n,
{
    if n >= 10 {
        push_decimal(text, n / 10);
    }
    let d: u8 = (n % 10) as u8;
    push_char(text, (48 + d) as char);
}

/// Appends the numerals of `indices`, separated by a comma and a space.
pub fn push_joined(text: &mut String, indices: &Vec<usize>)
    ensures
        final(text)@ == old(text)@ + joined(positions(indices@)),
{
    let ghost all = positions(indices@);
    let ghost start = text@;
    let mut i: usize = 0;
    while i < indices.len()
        invariant
            i <= indices.len(),
            all == positions(indices@),
            text@ == start + joined(all.take(i as int)),
        decreases indices.len() - i,
    {
        if i > 0 {
            text.append(", ");
        }
        push_decimal(text, indices[i]);
        assert(all.take(i + 1).drop_last() =~= all.take(i as int));
        i = i + 1;
    }
    assert(all.take(i as int) =~= all);
}

impl ValidationError {
    /// The sentence that reports this diagnostic to a person.
    pub fn message(&self) -> (text: String)
        ensures
            text@ == message_text(self@),
    {
        match self {
            ValidationError::InvalidCharacter { character, index } => {
                let mut text = String::from_str("Invalid Char: ");
                push_char(&mut text, *character);
                text.append(", at idx: ");
                push_decimal(&mut text, *index);
                text
            },
            ValidationError::UnmatchedClosingBracket { index } => {
                let mut text = String::from_str("Unexpected closing bracket at: ");
                push_decimal(&mut text, *index);
                text
            },
            ValidationError::UnclosedBrackets { indices } => {
                let mut text = if indices.len() > 1 {
                    String::from_str("Unclosed brackets at indexs: ")
                } else {
                    String::from_str("Unclosed bracket at index: ")
                };
                push_joined(&mut text, indices);
                text
            },
        }
    }
}

} // verus!
