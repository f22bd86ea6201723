//! The validator: classifies a program text as well formed or rejects it
//! with a single diagnostic.

use vstd::prelude::*;
use vstd::utf8::encode_utf8;
use crate::syntax::{
    all_instructions, bracket_weight, depth, is_first_dip, is_first_foreign, is_instruction,
    is_instruction_char, is_unclosed, lemma_first_dip_exists, lemma_first_dip_unique,
    lemma_first_foreign_exists, lemma_first_foreign_unique, lemma_flat_well_formed,
    lemma_loop_well_formed, lemma_open_stack_exists, lemma_sequence_well_formed,
    lemma_stack_lists_unclosed, lemma_unclosed_below_sound, never_dips, positions, tracks_open,
    unclosed, well_formed,
};

verus! {

/// Why a program text was rejected.
#[derive(Debug, PartialEq, Eq)]
pub enum ValidationError {
    /// A character outside the instruction alphabet, with its position.
    InvalidCharacter { character: char, index: usize },
    /// A `]` at a position where no `[` is open.
    UnmatchedClosingBracket { index: usize },
    /// The positions of every `[` that is never closed, outermost first.
    UnclosedBrackets { indices: Vec<usize> },
}

/// The mathematical content of a `ValidationError`.
pub enum Diagnostic {
    InvalidCharacter { character: char, index: int },
    UnmatchedClosingBracket { index: int },
    UnclosedBrackets { indices: Seq<int> },
}

impl View for ValidationError {
    type V = Diagnostic;

    open spec fn view(&self) -> Diagnostic {
        match *self {
            ValidationError::InvalidCharacter { character, index } => Diagnostic::InvalidCharacter {
                character,
                index: index as int,
            },
            ValidationError::UnmatchedClosingBracket { index } => {
                Diagnostic::UnmatchedClosingBracket { index: index as int }
            },
            ValidationError::UnclosedBrackets { indices } => Diagnostic::UnclosedBrackets {
                indices: positions(indices@),
            },
        }
    }
}

/// The diagnostic that `text` deserves, or `None` for a well-formed text.
///
/// The character set is judged first, over the whole text; then the first
/// `]` without an open `[`; then the brackets left open at the end.
pub open spec fn diagnosis(text: Seq<char>) -> Option<Diagnostic> {
    if !all_instructions(text) {
        let i = choose|i: int| is_first_foreign(text, i);
        Some(Diagnostic::InvalidCharacter { character: text[i], index: i })
    } else if !never_dips(text) {
        Some(
            Diagnostic::UnmatchedClosingBracket { index: choose|i: int| is_first_dip(text, i) },
        )
    } else if depth(text, text.len() as int) > 0 {
        Some(Diagnostic::UnclosedBrackets { indices: unclosed(text) })
    } else {
        None
    }
}

/// A text has no more characters than its UTF-8 encoding has bytes.
proof fn lemma_encoding_length(chars: Seq<char>)
    ensures
        chars.len() <= encode_utf8(chars).len(),
    decreases chars.len(),
{
    if chars.len() > 0 {
        lemma_encoding_length(chars.drop_first());
    }
}

/// What `diagnosis` names is there: a text is well formed, or it has a
/// first foreign character, or a first dip at a `]`, or brackets left open,
/// and the diagnostic holds exactly those.
pub proof fn lemma_diagnosis_is_definite(text: Seq<char>)
    ensures
        match diagnosis(text) {
            None => well_formed(text),
            Some(Diagnostic::InvalidCharacter { character, index }) => {
                is_first_foreign(text, index) && character == text[index]
            },
            Some(Diagnostic::UnmatchedClosingBracket { index }) => {
                all_instructions(text) && is_first_dip(text, index) && text[index] == ']'
            },
            Some(Diagnostic::UnclosedBrackets { indices }) => {
                &&& all_instructions(text)
                &&& never_dips(text)
                &&& indices.len() > 0
                &&& forall|p: int| indices.contains(p) <==> is_unclosed(text, p)
            },
        },
{
    if !all_instructions(text) {
        let i = lemma_first_foreign_exists(text, 0);
        lemma_foreign_character_rejected(text, i);
    } else if !never_dips(text) {
        let i = lemma_first_dip_exists(text, 0);
        // only a `]` lowers the level
        assert(depth(text, i + 1) == depth(text, i) + bracket_weight(text[i]));
        let j = choose|j: int| is_first_dip(text, j);
        lemma_first_dip_unique(text, i, j);
    } else if depth(text, text.len() as int) > 0 {
        lemma_unclosed_brackets_rejected(text);
    }
}

/// A text whose first character outside the alphabet stands at `i` is
/// rejected for that character, whatever its brackets look like.
pub proof fn lemma_foreign_character_rejected(text: Seq<char>, i: int)
    requires
        is_first_foreign(text, i),
    ensures
        diagnosis(text) == Some(Diagnostic::InvalidCharacter { character: text[i], index: i }),
{
    let j = choose|j: int| is_first_foreign(text, j);
    lemma_first_foreign_unique(text, i, j);
}

/// A non-empty text without a single instruction is rejected for its
/// first character.
pub proof fn lemma_only_foreign_rejected(text: Seq<char>)
    requires
        text.len() > 0,
        forall|i: int| 0 <= i < text.len() ==> !is_instruction(#[trigger] text[i]),
    ensures
        diagnosis(text) == Some(Diagnostic::InvalidCharacter { character: text[0], index: 0 }),
{
    lemma_foreign_character_rejected(text, 0);
}

/// In a text of instructions, a `]` met while no bracket is open, and
/// before which no other `]` was met so, is the one reported.
pub proof fn lemma_unmatched_close_rejected(text: Seq<char>, i: int)
    requires
        all_instructions(text),
        0 <= i < text.len(),
        text[i] == ']',
        depth(text, i) == 0,
        forall|n: int| 0 <= n <= i ==> depth(text, n) >= 0,
    ensures
        diagnosis(text) == Some(Diagnostic::UnmatchedClosingBracket { index: i }),
{
    assert(is_first_dip(text, i));
    let j = choose|j: int| is_first_dip(text, j);
    lemma_first_dip_unique(text, i, j);
}

/// A text of instructions in which every `]` closes a bracket, but which
/// opens more than it closes, is rejected with the list of every `[` left
/// open: as many as the surplus, in increasing order.
pub proof fn lemma_unclosed_brackets_rejected(text: Seq<char>)
    requires
        all_instructions(text),
        never_dips(text),
        depth(text, text.len() as int) > 0,
    ensures
        diagnosis(text) == Some(Diagnostic::UnclosedBrackets { indices: unclosed(text) }),
        unclosed(text).len() == depth(text, text.len() as int),
        forall|p: int| is_unclosed(text, p) <==> unclosed(text).contains(p),
        forall|a: int, b: int|
            0 <= a < b < unclosed(text).len() ==> unclosed(text)[a] < unclosed(text)[b],
{
    let n = text.len() as int;
    let stack = lemma_open_stack_exists(text, n);
    lemma_stack_lists_unclosed(text, stack);
    lemma_unclosed_below_sound(text, n);
    assert forall|p: int| unclosed(text).contains(p) implies is_unclosed(text, p) by {
        let a = choose|a: int| 0 <= a < unclosed(text).len() && unclosed(text)[a] == p;
        assert(is_unclosed(text, unclosed(text)[a]));
    }
}

/// The validator accepts exactly the well-formed texts.
pub proof fn lemma_accepts_well_formed(text: Seq<char>)
    ensures
        diagnosis(text) is None <==> well_formed(text),
{
}

/// A text of instructions without any bracket is accepted.
pub proof fn lemma_accepts_flat(text: Seq<char>)
    requires
        all_instructions(text),
        forall|i: int| 0 <= i < text.len() ==> bracket_weight(#[trigger] text[i]) == 0,
    ensures
        diagnosis(text) is None,
{
    lemma_flat_well_formed(text);
}

/// What the validator accepts can be put in sequence and wrapped in a
/// loop, and is accepted again: loops pass at any nesting depth.
pub proof fn lemma_accepts_composition(a: Seq<char>, b: Seq<char>)
    requires
        diagnosis(a) is None,
        diagnosis(b) is None,
    ensures
        diagnosis(a + b) is None,
        diagnosis(seq!['['] + a + seq![']']) is None,
{
    lemma_sequence_well_formed(a, b);
    lemma_loop_well_formed(a);
}

/// Checks that `program` holds instructions only and that its brackets
/// balance. The first failing check decides the diagnostic.
pub fn validate(program: &str) -> (result: Result<(), ValidationError>)
    ensures
        match result {
            Ok(()) => diagnosis(program@) is None,
            Err(e) => diagnosis(program@) == Some(e@),
        },
        result is Ok <==> well_formed(program@),
{
    // the byte length bounds every character position
    let bound = program.as_bytes().len();
    proof {
        lemma_encoding_length(program@);
    }
    let mut index: usize = 0;
    for c in it: program.chars()
        invariant
            index == it.index(),
            it.seq() == program@,
            program@.len() <= bound,
            forall|j: int| 0 <= j < index ==> is_instruction(#[trigger] program@[j]),
    {
        if !is_instruction_char(c) {
            proof {
                assert(is_first_foreign(program@, index as int));
                let i = choose|i: int| is_first_foreign(program@, i);
                lemma_first_foreign_unique(program@, i, index as int);
            }
            return Err(ValidationError::InvalidCharacter { character: c, index });
        }
        index = index + 1;
    }
    let mut open: Vec<usize> = Vec::new();
    let mut index: usize = 0;
    for c in it: program.chars()
        invariant
            index == it.index(),
            it.seq() == program@,
            program@.len() <= bound,
            all_instructions(program@),
            tracks_open(program@, index as int, positions(open@)),
            forall|n: int| 0 <= n <= index ==> depth(program@, n) >= 0,
    {
        let ghost old_open = open@;
        if c == '[' {
            open.push(index);
            assert(positions(open@) =~= positions(old_open).push(index as int));
        } else if c == ']' {
            if open.len() == 0 {
                proof {
                    assert(is_first_dip(program@, index as int));
                    let i = choose|i: int| is_first_dip(program@, i);
                    lemma_first_dip_unique(program@, i, index as int);
                }
                return Err(ValidationError::UnmatchedClosingBracket { index });
            }
            open.pop();
            assert(positions(open@) =~= positions(old_open).drop_last());
        }
        index = index + 1;
    }
    if open.len() > 0 {
        proof {
            lemma_stack_lists_unclosed(program@, positions(open@));
        }
        return Err(ValidationError::UnclosedBrackets { indices: open });
    }
    Ok(())
}

} // verus!
