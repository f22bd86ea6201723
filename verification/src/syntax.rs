//! The instruction alphabet and the bracket structure of a program text.
//!
//! A text is modelled as a `Seq<char>`. Its bracket structure is described
//! through `depth`, the nesting level reached after a prefix of the text.

use vstd::prelude::*;

verus! {

/// The eight symbols a program may hold.
pub open spec fn is_instruction(c: char) -> bool {
    c == '<' || c == '>' || c == '+' || c == '-' || c == '[' || c == ']' || c == '.' || c == ','
}

/// Every character of `text` belongs to the instruction alphabet.
pub open spec fn all_instructions(text: Seq<char>) -> bool {
    forall|i: int| 0 <= i < text.len() ==> is_instruction(#[trigger] text[i])
}

/// Position `i` holds the first character of `text` outside the alphabet.
pub open spec fn is_first_foreign(text: Seq<char>, i: int) -> bool {
    &&& 0 <= i < text.len()
    &&& !is_instruction(text[i])
    &&& forall|j: int| 0 <= j < i ==> is_instruction(#[trigger] text[j])
}

/// What a character adds to the nesting level.
pub open spec fn bracket_weight(c: char) -> int {
    if c == '[' {
        1
    } else if c == ']' {
        -1
    } else {
        0
    }
}

/// The nesting level after the first `n` characters of `text`: the number
/// of `[` among them minus the number of `]`.
pub open spec fn depth(text: Seq<char>, n: int) -> int
    decreases n,
{
    if n <= 0 {
        0
    } else {
        depth(text, n - 1) + bracket_weight(text[n - 1])
    }
}

/// No prefix of `text` closes more brackets than it opens.
pub open spec fn never_dips(text: Seq<char>) -> bool {
    forall|n: int| 0 <= n <= text.len() ==> depth(text, n) >= 0
}

/// Position `i` holds the first `]` that closes a bracket nobody opened:
/// the prefix ending with it is the shortest one of negative depth.
pub open spec fn is_first_dip(text: Seq<char>, i: int) -> bool {
    &&& 0 <= i < text.len()
    &&& depth(text, i + 1) < 0
    &&& forall|n: int| 0 <= n <= i ==> depth(text, n) >= 0
}

/// Position `p` holds a `[` that the rest of `text` never closes: the
/// nesting level stays above the level at which it was opened.
pub open spec fn is_unclosed(text: Seq<char>, p: int) -> bool {
    &&& 0 <= p < text.len()
    &&& text[p] == '['
    &&& forall|n: int| p < n <= text.len() ==> depth(text, n) > depth(text, p)
}

/// The unclosed positions below `n`, in increasing order.
pub open spec fn unclosed_below(text: Seq<char>, n: int) -> Seq<int>
    decreases n,
{
    if n <= 0 {
        Seq::empty()
    } else if is_unclosed(text, n - 1) {
        unclosed_below(text, n - 1).push(n - 1)
    } else {
        unclosed_below(text, n - 1)
    }
}

/// Every unclosed position of `text`, outermost bracket first.
pub open spec fn unclosed(text: Seq<char>) -> Seq<int> {
    unclosed_below(text, text.len() as int)
}

/// Every `]` closes an open `[`, and every `[` is closed.
pub open spec fn balanced(text: Seq<char>) -> bool {
    never_dips(text) && depth(text, text.len() as int) == 0
}

/// A text that the machine may run: instructions only, brackets balanced.
pub open spec fn well_formed(text: Seq<char>) -> bool {
    all_instructions(text) && balanced(text)
}

/// The positions of a stack of bracket positions, as integers.
pub open spec fn positions(stack: Seq<usize>) -> Seq<int> {
    stack.map_values(|p: usize| p as int)
}

/// The stack of open brackets after the first `n` characters of `text`:
/// entry `k` is the `[` that raised the nesting level from `k` to `k + 1`
/// and has not been closed within those characters.
pub open spec fn tracks_open(text: Seq<char>, n: int, stack: Seq<int>) -> bool {
    &&& stack.len() == depth(text, n)
    &&& forall|k: int|
        0 <= k < stack.len() ==> {
            &&& 0 <= (#[trigger] stack[k]) < n
            &&& text[stack[k]] == '['
            &&& depth(text, stack[k]) == k
            &&& forall|j: int| stack[k] < j <= n ==> depth(text, j) > k
        }
}

/// Decides membership in the instruction alphabet.
pub fn is_instruction_char(c: char) -> (b: bool)
    ensures
        b == is_instruction(c),
{
    c == '<' || c == '>' || c == '+' || c == '-' || c == '[' || c == ']' || c == '.' || c == ','
}

/// `unclosed_below(text, n)` is strictly increasing and holds exactly the
/// unclosed positions below `n`.
pub proof fn lemma_unclosed_below_sound(text: Seq<char>, n: int)
    requires
        0 <= n <= text.len(),
    ensures
        forall|a: int, b: int|
            0 <= a < b < unclosed_below(text, n).len() ==> unclosed_below(text, n)[a]
                < unclosed_below(text, n)[b],
        forall|a: int|
            0 <= a < unclosed_below(text, n).len() ==> 0 <= #[trigger] unclosed_below(text, n)[a]
                < n && is_unclosed(text, unclosed_below(text, n)[a]),
        forall|p: int|
            0 <= p < n && is_unclosed(text, p) ==> unclosed_below(text, n).contains(p),
    decreases n,
{
    if n > 0 {
        lemma_unclosed_below_sound(text, n - 1);
        let prev = unclosed_below(text, n - 1);
        let cur = unclosed_below(text, n);
        if is_unclosed(text, n - 1) {
            assert(cur[prev.len() as int] == n - 1);
            assert forall|p: int| 0 <= p < n && is_unclosed(text, p) implies cur.contains(p) by {
                if p < n - 1 {
                    let a = choose|a: int| 0 <= a < prev.len() && prev[a] == p;
                    assert(cur[a] == p);
                }
            }
        }
    }
}

/// A strictly increasing list that holds exactly the unclosed positions
/// below `n` is `unclosed_below(text, n)`.
pub proof fn lemma_unclosed_below_unique(text: Seq<char>, n: int, q: Seq<int>)
    requires
        0 <= n <= text.len(),
        forall|a: int, b: int| 0 <= a < b < q.len() ==> q[a] < q[b],
        forall|a: int| 0 <= a < q.len() ==> 0 <= #[trigger] q[a] < n && is_unclosed(text, q[a]),
        forall|p: int| 0 <= p < n && is_unclosed(text, p) ==> q.contains(p),
    ensures
        q == unclosed_below(text, n),
    decreases n,
{
    if n <= 0 {
        if q.len() > 0 {
            assert(0 <= q[0] < n);
        }
    } else if is_unclosed(text, n - 1) {
        // n - 1 is in q, and nothing in q is larger: it is the last entry
        let a = choose|a: int| 0 <= a < q.len() && q[a] == n - 1;
        if a < q.len() - 1 {
            assert(q[q.len() - 1] < n);
        }
        let rest = q.drop_last();
        assert forall|p: int| 0 <= p < n - 1 && is_unclosed(text, p) implies rest.contains(p) by {
            let b = choose|b: int| 0 <= b < q.len() && q[b] == p;
            assert(rest[b] == p);
        }
        lemma_unclosed_below_unique(text, n - 1, rest);
    } else {
        lemma_unclosed_below_unique(text, n - 1, q);
    }
}

/// A text that is not made of instructions alone has a first character
/// outside the alphabet, at or after any position that only instructions
/// precede.
pub proof fn lemma_first_foreign_exists(text: Seq<char>, from: int) -> (i: int)
    requires
        !all_instructions(text),
        0 <= from <= text.len(),
        forall|j: int| 0 <= j < from ==> is_instruction(#[trigger] text[j]),
    ensures
        is_first_foreign(text, i),
        from <= i,
    decreases text.len() - from,
{
    if from < text.len() && !is_instruction(text[from]) {
        from
    } else {
        lemma_first_foreign_exists(text, from + 1)
    }
}

/// A text that dips has a first dip, at or after any position up to which
/// it does not dip.
pub proof fn lemma_first_dip_exists(text: Seq<char>, from: int) -> (i: int)
    requires
        !never_dips(text),
        0 <= from <= text.len(),
        forall|n: int| 0 <= n <= from ==> depth(text, n) >= 0,
    ensures
        is_first_dip(text, i),
        from <= i,
    decreases text.len() - from,
{
    if from < text.len() && depth(text, from + 1) < 0 {
        from
    } else {
        lemma_first_dip_exists(text, from + 1)
    }
}

/// At most one position is the first foreign character of a text.
pub proof fn lemma_first_foreign_unique(text: Seq<char>, i: int, j: int)
    requires
        is_first_foreign(text, i),
        is_first_foreign(text, j),
    ensures
        i == j,
{
}

/// At most one position is the first dip of a text.
pub proof fn lemma_first_dip_unique(text: Seq<char>, i: int, j: int)
    requires
        is_first_dip(text, i),
        is_first_dip(text, j),
    ensures
        i == j,
{
}

/// The stack kept over a whole text that never dips lists its unclosed brackets.
pub proof fn lemma_stack_lists_unclosed(text: Seq<char>, stack: Seq<int>)
    requires
        never_dips(text),
        tracks_open(text, text.len() as int, stack),
    ensures
        stack == unclosed(text),
{
    let n = text.len() as int;
    assert forall|p: int| 0 <= p < n && is_unclosed(text, p) implies stack.contains(p) by {
        // the entry for the level at which p was opened can only be p
        assert(stack[depth(text, p)] == p);
    }
    lemma_unclosed_below_unique(text, n, stack);
}

/// Over any prefix that never dips, a stack of open brackets exists.
pub proof fn lemma_open_stack_exists(text: Seq<char>, n: int) -> (stack: Seq<int>)
    requires
        0 <= n <= text.len(),
        forall|m: int| 0 <= m <= n ==> depth(text, m) >= 0,
    ensures
        tracks_open(text, n, stack),
    decreases n,
{
    if n == 0 {
        Seq::empty()
    } else {
        let prev = lemma_open_stack_exists(text, n - 1);
        let c = text[n - 1];
        if c == '[' {
            prev.push(n - 1)
        } else if c == ']' {
            prev.drop_last()
        } else {
            prev
        }
    }
}

/// The nesting level over a concatenation: within `a` it is that of `a`,
/// beyond it the level of all of `a` plus that of the part of `b`.
pub proof fn lemma_depth_concat(a: Seq<char>, b: Seq<char>, n: int)
    requires
        0 <= n <= a.len() + b.len(),
    ensures
        depth(a + b, n) == if n <= a.len() {
            depth(a, n)
        } else {
            depth(a, a.len() as int) + depth(b, n - a.len())
        },
    decreases n,
{
    if n > 0 {
        lemma_depth_concat(a, b, n - 1);
        if n > a.len() {
            assert(depth(b, n - a.len()) == depth(b, n - a.len() - 1) + bracket_weight(
                b[n - a.len() - 1],
            ));
        }
    }
}

/// A text of instructions without any bracket is well formed.
pub proof fn lemma_flat_well_formed(text: Seq<char>)
    requires
        all_instructions(text),
        forall|i: int| 0 <= i < text.len() ==> bracket_weight(#[trigger] text[i]) == 0,
    ensures
        well_formed(text),
{
    assert forall|n: int| 0 <= n <= text.len() implies depth(text, n) == 0 by {
        lemma_flat_depth(text, n);
    }
}

proof fn lemma_flat_depth(text: Seq<char>, n: int)
    requires
        0 <= n <= text.len(),
        forall|i: int| 0 <= i < text.len() ==> bracket_weight(#[trigger] text[i]) == 0,
    ensures
        depth(text, n) == 0,
    decreases n,
{
    if n > 0 {
        lemma_flat_depth(text, n - 1);
    }
}

/// Two well-formed texts, one after the other, are a well-formed text.
pub proof fn lemma_sequence_well_formed(a: Seq<char>, b: Seq<char>)
    requires
        well_formed(a),
        well_formed(b),
    ensures
        well_formed(a + b),
{
    assert forall|n: int| 0 <= n <= (a + b).len() implies depth(a + b, n) >= 0 by {
        lemma_depth_concat(a, b, n);
    }
    lemma_depth_concat(a, b, (a + b).len() as int);
}

/// A well-formed text between `[` and `]` is a well-formed text, so that
/// loops may nest to any depth.
pub proof fn lemma_loop_well_formed(body: Seq<char>)
    requires
        well_formed(body),
    ensures
        well_formed(seq!['['] + body + seq![']']),
{
    let open = seq!['['];
    let close = seq![']'];
    let head = open + body;
    let whole = head + close;
    assert(depth(open, 1) == 1) by {
        assert(depth(open, 0) == 0);
    }
    assert forall|n: int| 0 <= n <= head.len() implies depth(head, n) >= 0 && (n == head.len()
        ==> depth(head, n) == 1) by {
        lemma_depth_concat(open, body, n);
    }
    assert(depth(close, 1) == -1) by {
        assert(depth(close, 0) == 0);
    }
    assert forall|n: int| 0 <= n <= whole.len() implies depth(whole, n) >= 0 && (n == whole.len()
        ==> depth(whole, n) == 0) by {
        lemma_depth_concat(head, close, n);
    }
}

} // verus!
