//! Text predicates and joining used when prompts and aggregated inputs are built.

use vstd::prelude::*;

verus! {

/// Whether `c` is one of the code points with the Unicode `White_Space` property.
pub open spec fn is_space(c: char) -> bool {
    let u = c as u32;
    ||| 0x09 <= u <= 0x0D
    ||| u == 0x20
    ||| u == 0x85
    ||| u == 0xA0
    ||| u == 0x1680
    ||| 0x2000 <= u <= 0x200A
    ||| u == 0x2028
    ||| u == 0x2029
    ||| u == 0x202F
    ||| u == 0x205F
    ||| u == 0x3000
}

/// A text is blank when it holds nothing but white space; the empty text is blank.
pub open spec fn blank(s: Seq<char>) -> bool {
    forall|i: int| 0 <= i < s.len() ==> is_space(#[trigger] s[i])
}

/// The blank line that separates the parts of an aggregated input.
pub open spec fn separator() -> Seq<char> {
    seq!['\n', '\n']
}

/// The parts in order, with a separator between each two neighbours.
/// No parts give the empty text; a single part is returned as it is.
pub open spec fn joined(parts: Seq<Seq<char>>) -> Seq<char>
    decreases parts.len(),
{
    if parts.len() == 0 {
        Seq::empty()
    } else if parts.len() == 1 {
        parts[0]
    } else {
        joined(parts.drop_last()) + separator() + parts.last()
    }
}

/// Executable test for [`is_space`].
pub fn char_is_space(c: char) -> (b: bool)
    ensures
        b == is_space(c),
{
    let u: u32 = c as u32;
    (0x09 <= u && u <= 0x0D) || u == 0x20 || u == 0x85 || u == 0xA0 || u == 0x1680 || (0x2000 <= u
        && u <= 0x200A) || u == 0x2028 || u == 0x2029 || u == 0x202F || u == 0x205F || u == 0x3000
}

/// Executable test for [`blank`].
pub fn is_blank(s: &str) -> (b: bool)
    ensures
        b == blank(s@),
{
    let mut all_space = true;
    for c in it: s.chars()
        invariant
            it.seq() == s@,
            all_space == blank(s@.take(it.index() as int)),
    {
        let ghost before = s@.take(it.index() as int);
        let ghost after = s@.take(it.index() + 1);
        proof {
            assert(after == before.push(c));
            if blank(before) && is_space(c) {
                assert forall|i: int| 0 <= i < after.len() implies is_space(#[trigger] after[i]) by {
                    if i < before.len() {
                        assert(after[i] == before[i]);
                    }
                }
            } else if !blank(before) {
                let j = choose|j: int| 0 <= j < before.len() && !is_space(#[trigger] before[j]);
                assert(after[j] == before[j]);
            } else {
                assert(after[before.len() as int] == c);
            }
        }
        let space = char_is_space(c);
        all_space = all_space && space;
    }
    proof {
        assert(s@.take(s@.len() as int) == s@);
    }
    all_space
}

/// Whether two texts are the same.
pub fn same_text(a: &str, b: &str) -> (same: bool)
    ensures
        same == (a@ == b@),
{
    let x = a.to_owned();
    let y = b.to_owned();
    x == y
}

} // verus!
