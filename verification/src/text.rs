//! Small helpers on characters and strings.

use vstd::prelude::*;

verus! {

/// Whether a character has the Unicode property `White_Space`: what
/// `char::is_whitespace` answers.
pub uninterp spec fn is_white_space(c: char) -> bool;

/// `char::is_whitespace`: the answer is the character's `White_Space`
/// property.
pub assume_specification[ char::is_whitespace ](c: char) -> (b: bool)
    ensures
        b == is_white_space(c),
;

/// `String::push`: the character is appended to the end.
pub assume_specification[ std::string::String::push ](s: &mut std::string::String, c: char)
    ensures
        final(s)@ == old(s)@.push(c),
;

/// `String::push_str`: the characters of the slice are appended to the end.
pub assume_specification[ std::string::String::push_str ](
    s: &mut std::string::String,
    other: &str,
)
    ensures
        final(s)@ == old(s)@ + other@,
;

/// `str::eq`: two string slices are equal when they hold the same characters.
#[verifier::external_body]
pub(crate) fn str_eq(a: &str, b: &str) -> (same: bool)
    ensures
        same == (a@ == b@),
{
    a == b
}

/// The characters of a string, in order.
pub fn chars_of(text: &str) -> (v: Vec<char>)
    ensures
        v@ == text@,
{
    let mut v: Vec<char> = Vec::new();
    for c in it: text.chars()
        invariant
            v@ == it.seq().take(it.index() as int),
    {
        v.push(c);
    }
    v
}

/// The texts of a list, one after the other.
pub open spec fn concat(blocks: Seq<Seq<char>>) -> Seq<char>
    decreases blocks.len(),
{
    if blocks.len() == 0 {
        Seq::empty()
    } else {
        concat(blocks.drop_last()) + blocks.last()
    }
}

/// A list of one text is that text.
pub proof fn lemma_concat_one(block: Seq<char>)
    ensures
        concat(seq![block]) == block,
{
    assert(seq![block].drop_last() =~= Seq::<Seq<char>>::empty());
    assert(concat(Seq::<Seq<char>>::empty()) =~= Seq::<char>::empty());
    assert(concat(seq![block]) =~= block);
}

/// The texts of two lists, one list after the other.
pub proof fn lemma_concat_add(a: Seq<Seq<char>>, b: Seq<Seq<char>>)
    ensures
        concat(a + b) == concat(a) + concat(b),
    decreases b.len(),
{
    if b.len() == 0 {
        assert(a + b =~= a);
    } else {
        lemma_concat_add(a, b.drop_last());
        assert((a + b).drop_last() =~= a + b.drop_last());
        assert((a + b).last() == b.last());
    }
}

} // verus!
