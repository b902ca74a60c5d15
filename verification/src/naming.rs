//! Labels made from field names.

use vstd::prelude::*;

use crate::text::push_char;

verus! {

/// The characters that the Unicode uppercase mapping gives for `c`.
pub uninterp spec fn uppercase_of(c: char) -> Seq<char>;

/// `char::to_uppercase`, collected: the Unicode uppercase mapping of `c`
/// (one or more characters). The contract also claims what the documentation
/// gives for ASCII: a lower-case ASCII letter maps to its capital alone.
#[verifier::external_body]
fn char_to_uppercase(c: char) -> (r: String)
    ensures
        r@ == uppercase_of(c),
        'a' <= c <= 'z' ==> r@ == seq![((c as u32) - 32) as char],
{
    c.to_uppercase().collect()
}

/// Every character of `w` mapped to upper case.
pub open spec fn upper_all(w: Seq<char>) -> Seq<char>
    decreases w.len(),
{
    if w.len() == 0 {
        Seq::empty()
    } else {
        upper_all(w.drop_last()) + uppercase_of(w.last())
    }
}

/// A word of a label: words of up to three characters (initialisms such as
/// `ip` or `api`) are upper-cased whole; longer words get a capital first letter.
pub open spec fn label_word(w: Seq<char>) -> Seq<char> {
    if w.len() == 0 {
        Seq::empty()
    } else if w.len() <= 3 {
        upper_all(w)
    } else {
        uppercase_of(w[0]) + w.drop_first()
    }
}

/// The label of `word` followed by the rest of a field name.
pub open spec fn label_from(word: Seq<char>, rest: Seq<char>) -> Seq<char>
    decreases rest.len(),
{
    if rest.len() == 0 {
        label_word(word)
    } else if rest[0] == '_' {
        label_word(word) + seq![' '] + label_from(Seq::empty(), rest.drop_first())
    } else {
        label_from(word.push(rest[0]), rest.drop_first())
    }
}

/// The label of a field name: its `_`-separated words, each as
/// [`label_word`] makes it, joined by spaces.
pub open spec fn humanized(name: Seq<char>) -> Seq<char> {
    label_from(Seq::empty(), name)
}

fn push_label_word(out: &mut String, word: &Vec<char>)
    ensures
        final(out)@ == old(out)@ + label_word(word@),
{
    let n = word.len();
    if n == 0 {
        assert(final(out)@ =~= old(out)@ + label_word(word@));
        return;
    }
    if n <= 3 {
        let mut i: usize = 0;
        while i < n
            invariant
                n == word@.len(),
                i <= n,
                out@ == old(out)@ + upper_all(word@.take(i as int)),
            decreases n - i,
        {
            let up = char_to_uppercase(word[i]);
            out.append(up.as_str());
            proof {
                assert(word@.take(i + 1).drop_last() =~= word@.take(i as int));
                assert(word@.take(i + 1).last() == word@[i as int]);
                assert(out@ =~= old(out)@ + upper_all(word@.take(i + 1)));
            }
            i = i + 1;
        }
        assert(word@.take(n as int) =~= word@);
    } else {
        let up = char_to_uppercase(word[0]);
        out.append(up.as_str());
        let mut i: usize = 1;
        while i < n
            invariant
                n == word@.len(),
                1 <= i <= n,
                out@ == old(out)@ + uppercase_of(word@[0]) + word@.subrange(1, i as int),
            decreases n - i,
        {
            push_char(out, word[i]);
            assert(word@.subrange(1, i + 1) =~= word@.subrange(1, i as int).push(word@[i as int]));
            i = i + 1;
        }
        assert(word@.subrange(1, n as int) =~= word@.drop_first());
        assert(out@ =~= old(out)@ + label_word(word@));
    }
}

/// Makes a display label from a field name: underscores become spaces, short
/// words (up to three characters) are upper-cased, and longer words start with
/// a capital letter, so `api_key` becomes `API KEY` and `full_name` `Full Name`.
pub fn humanize(name: &str) -> (r: String)
    ensures
        r@ == humanized(name@),
{
    let n = name.unicode_len();
    let mut out = String::new();
    let mut word: Vec<char> = Vec::new();
    let mut i: usize = 0;
    assert(name@.skip(0) =~= name@);
    while i < n
        invariant
            n == name@.len(),
            i <= n,
            out@ + label_from(word@, name@.skip(i as int)) == humanized(name@),
        decreases n - i,
    {
        let c = name.get_char(i);
        let ghost rest = name@.skip(i as int);
        assert(rest[0] == c);
        assert(rest.drop_first() =~= name@.skip(i + 1));
        if c == '_' {
            let ghost before = out@;
            let ghost old_word = word@;
            push_label_word(&mut out, &word);
            push_char(&mut out, ' ');
            word = Vec::new();
            assert(word@ =~= Seq::<char>::empty());
            assert(label_from(old_word, rest) == label_word(old_word) + seq![' '] + label_from(
                Seq::empty(),
                rest.drop_first(),
            ));
            assert(out@ + label_from(word@, name@.skip(i + 1)) =~= before + label_from(old_word, rest));
        } else {
            word.push(c);
        }
        i = i + 1;
    }
    push_label_word(&mut out, &word);
    assert(out@ =~= humanized(name@));
    out
}

} // verus!
