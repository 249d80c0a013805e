//! Normalization of raw input into candidate words.
//!
//! Raw input is uppercased and stripped of everything that is not an
//! alphabetic letter (whitespace and punctuation included), so a candidate
//! word consists of uppercase alphabetic characters only.

use vstd::prelude::*;

verus! {

/// What `char::is_alphabetic` returns for a character.
pub uninterp spec fn is_alpha_char(c: char) -> bool;

/// The sequence of characters that `char::to_uppercase` yields for a
/// character: its full Unicode uppercase mapping.
pub uninterp spec fn upper_chars(c: char) -> Seq<char>;

/// Relies on `char::is_alphabetic`: whether a character is alphabetic is a
/// fact of the character alone.
#[verifier::external_body]
fn char_is_alphabetic(c: char) -> (r: bool)
    ensures
        r == is_alpha_char(c),
{
    c.is_alphabetic()
}

/// Relies on `char::to_uppercase`: the uppercase mapping of a character
/// depends on the character alone and yields one or more characters. The
/// last clause relies on a property of the Unicode character database: the
/// characters an uppercase mapping yields are fully uppercased, so their own
/// uppercase mapping is just themselves.
#[verifier::external_body]
fn char_uppercase(c: char) -> (r: Vec<char>)
    ensures
        r@ == upper_chars(c),
        r@.len() >= 1,
        forall|k: int| 0 <= k < r@.len() ==> upper_chars(r@[k]) == seq![r@[k]],
{
    c.to_uppercase().collect()
}

/// Relies on `String::push`: appends the given character to the end of the
/// string.
#[verifier::external_body]
fn push_char(s: &mut String, c: char)
    ensures
        final(s)@ == old(s)@.push(c),
{
    s.push(c)
}

/// The alphabetic characters of `s`, kept in order.
pub open spec fn keep_alpha(s: Seq<char>) -> Seq<char>
    decreases s.len(),
{
    if s.len() == 0 {
        Seq::empty()
    } else if is_alpha_char(s[0]) {
        seq![s[0]] + keep_alpha(s.drop_first())
    } else {
        keep_alpha(s.drop_first())
    }
}

/// One character of raw input, normalized: its uppercase mapping, restricted
/// to alphabetic characters.
pub open spec fn norm_char(c: char) -> Seq<char> {
    keep_alpha(upper_chars(c))
}

/// A whole string of raw input, normalized character by character.
pub open spec fn norm_seq(s: Seq<char>) -> Seq<char>
    decreases s.len(),
{
    if s.len() == 0 {
        Seq::empty()
    } else {
        norm_char(s[0]) + norm_seq(s.drop_first())
    }
}

proof fn lemma_keep_alpha_push(s: Seq<char>, c: char)
    ensures
        keep_alpha(s.push(c)) == keep_alpha(s) + (if is_alpha_char(c) {
            seq![c]
        } else {
            Seq::<char>::empty()
        }),
    decreases s.len(),
{
    let tail: Seq<char> = if is_alpha_char(c) {
        seq![c]
    } else {
        Seq::<char>::empty()
    };
    if s.len() == 0 {
        assert(s.push(c)[0] == c);
        assert(s.push(c).drop_first() =~= s);
        assert(keep_alpha(s) == Seq::<char>::empty());
        assert(keep_alpha(s.push(c)) =~= keep_alpha(s) + tail);
    } else {
        assert(s.push(c).drop_first() =~= s.drop_first().push(c));
        assert(s.push(c)[0] == s[0]);
        lemma_keep_alpha_push(s.drop_first(), c);
        if is_alpha_char(s[0]) {
            assert(seq![s[0]] + (keep_alpha(s.drop_first()) + tail) =~= (seq![s[0]]
                + keep_alpha(s.drop_first())) + tail);
        }
    }
}

proof fn lemma_norm_seq_push(s: Seq<char>, c: char)
    ensures
        norm_seq(s.push(c)) == norm_seq(s) + norm_char(c),
    decreases s.len(),
{
    if s.len() == 0 {
        assert(s.push(c)[0] == c);
        assert(s.push(c).drop_first() =~= s);
        assert(norm_seq(s) == Seq::<char>::empty());
        assert(norm_seq(s.push(c)) =~= norm_seq(s) + norm_char(c));
    } else {
        assert(s.push(c).drop_first() =~= s.drop_first().push(c));
        assert(s.push(c)[0] == s[0]);
        lemma_norm_seq_push(s.drop_first(), c);
        assert(norm_char(s[0]) + (norm_seq(s.drop_first()) + norm_char(c)) =~= (norm_char(s[0])
            + norm_seq(s.drop_first())) + norm_char(c));
    }
}

/// Normalizes raw input into a candidate word: uppercases it and keeps only
/// alphabetic characters. The result may have any length, including zero;
/// the next validation step rejects lengths other than `WORD_LENGTH`.
/// Normalizing an already-normalized word changes nothing.
pub fn sanitize_word(word: &str) -> (r: String)
    ensures
        r@ == norm_seq(word@),
        norm_seq(r@) == r@,
{
    let n: usize = word.unicode_len();
    let mut out = String::new();
    let mut i: usize = 0;
    while i < n
        invariant
            n == word@.len(),
            i <= n,
            out@ == norm_seq(word@.take(i as int)),
            norm_seq(out@) == out@,
        decreases n - i,
    {
        let c = word.get_char(i);
        let ups = char_uppercase(c);
        let ghost out_before: Seq<char> = out@;
        let mut j: usize = 0;
        while j < ups.len()
            invariant
                n == word@.len(),
                i < n,
                c == word@[i as int],
                ups@ == upper_chars(c),
                forall|k: int| 0 <= k < ups@.len() ==> upper_chars(ups@[k]) == seq![ups@[k]],
                j <= ups@.len(),
                out@ == out_before + keep_alpha(ups@.take(j as int)),
                norm_seq(out@) == out@,
            decreases ups@.len() - j,
        {
            let u = ups[j];
            proof {
                assert(ups@.take(j as int + 1) =~= ups@.take(j as int).push(u));
                lemma_keep_alpha_push(ups@.take(j as int), u);
            }
            if char_is_alphabetic(u) {
                let ghost before_push: Seq<char> = out@;
                push_char(&mut out, u);
                proof {
                    lemma_norm_seq_push(before_push, u);
                    assert(upper_chars(ups@[j as int]) == seq![ups@[j as int]]);
                    assert(seq![u][0] == u);
                    assert(seq![u].drop_first() =~= Seq::<char>::empty());
                    assert(keep_alpha(Seq::<char>::empty()) == Seq::<char>::empty());
                    assert(keep_alpha(seq![u]) =~= seq![u]);
                    assert(norm_char(u) =~= seq![u]);
                    assert(out@ =~= before_push + norm_char(u));
                    assert(out@ =~= out_before + keep_alpha(ups@.take(j as int + 1)));
                }
            } else {
                proof {
                    assert(out@ =~= out_before + keep_alpha(ups@.take(j as int + 1)));
                }
            }
            j = j + 1;
        }
        proof {
            assert(ups@.take(ups@.len() as int) =~= ups@);
            assert(out@ == out_before + norm_char(c));
            assert(word@.take(i as int + 1) =~= word@.take(i as int).push(c));
            lemma_norm_seq_push(word@.take(i as int), c);
        }
        i = i + 1;
    }
    proof {
        assert(word@.take(n as int) =~= word@);
    }
    out
}

} // verus!
