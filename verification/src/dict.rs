//! The dictionary provider: parsing the packaged word list and drawing the
//! secret target word at random.

use vstd::prelude::*;
use bracket_random::prelude::RandomNumberGenerator;
use crate::WORD_LENGTH;
use crate::norm::{norm_seq, sanitize_word};

verus! {

/// The lines of `s`, split at every newline character: splitting yields one
/// line more than there are newlines, so even empty text has one (empty)
/// line.
pub open spec fn split_lines(s: Seq<char>) -> Seq<Seq<char>>
    decreases s.len(),
{
    if s.len() == 0 {
        seq![Seq::<char>::empty()]
    } else if s[0] == '\n' {
        seq![Seq::<char>::empty()] + split_lines(s.drop_first())
    } else {
        let rest = split_lines(s.drop_first());
        seq![seq![s[0]] + rest[0]] + rest.drop_first()
    }
}

/// The candidate words among `rows`: each row normalized, keeping those of
/// exactly `WORD_LENGTH` characters.
pub open spec fn good_words(rows: Seq<Seq<char>>) -> Seq<Seq<char>>
    decreases rows.len(),
{
    if rows.len() == 0 {
        Seq::<Seq<char>>::empty()
    } else {
        let w = norm_seq(rows[0]);
        (if w.len() == WORD_LENGTH {
            seq![w]
        } else {
            Seq::<Seq<char>>::empty()
        }) + good_words(rows.drop_first())
    }
}

/// The dictionary that a word-list text yields: its lines after the two
/// header rows, normalized, kept when they have exactly `WORD_LENGTH`
/// characters.
pub open spec fn word_rows(s: Seq<char>) -> Seq<Seq<char>> {
    let rows = split_lines(s);
    if rows.len() <= 2 {
        Seq::<Seq<char>>::empty()
    } else {
        good_words(rows.skip(2))
    }
}

/// The words of `words`, as sequences of characters.
pub open spec fn views_of(words: Seq<String>) -> Seq<Seq<char>> {
    words.map_values(|w: String| w@)
}

proof fn lemma_split_lines_len(s: Seq<char>)
    ensures
        split_lines(s).len() >= 1,
    decreases s.len(),
{
    if s.len() != 0 {
        lemma_split_lines_len(s.drop_first())
    }
}

/// Splitting off the first line: if the first `m` characters of `s` hold no
/// newline, and the text ends or holds a newline right after them, the lines
/// of `s` are that prefix followed by the lines of what comes after the
/// newline.
proof fn lemma_split_lines_first(s: Seq<char>, m: int)
    requires
        0 <= m <= s.len(),
        forall|k: int| 0 <= k < m ==> s[k] != '\n',
        m == s.len() || s[m] == '\n',
    ensures
        m == s.len() ==> split_lines(s) == seq![s],
        m < s.len() ==> split_lines(s) == seq![s.take(m)] + split_lines(s.skip(m + 1)),
    decreases m,
{
    if m == 0 {
        if s.len() == 0 {
            assert(s =~= Seq::<char>::empty());
            assert(split_lines(s) =~= seq![s]);
        } else {
            assert(s[0] == '\n');
            assert(s.take(0) =~= Seq::<char>::empty());
            assert(s.skip(1) =~= s.drop_first());
            assert(split_lines(s) =~= seq![s.take(0)] + split_lines(s.skip(1)));
        }
    } else {
        let t = s.drop_first();
        lemma_split_lines_first(t, m - 1);
        lemma_split_lines_len(t);
        if m == s.len() {
            assert(split_lines(t) == seq![t]);
            assert(seq![s[0]] + t =~= s);
            assert(split_lines(t).drop_first() =~= Seq::<Seq<char>>::empty());
            assert(split_lines(s) =~= seq![seq![s[0]] + split_lines(t)[0]] + split_lines(
                t).drop_first());
            assert(split_lines(s) =~= seq![s]);
        } else {
            assert(t.skip(m) =~= s.skip(m + 1));
            assert(seq![s[0]] + t.take(m - 1) =~= s.take(m));
            assert(split_lines(t).drop_first() =~= split_lines(s.skip(m + 1)));
            assert(split_lines(s) =~= seq![s.take(m)] + split_lines(s.skip(m + 1)));
        }
    }
}

proof fn lemma_good_words_push(rows: Seq<Seq<char>>, row: Seq<char>)
    ensures
        good_words(rows.push(row)) == good_words(rows) + (if norm_seq(row).len() == WORD_LENGTH {
            seq![norm_seq(row)]
        } else {
            Seq::<Seq<char>>::empty()
        }),
    decreases rows.len(),
{
    let tail: Seq<Seq<char>> = if norm_seq(row).len() == WORD_LENGTH {
        seq![norm_seq(row)]
    } else {
        Seq::<Seq<char>>::empty()
    };
    if rows.len() == 0 {
        assert(rows.push(row)[0] == row);
        assert(rows.push(row).drop_first() =~= rows);
        assert(good_words(rows) == Seq::<Seq<char>>::empty());
        assert(good_words(rows.push(row)) =~= good_words(rows) + tail);
    } else {
        assert(rows.push(row)[0] == rows[0]);
        assert(rows.push(row).drop_first() =~= rows.drop_first().push(row));
        lemma_good_words_push(rows.drop_first(), row);
        let head: Seq<Seq<char>> = if norm_seq(rows[0]).len() == WORD_LENGTH {
            seq![norm_seq(rows[0])]
        } else {
            Seq::<Seq<char>>::empty()
        };
        assert(head + (good_words(rows.drop_first()) + tail) =~= (head + good_words(
            rows.drop_first())) + tail);
    }
}

#[verifier::external_type_specification]
#[verifier::external_body]
pub struct ExRandomNumberGenerator(RandomNumberGenerator);

/// Relies on `RandomNumberGenerator::new`: a generator seeded from the
/// machine; nothing is promised of the numbers it yields.
#[verifier::external_body]
fn rng_new() -> RandomNumberGenerator {
    RandomNumberGenerator::new()
}

/// Relies on `RandomNumberGenerator::random_slice_index`: it returns `None`
/// exactly on an empty slice, and otherwise some index within bounds. Which
/// index comes back is the generator's business, so nothing more is said.
/// The slice must stay well below `i32::MAX` elements, the range the
/// generator draws from.
#[verifier::external_body]
fn rng_slice_index(rng: &mut RandomNumberGenerator, words: &Vec<String>) -> (r: Option<usize>)
    requires
        words@.len() < 0x7fff_ffff,
    ensures
        r is None <==> words@.len() == 0,
        r matches Some(i) ==> i < words@.len(),
{
    rng.random_slice_index(words.as_slice())
}

/// Parses a word-list text into the dictionary it packages: every line
/// after the two header rows is normalized, and those of exactly
/// `WORD_LENGTH` characters are kept, in order. Every word comes out
/// normalized, so normalizing one again changes nothing.
pub fn words_list(raw: &str) -> (r: Vec<String>)
    requires
        raw@.len() < usize::MAX,
    ensures
        views_of(r@) == word_rows(raw@),
        forall|i: int| 0 <= i < r@.len() ==> (#[trigger] r@[i])@.len() == WORD_LENGTH,
        forall|i: int| 0 <= i < r@.len() ==> norm_seq((#[trigger] r@[i])@) == r@[i]@,
{
    let n: usize = raw.unicode_len();
    let mut words: Vec<String> = Vec::new();
    let mut row_idx: usize = 0;
    let mut pos: usize = 0;
    let ghost mut delivered: Seq<Seq<char>> = Seq::<Seq<char>>::empty();
    proof {
        assert(raw@.skip(0) =~= raw@);
        assert(delivered + split_lines(raw@) =~= split_lines(raw@));
    }
    while pos <= n
        invariant
            n == raw@.len(),
            n < usize::MAX,
            pos <= n + 1,
            row_idx <= pos,
            delivered.len() == row_idx,
            pos <= n ==> split_lines(raw@) == delivered + split_lines(raw@.skip(pos as int)),
            pos == n + 1 ==> split_lines(raw@) == delivered,
            views_of(words@) == (if delivered.len() < 2 {
                Seq::<Seq<char>>::empty()
            } else {
                good_words(delivered.skip(2))
            }),
            forall|i: int| 0 <= i < words@.len() ==> (#[trigger] words@[i])@.len() == WORD_LENGTH,
            forall|i: int| 0 <= i < words@.len() ==> norm_seq((#[trigger] words@[i])@)
                == words@[i]@,
        decreases n + 1 - pos,
    {
        let mut m: usize = pos;
        loop
            invariant_except_break
                n == raw@.len(),
                pos <= m <= n,
                forall|k: int| pos <= k < m ==> raw@[k] != '\n',
            ensures
                pos <= m <= n,
                forall|k: int| pos <= k < m ==> raw@[k] != '\n',
                m == n || raw@[m as int] == '\n',
            decreases n - m,
        {
            if m == n {
                break ;
            }
            if raw.get_char(m) == '\n' {
                break ;
            }
            m = m + 1;
        }
        let line = raw.substring_char(pos, m);
        let ghost suffix: Seq<char> = raw@.skip(pos as int);
        proof {
            assert(line@ =~= suffix.take(m as int - pos as int));
            assert forall|k: int| 0 <= k < m as int - pos as int implies suffix[k] != '\n' by {
                assert(suffix[k] == raw@[pos + k]);
            }
            if m < n {
                assert(suffix[m as int - pos as int] == raw@[m as int]);
            }
            lemma_split_lines_first(suffix, m as int - pos as int);
        }
        if row_idx >= 2 {
            let w = sanitize_word(line);
            let ghost words_was: Seq<String> = words@;
            if w.as_str().unicode_len() == WORD_LENGTH {
                words.push(w);
                proof {
                    assert(views_of(words@) =~= views_of(words_was).push(norm_seq(line@)));
                }
            }
            proof {
                lemma_good_words_push(delivered.skip(2), line@);
                assert(delivered.push(line@).skip(2) =~= delivered.skip(2).push(line@));
            }
        } else {
            proof {
                if delivered.len() == 1 {
                    assert(delivered.push(line@).skip(2) =~= Seq::<Seq<char>>::empty());
                }
            }
        }
        proof {
            delivered = delivered.push(line@);
        }
        row_idx = row_idx + 1;
        if m == n {
            proof {
                assert(suffix.take(m as int - pos as int) =~= suffix);
                assert(split_lines(suffix) == seq![line@]);
                assert(delivered =~= delivered.drop_last().push(line@));
                assert(split_lines(raw@) =~= delivered.drop_last() + seq![line@]);
                assert(delivered.drop_last() + seq![line@] =~= delivered);
            }
            pos = n + 1;
        } else {
            proof {
                assert(suffix.skip(m as int - pos as int + 1) =~= raw@.skip(m as int + 1));
                assert(delivered.drop_last() + (seq![line@] + split_lines(raw@.skip(
                    m as int + 1))) =~= delivered + split_lines(raw@.skip(m as int + 1)));
            }
            pos = m + 1;
        }
    }
    proof {
        lemma_split_lines_len(raw@);
    }
    words
}

/// Draws one word of `words` at random; `None` exactly when `words` is
/// empty. Every call may pick a different word, but the pick is always one
/// of the words given.
pub fn choose_random(words: &Vec<String>) -> (r: Option<String>)
    requires
        words@.len() < 0x7fff_ffff,
    ensures
        r is Some <==> words@.len() > 0,
        r matches Some(w) ==> exists|i: int| 0 <= i < words@.len() && (#[trigger] words@[i])@
            == w@,
{
    let mut rng = rng_new();
    match rng_slice_index(&mut rng, words) {
        None => None,
        Some(i) => {
            let w = words[i].clone();
            proof {
                assert(words@[i as int]@ == w@);
            }
            Some(w)
        },
    }
}

} // verus!
