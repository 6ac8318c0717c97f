//! The lines of the files that a corpus is put together from: a file of
//! words with their pronunciations, and a file of words with the number of
//! times that each was counted.

use vstd::prelude::*;
use crate::dictionary::{
    digits_pattern, letter_glyph, letter_to_glyph, pronunciation_token_to_glyph, sound_glyph,
};
use crate::glyphs::{Glyph, decode_chars, decode_spec};
use crate::seqs::copy_vec;
use crate::text::{
    chars_equal, chars_of, lemma_split_has_piece, parse_i32, parse_i32_spec, parts_view,
    regex_replaced,
    replace_matches, split_chars, split_spec, string_of, trim_chars, trim_spec,
};

verus! {

/// A word with its pronunciation.
#[derive(Clone, Debug, PartialEq, Eq)]
pub struct Spoken {
    pub word: Vec<char>,
    pub pronunciation: Vec<Glyph>,
}

/// A word with the number of times that it was counted, as it is written.
#[derive(Clone, Debug, PartialEq, Eq)]
pub struct Counted {
    pub word: Vec<char>,
    pub count: Vec<char>,
}

/// A word of the corpus with the number of times that it was counted.
#[derive(Clone, Debug, PartialEq, Eq)]
pub struct CountedWord {
    pub spelling: Vec<Glyph>,
    pub pronunciation: Vec<Glyph>,
    pub count: i32,
}

/// The values of a run of words with their pronunciations.
pub open spec fn spoken_view(table: Seq<Spoken>) -> Seq<(Seq<char>, Seq<Glyph>)> {
    table.map_values(|e: Spoken| (e.word@, e.pronunciation@))
}

/// The values of a run of words with their counts.
pub open spec fn counted_view(counts: Seq<Counted>) -> Seq<(Seq<char>, Seq<char>)> {
    counts.map_values(|e: Counted| (e.word@, e.count@))
}

/// The values of a run of words of the corpus.
pub open spec fn words_view(words: Seq<CountedWord>) -> Seq<(Seq<Glyph>, Seq<Glyph>, i32)> {
    words.map_values(|w: CountedWord| (w.spelling@, w.pronunciation@, w.count))
}

/// What a line of the file of pronunciations says: the word that stands
/// before the first blank, and the glyphs that what stands behind it
/// writes, each without the white space around it. A line without a blank
/// says nothing.
pub open spec fn pronunciation_entry_spec(line: Seq<char>) -> Option<(Seq<char>, Seq<Glyph>)> {
    let pieces = split_spec(line, ' ');
    if pieces.len() >= 2 {
        Some((trim_spec(pieces[0]), decode_spec(trim_spec(pieces[1]))))
    } else {
        None
    }
}

/// Reads a line of the file of pronunciations.
pub fn pronunciation_entry(line: &str) -> (res: Option<Spoken>)
    ensures
        match res {
            Some(e) => pronunciation_entry_spec(line@) == Some((e.word@, e.pronunciation@)),
            None => pronunciation_entry_spec(line@) is None,
        },
{
    let pieces = split_chars(&chars_of(line), ' ');
    if pieces.len() < 2 {
        return None;
    }
    assert(parts_view(pieces@)[0] == pieces[0]@);
    assert(parts_view(pieces@)[1] == pieces[1]@);
    Some(
        Spoken {
            word: trim_chars(&pieces[0]),
            pronunciation: decode_chars(&trim_chars(&pieces[1])),
        },
    )
}

/// What a line of the file of counts says: the word that stands between
/// the first blank and the second, and what stands between the second and
/// the third, which is the count. A line with fewer than two blanks says
/// nothing.
pub open spec fn count_entry_spec(line: Seq<char>) -> Option<(Seq<char>, Seq<char>)> {
    let pieces = split_spec(line, ' ');
    if pieces.len() >= 3 {
        Some((pieces[1], pieces[2]))
    } else {
        None
    }
}

/// Reads a line of the file of counts.
pub fn count_entry(line: &str) -> (res: Option<Counted>)
    ensures
        match res {
            Some(e) => count_entry_spec(line@) == Some((e.word@, e.count@)),
            None => count_entry_spec(line@) is None,
        },
{
    let pieces = split_chars(&chars_of(line), ' ');
    if pieces.len() < 3 {
        return None;
    }
    assert(parts_view(pieces@)[1] == pieces[1]@);
    assert(parts_view(pieces@)[2] == pieces[2]@);
    Some(Counted { word: copy_vec(&pieces[1]), count: copy_vec(&pieces[2]) })
}

/// The pattern of a comment: from the white space before a `#` to the end
/// of the line.
pub open spec fn comment_pattern() -> Seq<char> {
    "\\s*\\#.*"@
}

/// The glyph that a token of a pronunciation stands for.
pub open spec fn token_glyph(token: Seq<char>) -> Option<Glyph> {
    match regex_replaced(digits_pattern(), token, 1, Seq::empty()) {
        Some(name) => sound_glyph(name),
        None => None,
    }
}

/// The glyphs that the tokens from place `from` on stand for; nothing
/// where one of them names no sound.
pub open spec fn sounds_from(tokens: Seq<Seq<char>>, from: int) -> Option<Seq<Glyph>>
    decreases tokens.len() - from,
{
    if from < 0 || from >= tokens.len() {
        Some(Seq::empty())
    } else {
        match (token_glyph(tokens[from]), sounds_from(tokens, from + 1)) {
            (Some(g), Some(rest)) => Some(seq![g] + rest),
            _ => None,
        }
    }
}

/// What a line of the older file of pronunciations says, once its comment
/// has been taken away: the word that stands before the first blank, and
/// the sounds that the tokens behind it name. A line with a token that
/// names no sound says nothing.
pub open spec fn sounds_entry_spec(text: Seq<char>) -> Option<(Seq<char>, Seq<Glyph>)> {
    let pieces = split_spec(text, ' ');
    match sounds_from(pieces, 1) {
        Some(sounds) => Some((pieces[0], sounds)),
        None => None,
    }
}

/// Reads a line of the older file of pronunciations that has no comment.
pub fn sounds_entry(text: &str) -> (res: Option<Spoken>)
    ensures
        match res {
            Some(e) => sounds_entry_spec(text@) == Some((e.word@, e.pronunciation@)),
            None => sounds_entry_spec(text@) is None,
        },
{
    let pieces = split_chars(&chars_of(text), ' ');
    let ghost tokens = parts_view(pieces@);
    proof {
        lemma_split_has_piece(text@, ' ');
    }
    if pieces.len() == 0 {
        return None;
    }
    let mut sounds: Vec<Glyph> = Vec::new();
    let mut i: usize = pieces.len();
    while i > 1
        invariant
            1 <= i <= pieces.len(),
            tokens == parts_view(pieces@),
            tokens == split_spec(text@, ' '),
            sounds_from(tokens, i as int) == Some(sounds@),
        decreases i,
    {
        i -= 1;
        assert(tokens[i as int] == pieces[i as int]@);
        let token = string_of(&pieces[i]);
        let ghost rest = sounds@;
        match pronunciation_token_to_glyph(token.as_str()) {
            Some(g) => {
                sounds.insert(0, g);
                assert(sounds@ =~= seq![g] + rest);
            },
            None => {
                proof {
                    lemma_sounds_fail(tokens, 1, i as int);
                }
                return None;
            },
        }
    }
    assert(tokens[0] == pieces[0]@);
    Some(Spoken { word: copy_vec(&pieces[0]), pronunciation: sounds })
}

/// Where a token names no sound, the tokens from any place before it on
/// stand for nothing.
proof fn lemma_sounds_fail(tokens: Seq<Seq<char>>, from: int, bad: int)
    requires
        0 <= from <= bad < tokens.len(),
        token_glyph(tokens[bad]) is None,
    ensures
        sounds_from(tokens, from) is None,
    decreases bad - from,
{
    if from < bad {
        lemma_sounds_fail(tokens, from + 1, bad);
    }
}

/// What a line of the older file of pronunciations says: what it says
/// without its comment. Nothing where the pattern of a comment is no
/// regular expression.
pub open spec fn old_pronunciation_entry_spec(line: Seq<char>) -> Option<(Seq<char>, Seq<Glyph>)> {
    match regex_replaced(comment_pattern(), line, 1, Seq::empty()) {
        Some(text) => sounds_entry_spec(text),
        None => None,
    }
}

/// Reads a line of the older file of pronunciations.
pub fn old_pronunciation_entry(line: &str) -> (res: Option<Spoken>)
    ensures
        match res {
            Some(e) => old_pronunciation_entry_spec(line@) == Some((e.word@, e.pronunciation@)),
            None => old_pronunciation_entry_spec(line@) is None,
        },
{
    let empty = String::new();
    match replace_matches("\\s*\\#.*", line, 1, empty.as_str()) {
        Some(text) => sounds_entry(text.as_str()),
        None => None,
    }
}

/// The glyphs that the letters of a word stand for; nothing where one of
/// them is no letter.
pub open spec fn spelling_spec(word: Seq<char>) -> Option<Seq<Glyph>>
    decreases word.len(),
{
    if word.len() == 0 {
        Some(Seq::empty())
    } else {
        match (spelling_spec(word.drop_last()), letter_glyph(word.last())) {
            (Some(glyphs), Some(g)) => Some(glyphs.push(g)),
            _ => None,
        }
    }
}

/// A word with a character that is no letter has no spelling, however far
/// it goes on.
proof fn lemma_spelling_fails(word: Seq<char>, upto: int)
    requires
        0 <= upto <= word.len(),
        spelling_spec(word.take(upto)) is None,
    ensures
        spelling_spec(word) is None,
    decreases word.len() - upto,
{
    if upto < word.len() {
        assert(word.take(upto + 1).drop_last() =~= word.take(upto));
        lemma_spelling_fails(word, upto + 1);
    } else {
        assert(word.take(upto) =~= word);
    }
}

/// The spelling of a word.
pub fn spelling_of(word: &Vec<char>) -> (res: Option<Vec<Glyph>>)
    ensures
        match res {
            Some(glyphs) => spelling_spec(word@) == Some(glyphs@),
            None => spelling_spec(word@) is None,
        },
{
    let mut res: Vec<Glyph> = Vec::new();
    let mut i: usize = 0;
    while i < word.len()
        invariant
            i <= word.len(),
            spelling_spec(word@.take(i as int)) == Some(res@),
        decreases word.len() - i,
    {
        assert(word@.take(i + 1).drop_last() =~= word@.take(i as int));
        match letter_to_glyph(word[i]) {
            Some(g) => {
                res.push(g);
            },
            None => {
                proof {
                    lemma_spelling_fails(word@, i + 1);
                }
                return None;
            },
        }
        i += 1;
    }
    assert(word@.take(word.len() as int) =~= word@);
    Some(res)
}

/// The pronunciation that a table has for a word: that of the last entry
/// for the word.
pub open spec fn pronunciation_of(table: Seq<(Seq<char>, Seq<Glyph>)>, word: Seq<char>) -> Option<
    Seq<Glyph>,
>
    decreases table.len(),
{
    if table.len() == 0 {
        None
    } else if table.last().0 == word {
        Some(table.last().1)
    } else {
        pronunciation_of(table.drop_last(), word)
    }
}

/// Looks a word up in a table of pronunciations.
pub fn find_pronunciation(table: &Vec<Spoken>, word: &Vec<char>) -> (res: Option<Vec<Glyph>>)
    ensures
        match res {
            Some(p) => pronunciation_of(spoken_view(table@), word@) == Some(p@),
            None => pronunciation_of(spoken_view(table@), word@) is None,
        },
{
    let ghost all = spoken_view(table@);
    let mut i: usize = table.len();
    assert(all.take(i as int) =~= all);
    while i > 0
        invariant
            i <= table.len(),
            all == spoken_view(table@),
            pronunciation_of(all.take(i as int), word@) == pronunciation_of(all, word@),
        decreases i,
    {
        i -= 1;
        assert(all.take(i + 1).drop_last() =~= all.take(i as int));
        assert(all.take(i + 1).last() == (table[i as int].word@, table[i as int].pronunciation@));
        if chars_equal(&table[i].word, word) {
            return Some(copy_vec(&table[i].pronunciation));
        }
    }
    None
}

/// The words of the corpus that a table of pronunciations and a run of
/// counts give: each counted word that has a pronunciation, in the order
/// of the counts. Nothing where such a word has a character that is no
/// letter, or a count that is no number.
pub open spec fn assembled(
    table: Seq<(Seq<char>, Seq<Glyph>)>,
    counts: Seq<(Seq<char>, Seq<char>)>,
) -> Option<Seq<(Seq<Glyph>, Seq<Glyph>, i32)>>
    decreases counts.len(),
{
    if counts.len() == 0 {
        Some(Seq::empty())
    } else {
        match assembled(table, counts.drop_last()) {
            None => None,
            Some(words) => match pronunciation_of(table, counts.last().0) {
                None => Some(words),
                Some(pronunciation) => match (
                    spelling_spec(counts.last().0),
                    parse_i32_spec(counts.last().1),
                ) {
                    (Some(spelling), Some(count)) => Some(
                        words.push((spelling, pronunciation, count)),
                    ),
                    _ => None,
                },
            },
        }
    }
}

/// Once the counts up to a place give nothing, all of them give nothing.
proof fn lemma_assembled_fails(
    table: Seq<(Seq<char>, Seq<Glyph>)>,
    counts: Seq<(Seq<char>, Seq<char>)>,
    upto: int,
)
    requires
        0 <= upto <= counts.len(),
        assembled(table, counts.take(upto)) is None,
    ensures
        assembled(table, counts) is None,
    decreases counts.len() - upto,
{
    if upto < counts.len() {
        assert(counts.take(upto + 1).drop_last() =~= counts.take(upto));
        lemma_assembled_fails(table, counts, upto + 1);
    } else {
        assert(counts.take(upto) =~= counts);
    }
}

/// Puts the words of the corpus together from a table of pronunciations
/// and a run of counts.
pub fn assemble(table: &Vec<Spoken>, counts: &Vec<Counted>) -> (res: Option<Vec<CountedWord>>)
    ensures
        match res {
            Some(words) => assembled(spoken_view(table@), counted_view(counts@)) == Some(
                words_view(words@),
            ),
            None => assembled(spoken_view(table@), counted_view(counts@)) is None,
        },
{
    let ghost all = counted_view(counts@);
    let mut words: Vec<CountedWord> = Vec::new();
    let mut i: usize = 0;
    assert(words_view(words@) =~= Seq::empty());
    while i < counts.len()
        invariant
            i <= counts.len(),
            all == counted_view(counts@),
            assembled(spoken_view(table@), all.take(i as int)) == Some(words_view(words@)),
        decreases counts.len() - i,
    {
        let entry = &counts[i];
        proof {
            assert(all.take(i + 1).drop_last() =~= all.take(i as int));
            assert(all.take(i + 1).last() == (entry.word@, entry.count@));
            assert(entry.count@.subrange(0, entry.count.len() as int) =~= entry.count@);
        }
        match find_pronunciation(table, &entry.word) {
            None => {},
            Some(pronunciation) => {
                match (spelling_of(&entry.word), parse_i32(&entry.count, 0, entry.count.len())) {
                    (Some(spelling), Some(count)) => {
                        let ghost before = words_view(words@);
                        words.push(CountedWord { spelling, pronunciation, count });
                        assert(words_view(words@) =~= before.push(
                            (spelling@, pronunciation@, count),
                        ));
                    },
                    _ => {
                        proof {
                            lemma_assembled_fails(spoken_view(table@), all, i + 1);
                        }
                        return None;
                    },
                }
            },
        }
        i += 1;
    }
    assert(all.take(counts.len() as int) =~= all);
    Some(words)
}

} // verus!
