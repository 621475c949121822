//! The placeholder grammar: an opening brace, one or more word characters,
//! a closing brace. Anything else in a line is literal text.
//!
//! Which characters beyond ASCII are word characters is a table of Unicode
//! that an outside crate holds. The grammar is therefore stated over a line
//! together with the class of each of its characters, and a line is first
//! classified, then scanned.

use crate::chars::{char_views, occurs_at};
use vstd::prelude::*;

verus! {

/// What `regex_syntax::is_word_character` answers for `c`: whether `c` is a
/// word character in the sense of Unicode's compatibility properties.
pub uninterp spec fn word_character(c: char) -> bool;

/// Whether `c` is an ASCII letter, an ASCII digit or the underscore.
pub open spec fn ascii_word(c: char) -> bool {
    let code = c as u32;
    48 <= code <= 57 || 65 <= code <= 90 || code == 95 || 97 <= code <= 122
}

/// Calls `regex_syntax::is_word_character`, a lookup of `c` in a fixed table
/// of character ranges. The first clause only names the answer. The second
/// says what the outside function's source shows for ASCII: it first accepts
/// letters, digits and the underscore, and the table holds no other
/// character below its fifth range, which starts beyond ASCII. The outside
/// function panics when its crate is built without the feature
/// `unicode-perl`, which holds the table; the manifest of this crate asks
/// for that feature.
#[verifier::external_body]
fn is_word_character(c: char) -> (b: bool)
    ensures
        b == word_character(c),
        (c as u32) < 128 ==> b == ascii_word(c),
{
    regex_syntax::is_word_character(c)
}

/// Whether `c` is a word character: among the ASCII characters the letters,
/// the digits and the underscore, beyond ASCII what the table of Unicode
/// says.
pub open spec fn word(c: char) -> bool {
    if (c as u32) < 128 {
        ascii_word(c)
    } else {
        word_character(c)
    }
}

/// Neither brace is a word character: a key never holds one, and the brace
/// that closes a placeholder ends the run of word characters before it.
pub proof fn lemma_braces_are_no_word_characters()
    ensures
        !word('{'),
        !word('}'),
{
}

/// For each character of `s`, whether it is a word character.
pub open spec fn word_classes(s: Seq<char>) -> Seq<bool> {
    Seq::new(s.len(), |i: int| word(s[i]))
}

/// The number of consecutive word characters from index `from` on, where
/// `word` tells of each index whether a word character stands there. An
/// index beyond `word` holds none.
pub open spec fn word_run(word: Seq<bool>, from: int) -> nat
    decreases word.len() - from,
{
    if 0 <= from < word.len() && word[from] {
        1 + word_run(word, from + 1)
    } else {
        0
    }
}

/// The key of the placeholder that starts at index `at` of `s`, if one
/// starts there: `s[at]` is an opening brace, a non-empty maximal run of word
/// characters follows, and a closing brace follows the run.
pub open spec fn placeholder_at(s: Seq<char>, word: Seq<bool>, at: int) -> Option<Seq<char>> {
    let run = word_run(word, at + 1);
    if 0 <= at < s.len() && s[at] == '{' && run > 0 && at + 1 + run < s.len() && s[at + 1 + run]
        == '}' {
        Some(s.subrange(at + 1, at + 1 + run))
    } else {
        None
    }
}

/// The keys of the placeholders of `s` at or after index `from`, one for each
/// occurrence, from left to right. The scan resumes behind a placeholder.
pub open spec fn keys_from(s: Seq<char>, word: Seq<bool>, from: int) -> Seq<Seq<char>>
    decreases s.len() - from,
{
    if from < 0 || from >= s.len() {
        Seq::empty()
    } else {
        match placeholder_at(s, word, from) {
            Some(key) => seq![key] + keys_from(s, word, from + key.len() + 2),
            None => keys_from(s, word, from + 1),
        }
    }
}

/// The keys of all placeholders of `s`, one for each occurrence, from left
/// to right.
pub open spec fn placeholder_keys(s: Seq<char>) -> Seq<Seq<char>> {
    keys_from(s, word_classes(s), 0)
}

/// `keys` without repetitions: of equal keys the first stays, and the order
/// of what stays is kept.
pub open spec fn distinct(keys: Seq<Seq<char>>) -> Seq<Seq<char>>
    decreases keys.len(),
{
    if keys.len() == 0 {
        keys
    } else {
        let init = distinct(keys.drop_last());
        if init.contains(keys.last()) {
            init
        } else {
            init.push(keys.last())
        }
    }
}

/// `distinct(keys)` holds exactly the keys of `keys`, each of them once.
pub proof fn lemma_distinct_holds_each_key_once(keys: Seq<Seq<char>>)
    ensures
        forall|key: Seq<char>| distinct(keys).contains(key) <==> keys.contains(key),
        distinct(keys).no_duplicates(),
    decreases keys.len(),
{
    if keys.len() > 0 {
        let init = keys.drop_last();
        let last = keys.last();
        lemma_distinct_holds_each_key_once(init);
        let kept = distinct(init);
        assert forall|key: Seq<char>| distinct(keys).contains(key) <==> keys.contains(key) by {
            if keys.contains(key) {
                let i = choose|i: int| 0 <= i < keys.len() && keys[i] == key;
                if i < init.len() {
                    assert(init[i] == key);
                    assert(init.contains(key));
                    assert(kept.contains(key));
                    let j = choose|j: int| 0 <= j < kept.len() && kept[j] == key;
                    assert(distinct(keys)[j] == key);
                } else if !kept.contains(last) {
                    assert(distinct(keys)[kept.len() as int] == key);
                }
            }
            if distinct(keys).contains(key) {
                let j = choose|j: int| 0 <= j < distinct(keys).len() && distinct(keys)[j] == key;
                if j < kept.len() {
                    assert(kept[j] == key);
                    assert(init.contains(key));
                    let i = choose|i: int| 0 <= i < init.len() && init[i] == key;
                    assert(keys[i] == key);
                } else {
                    assert(keys[keys.len() - 1] == key);
                }
            }
        }
    }
}

/// The text of the placeholder for `key`: the key between braces.
pub open spec fn placeholder(key: Seq<char>) -> Seq<char> {
    seq!['{'] + key + seq!['}']
}

/// Whether `key` is among `keys`.
pub fn has_key(keys: &Vec<Vec<char>>, key: &Vec<char>) -> (b: bool)
    ensures
        b == char_views(keys@).contains(key@),
{
    let mut i: usize = 0;
    while i < keys.len()
        invariant
            i <= keys.len(),
            forall|k: int| 0 <= k < i ==> char_views(keys@)[k] != key@,
        decreases keys.len() - i,
    {
        if keys[i].len() == key.len() && occurs_at(&keys[i], 0, key) {
            assert(keys@[i as int]@.subrange(0, key.len() as int) =~= keys@[i as int]@);
            assert(char_views(keys@)[i as int] == key@);
            return true;
        }
        assert(char_views(keys@)[i as int] != key@) by {
            if keys@[i as int]@.len() == key@.len() {
                assert(keys@[i as int]@.subrange(0, key.len() as int) =~= keys@[i as int]@);
            }
        }
        i += 1;
    }
    false
}

/// Tells of each character of `s` whether it is a word character.
pub fn classify(s: &Vec<char>) -> (word: Vec<bool>)
    ensures
        word@ == word_classes(s@),
{
    let mut word: Vec<bool> = Vec::new();
    let mut i: usize = 0;
    while i < s.len()
        invariant
            i <= s.len(),
            word@ == word_classes(s@).take(i as int),
        decreases s.len() - i,
    {
        word.push(is_word_character(s[i]));
        assert(word@ =~= word_classes(s@).take(i + 1));
        i += 1;
    }
    assert(word_classes(s@).take(s.len() as int) =~= word_classes(s@));
    word
}

/// The length of the run of word characters that starts at `from`.
pub fn word_run_len(word: &Vec<bool>, from: usize) -> (run: usize)
    ensures
        run == word_run(word@, from as int),
        from <= word.len() ==> from + run <= word.len(),
{
    if from > word.len() {
        return 0;
    }
    let mut j: usize = from;
    while j < word.len() && word[j]
        invariant
            from <= j <= word.len(),
            word_run(word@, from as int) == (j - from) + word_run(word@, j as int),
        decreases word.len() - j,
    {
        j += 1;
    }
    j - from
}

/// The distinct keys of the placeholders of `s`, in the order of their first
/// appearance, where `word` tells of each index of `s` whether a word
/// character stands there.
pub fn scan_keys(s: &Vec<char>, word: &Vec<bool>) -> (keys: Vec<Vec<char>>)
    ensures
        char_views(keys@) == distinct(keys_from(s@, word@, 0)),
{
    let n = s.len();
    let mut keys: Vec<Vec<char>> = Vec::new();
    let ghost mut seen: Seq<Seq<char>> = Seq::empty();
    let mut i: usize = 0;
    assert(char_views(keys@) =~= distinct(seen));
    assert(seen + keys_from(s@, word@, 0) =~= keys_from(s@, word@, 0));
    while i < n
        invariant
            n == s.len(),
            i <= n,
            seen + keys_from(s@, word@, i as int) == keys_from(s@, word@, 0),
            char_views(keys@) == distinct(seen),
        decreases n - i,
    {
        let mut next: usize = i + 1;
        if s[i] == '{' {
            let run = word_run_len(word, i + 1);
            if run > 0 && run < n - i - 1 && s[i + 1 + run] == '}' {
                let mut key: Vec<char> = Vec::new();
                let mut j: usize = i + 1;
                while j < i + 1 + run
                    invariant
                        i + 1 <= j <= i + 1 + run,
                        i + 1 + run < n,
                        n == s.len(),
                        key@ == s@.subrange(i + 1, j as int),
                    decreases i + 1 + run - j,
                {
                    key.push(s[j]);
                    assert(s@.subrange(i + 1, j + 1) =~= s@.subrange(i + 1, j as int).push(
                        s@[j as int],
                    ));
                    j += 1;
                }
                assert(placeholder_at(s@, word@, i as int) == Some(key@));
                proof {
                    assert(seen.push(key@) + keys_from(s@, word@, i + run + 2) =~= seen
                        + keys_from(s@, word@, i as int));
                    assert(seen.push(key@).drop_last() =~= seen);
                }
                if !has_key(&keys, &key) {
                    keys.push(key);
                    assert(char_views(keys@) =~= distinct(seen).push(key@));
                }
                proof {
                    seen = seen.push(key@);
                }
                next = i + run + 2;
            } else {
                assert(placeholder_at(s@, word@, i as int) is None);
            }
        } else {
            assert(placeholder_at(s@, word@, i as int) is None);
        }
        i = next;
    }
    assert(seen + Seq::<Seq<char>>::empty() =~= seen);
    keys
}

/// The distinct placeholder keys of `s`, in the order of their first
/// appearance.
pub fn distinct_keys(s: &Vec<char>) -> (keys: Vec<Vec<char>>)
    ensures
        char_views(keys@) == distinct(placeholder_keys(s@)),
{
    let word = classify(s);
    scan_keys(s, &word)
}

} // verus!
