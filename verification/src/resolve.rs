//! What a line resolves to: the placeholders of the line are replaced by
//! their values, and a value that is a list multiplies the lines.

use crate::chars::replace_all;
use crate::token::{
    distinct, keys_from, placeholder, placeholder_at, placeholder_keys, word_classes,
};
use vstd::arithmetic::div_mod::lemma_fundamental_div_mod_converse;
use vstd::prelude::*;

verus! {

/// A text value as it is reasoned about: one string, or a list of strings.
pub enum Value {
    Multi(Seq<Seq<char>>),
    Single(Seq<char>),
}

impl Value {
    /// The strings of the value, in order: one for a single string.
    pub open spec fn strings(self) -> Seq<Seq<char>> {
        match self {
            Value::Multi(list) => list,
            Value::Single(s) => seq![s],
        }
    }
}

/// A dictionary as a map: for each key that has a value, that value.
pub type Values = Map<Seq<char>, Value>;

/// The alternatives that `dic` gives for `key`: the strings of its value,
/// or the empty string alone where the key has no value.
pub open spec fn alternatives(dic: Values, key: Seq<char>) -> Seq<Seq<char>> {
    if dic.contains_key(key) {
        dic[key].strings()
    } else {
        seq![Seq::<char>::empty()]
    }
}

/// Every candidate combined with every alternative: the placeholder of `key`
/// is replaced in each candidate by each alternative in turn. The candidates
/// vary slowest, the alternatives fastest.
pub open spec fn expand(candidates: Seq<Seq<char>>, key: Seq<char>, alts: Seq<Seq<char>>) -> Seq<
    Seq<char>,
> {
    Seq::new(
        candidates.len() * alts.len(),
        |i: int|
            replace_all(
                candidates[i / alts.len() as int],
                placeholder(key),
                alts[i % alts.len() as int],
            ),
    )
}

/// The candidates after the keys were expanded one after another, the first
/// key first.
pub open spec fn expand_all(candidates: Seq<Seq<char>>, keys: Seq<Seq<char>>, dic: Values) -> Seq<
    Seq<char>,
>
    decreases keys.len(),
{
    if keys.len() == 0 {
        candidates
    } else {
        expand(
            expand_all(candidates, keys.drop_last(), dic),
            keys.last(),
            alternatives(dic, keys.last()),
        )
    }
}

/// The lines that `line` resolves to: the line itself, expanded by each of
/// its distinct placeholder keys in the order of their first appearance.
pub open spec fn resolve(line: Seq<char>, dic: Values) -> Seq<Seq<char>> {
    expand_all(seq![line], distinct(placeholder_keys(line)), dic)
}

/// All lines that the declared lines resolve to: the lines of the first
/// declared line first, each group in the order of its resolution.
pub open spec fn resolve_lines(lines: Seq<Seq<char>>, dic: Values) -> Seq<Seq<char>>
    decreases lines.len(),
{
    if lines.len() == 0 {
        Seq::empty()
    } else {
        resolve_lines(lines.drop_last(), dic) + resolve(lines.last(), dic)
    }
}

/// The number of ways to pick one alternative for each of `keys`: the product
/// of the numbers of alternatives that `dic` gives for them.
pub open spec fn combinations(keys: Seq<Seq<char>>, dic: Values) -> nat
    decreases keys.len(),
{
    if keys.len() == 0 {
        1
    } else {
        combinations(keys.drop_last(), dic) * alternatives(dic, keys.last()).len()
    }
}

/// Expanding by a single alternative replaces the placeholder in every
/// candidate and keeps their number and order.
pub proof fn lemma_expand_single(candidates: Seq<Seq<char>>, key: Seq<char>, with: Seq<char>)
    ensures
        expand(candidates, key, seq![with]) == Seq::new(
            candidates.len(),
            |i: int| replace_all(candidates[i], placeholder(key), with),
        ),
{
    let alts = seq![with];
    assert(alts.len() == 1);
    assert(candidates.len() * alts.len() == candidates.len());
    assert forall|i: int| 0 <= i < candidates.len() implies #[trigger] expand(
        candidates,
        key,
        alts,
    )[i] == replace_all(candidates[i], placeholder(key), with) by {
        assert(i / 1 == i && i % 1 == 0);
    }
    assert(expand(candidates, key, alts) =~= Seq::new(
        candidates.len(),
        |i: int| replace_all(candidates[i], placeholder(key), with),
    ));
}

/// Expanding candidates by keys multiplies their number by the number of
/// combinations of the keys' alternatives.
pub proof fn lemma_expand_all_len(candidates: Seq<Seq<char>>, keys: Seq<Seq<char>>, dic: Values)
    ensures
        expand_all(candidates, keys, dic).len() == candidates.len() * combinations(keys, dic),
    decreases keys.len(),
{
    if keys.len() == 0 {
        assert(candidates.len() * 1 == candidates.len());
    } else {
        lemma_expand_all_len(candidates, keys.drop_last(), dic);
        let n = candidates.len();
        let c = combinations(keys.drop_last(), dic);
        let k = alternatives(dic, keys.last()).len();
        assert((n * c) * k == n * (c * k)) by (nonlinear_arith);
    }
}

/// A line without placeholders resolves to itself alone, whatever the
/// dictionary holds.
pub proof fn lemma_literal_line_resolves_to_itself(line: Seq<char>, dic: Values)
    requires
        placeholder_keys(line).len() == 0,
    ensures
        resolve(line, dic) == seq![line],
{
}

/// A line resolves to as many lines as there are combinations of the
/// alternatives of its distinct placeholder keys: a key with a single value
/// or with none counts once, a key with a list of `k` strings `k` times.
pub proof fn lemma_resolve_len(line: Seq<char>, dic: Values)
    ensures
        resolve(line, dic).len() == combinations(distinct(placeholder_keys(line)), dic),
{
    lemma_expand_all_len(seq![line], distinct(placeholder_keys(line)), dic);
    let c = combinations(distinct(placeholder_keys(line)), dic);
    assert(1 * c == c);
}

proof fn lemma_combinations_of_single_values(keys: Seq<Seq<char>>, dic: Values)
    requires
        forall|key: Seq<char>| keys.contains(key) ==> alternatives(dic, key).len() == 1,
    ensures
        combinations(keys, dic) == 1,
    decreases keys.len(),
{
    if keys.len() > 0 {
        let init = keys.drop_last();
        assert forall|key: Seq<char>| init.contains(key) implies alternatives(dic, key).len()
            == 1 by {
            let i = choose|i: int| 0 <= i < init.len() && init[i] == key;
            assert(keys[i] == key);
            assert(keys.contains(key));
        }
        lemma_combinations_of_single_values(init, dic);
        assert(keys.contains(keys.last()));
    }
}

/// A line each of whose placeholder keys has a single string as its value,
/// or no value, resolves to exactly one line.
pub proof fn lemma_single_values_give_one_line(line: Seq<char>, dic: Values)
    requires
        forall|key: Seq<char>| #[trigger]
            distinct(placeholder_keys(line)).contains(key) ==> alternatives(dic, key).len() == 1,
    ensures
        resolve(line, dic).len() == 1,
{
    lemma_combinations_of_single_values(distinct(placeholder_keys(line)), dic);
    lemma_resolve_len(line, dic);
}

proof fn lemma_no_brace_no_keys_from(line: Seq<char>, word: Seq<bool>, from: int)
    requires
        forall|i: int| 0 <= i < line.len() ==> line[i] != '{',
    ensures
        keys_from(line, word, from).len() == 0,
    decreases line.len() - from,
{
    if 0 <= from < line.len() {
        assert(placeholder_at(line, word, from) is None);
        lemma_no_brace_no_keys_from(line, word, from + 1);
    }
}

/// A line without an opening brace has no placeholder, and resolves to
/// itself alone.
pub proof fn lemma_line_without_brace_is_literal(line: Seq<char>, dic: Values)
    requires
        forall|i: int| 0 <= i < line.len() ==> line[i] != '{',
    ensures
        placeholder_keys(line).len() == 0,
        resolve(line, dic) == seq![line],
{
    lemma_no_brace_no_keys_from(line, word_classes(line), 0);
}

/// A line whose placeholders all have the one key `key` resolves to one line
/// for each alternative of the key, in the order of the alternatives: the
/// line with the placeholder replaced by that alternative.
pub proof fn lemma_resolve_one_key(line: Seq<char>, key: Seq<char>, dic: Values)
    requires
        distinct(placeholder_keys(line)) == seq![key],
    ensures
        resolve(line, dic) == Seq::new(
            alternatives(dic, key).len(),
            |i: int| replace_all(line, placeholder(key), alternatives(dic, key)[i]),
        ),
{
    let keys = seq![key];
    let alts = alternatives(dic, key);
    assert(keys.drop_last() =~= Seq::<Seq<char>>::empty());
    assert(expand_all(seq![line], keys.drop_last(), dic) == seq![line]);
    assert(resolve(line, dic) == expand(seq![line], key, alts));
    assert(seq![line].len() * alts.len() == alts.len());
    assert forall|i: int| 0 <= i < alts.len() implies #[trigger] expand(seq![line], key, alts)[i]
        == replace_all(line, placeholder(key), alts[i]) by {
        lemma_fundamental_div_mod_converse(i, alts.len() as int, 0, i);
    }
    assert(expand(seq![line], key, alts) =~= Seq::new(
        alts.len(),
        |i: int| replace_all(line, placeholder(key), alts[i]),
    ));
}

} // verus!
