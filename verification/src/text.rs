//! Text values, the dictionary of substitution values, text fields, and
//! what is computed from them: the resolved lines of a text, the ratio by
//! which a field is shrunk, and the place of each of its lines.

use crate::chars::{from_chars, replace_all, replace_chars, strings_from, to_chars, views};
use crate::fit::{longest, shrink};
use crate::resolve::{
    alternatives, expand, expand_all, lemma_expand_single, resolve, resolve_lines, Value, Values,
};
use crate::token::{distinct_keys, placeholder};
use vstd::arithmetic::div_mod::lemma_fundamental_div_mod_converse;
use vstd::hash_map::StringHashMap;
use vstd::prelude::*;

verus! {

/// A text value: one string, or a list of strings. As the text of a field a
/// list is one line per element; as a dictionary value it is one alternative
/// per element.
#[derive(Debug)]
pub enum Text {
    Multi(Vec<String>),
    Single(String),
}

impl View for Text {
    type V = Value;

    open spec fn view(&self) -> Value {
        match self {
            Text::Multi(list) => Value::Multi(views(list@)),
            Text::Single(s) => Value::Single(s@),
        }
    }
}

impl Text {
    /// The single-string value that holds `s`.
    pub fn single(s: &str) -> (text: Self)
        ensures
            text@ == Value::Single(s@),
    {
        Text::Single(s.to_owned())
    }
}

/// The side of its origin on which a line is anchored.
#[derive(Clone, Copy, Debug, PartialEq, Eq, Structural)]
pub enum Align {
    Left,
    Right,
}

/// The anchor keyword that stands for `align`.
pub open spec fn anchor_keyword(align: Align) -> Seq<char> {
    match align {
        Align::Left => "start"@,
        Align::Right => "end"@,
    }
}

impl Align {
    /// The anchor keyword of a line with this alignment: `start` anchors the
    /// line at its left end, `end` at its right end.
    pub fn anchor(&self) -> (keyword: &'static str)
        ensures
            keyword@ == anchor_keyword(*self),
    {
        match self {
            Align::Left => "start",
            Align::Right => "end",
        }
    }
}

/// A text field of a card. All lengths are whole numbers of one unit, which
/// the caller chooses as fine as its lengths need.
#[derive(Debug)]
pub struct TextElement {
    /// The declared line, or the declared lines from top to bottom.
    pub text: Text,
    /// The key of the field's font set.
    pub fontset: String,
    /// The nominal font size: the size at which the lines are set unless
    /// they are shrunk, and with the line spacing the distance between lines.
    pub fontsize: u32,
    /// The alignment; left where there is none.
    pub align: Option<Align>,
    /// The origin: where the first line stands.
    pub pos: (usize, usize),
    /// Extra space between letters and between lines; none where absent.
    pub space: Option<(i32, i32)>,
    /// The number of characters that a line may have at the nominal size.
    pub column: Option<usize>,
}

impl TextElement {
    /// The alignment of the field's lines.
    pub open spec fn alignment(&self) -> Align {
        match self.align {
            Some(align) => align,
            None => Align::Left,
        }
    }

    /// The extra space between letters and between lines.
    pub open spec fn spacing(&self) -> (i32, i32) {
        match self.space {
            Some(space) => space,
            None => (0i32, 0i32),
        }
    }

    /// The distance from one line to the next.
    pub open spec fn advance(&self) -> int {
        self.fontsize + self.spacing().1
    }

    /// The lines that the field resolves to under `dic`, from top to bottom.
    pub open spec fn lines(&self, dic: Values) -> Seq<Seq<char>> {
        resolve_lines(self.text@.strings(), dic)
    }

    /// The ratio by which the nominal size is multiplied to give the size at
    /// which every line of the field is set under `dic`.
    pub open spec fn shrink(&self, dic: Values) -> (nat, nat) {
        shrink(self.column, longest(self.lines(dic)))
    }
}

/// One line of a field as it is drawn.
#[derive(Debug)]
pub struct RenderedLine {
    /// The resolved line.
    pub text: String,
    /// The horizontal place of the line's anchor.
    pub x: usize,
    /// The vertical place of the line. It is wide enough for any number of
    /// lines at any advance, upwards or downwards.
    pub y: i128,
    /// The ratio, numerator and denominator, by which the field's nominal
    /// size is multiplied to give the size at which the line is set.
    pub shrink: (usize, usize),
    /// The extra space between the letters of the line.
    pub letter_spacing: i32,
    /// The side on which the line is anchored.
    pub align: Align,
}

/// The substitution values of one render, by placeholder key.
pub struct Dictionary {
    entries: StringHashMap<Text>,
}

impl View for Dictionary {
    type V = Values;

    /// For each key that has a value, that value.
    closed spec fn view(&self) -> Values {
        self.entries@.map_values(|t: Text| t@)
    }
}

impl Dictionary {
    /// The dictionary without any key.
    pub fn new() -> (dic: Self)
        ensures
            dic@ == Values::empty(),
    {
        let dic = Dictionary { entries: StringHashMap::new() };
        assert(dic@ =~= Values::empty());
        dic
    }

    /// Gives `key` the value `value`, in place of the value it had, if any.
    pub fn insert(&mut self, key: String, value: Text)
        ensures
            final(self)@ == old(self)@.insert(key@, value@),
    {
        self.entries.insert(key, value);
        assert(self@ =~= old(self)@.insert(key@, value@));
    }

    /// The value of `key`, if it has one.
    pub fn get(&self, key: &str) -> (value: Option<&Text>)
        ensures
            match value {
                Some(text) => self@.contains_key(key@) && self@[key@] == text@,
                None => !self@.contains_key(key@),
            },
    {
        self.entries.get(key)
    }
}

/// The text of the placeholder for `key`.
fn placeholder_chars(key: &Vec<char>) -> (token: Vec<char>)
    ensures
        token@ == placeholder(key@),
{
    let mut token: Vec<char> = Vec::new();
    token.push('{');
    let mut i: usize = 0;
    while i < key.len()
        invariant
            i <= key.len(),
            token@ == seq!['{'] + key@.take(i as int),
        decreases key.len() - i,
    {
        token.push(key[i]);
        assert(token@ =~= seq!['{'] + key@.take(i + 1));
        i += 1;
    }
    token.push('}');
    assert(token@ =~= placeholder(key@));
    token
}

/// Replaces the placeholder of `k` by `s` in every string of `t`.
pub fn replace_vecstr(k: &str, s: &str, t: &[String]) -> (out: Vec<String>)
    ensures
        out@.len() == t@.len(),
        views(out@) == Seq::new(
            t@.len(),
            |i: int| replace_all(t@[i]@, placeholder(k@), s@),
        ),
{
    let token = placeholder_chars(&to_chars(k));
    let with = to_chars(s);
    let mut out: Vec<String> = Vec::new();
    let mut i: usize = 0;
    while i < t.len()
        invariant
            i <= t.len(),
            token@ == placeholder(k@),
            with@ == s@,
            out.len() == i,
            forall|j: int| 0 <= j < i ==> out@[j]@ == replace_all(t@[j]@, placeholder(k@), s@),
        decreases t.len() - i,
    {
        let line = to_chars(t[i].as_str());
        out.push(from_chars(&replace_chars(&line, &token, &with)));
        i += 1;
    }
    assert(views(out@) =~= Seq::new(
        t@.len(),
        |i: int| replace_all(t@[i]@, placeholder(k@), s@),
    ));
    out
}

/// Combines every string of `t` with every string of `ss`: the placeholder of
/// `k` is replaced in each string of `t` by each string of `ss` in turn.
fn expand_list(k: &str, ss: &Vec<String>, t: &[String]) -> (out: Vec<String>)
    ensures
        views(out@) == expand(views(t@), k@, views(ss@)),
{
    let token = placeholder_chars(&to_chars(k));
    let mut out: Vec<String> = Vec::new();
    let mut a: usize = 0;
    while a < t.len()
        invariant
            a <= t.len(),
            token@ == placeholder(k@),
            out.len() == a * ss.len(),
            forall|j: int|
                0 <= j < out.len() ==> out@[j]@ == expand(views(t@), k@, views(ss@))[j],
        decreases t.len() - a,
    {
        let line = to_chars(t[a].as_str());
        let mut b: usize = 0;
        while b < ss.len()
            invariant
                a < t.len(),
                b <= ss.len(),
                token@ == placeholder(k@),
                line@ == t@[a as int]@,
                out.len() == a * ss.len() + b,
                forall|j: int|
                    0 <= j < out.len() ==> out@[j]@ == expand(views(t@), k@, views(ss@))[j],
            decreases ss.len() - b,
        {
            let with = to_chars(ss[b].as_str());
            proof {
                let cell = a * ss.len() + b;
                assert(cell < t.len() * ss.len()) by (nonlinear_arith)
                    requires
                        cell == a * ss.len() + b,
                        a < t.len(),
                        b < ss.len(),
                ;
                lemma_fundamental_div_mod_converse(cell, ss.len() as int, a as int, b as int);
            }
            out.push(from_chars(&replace_chars(&line, &token, &with)));
            b += 1;
        }
        assert(a * ss.len() + ss.len() == (a + 1) * ss.len()) by (nonlinear_arith);
        a += 1;
    }
    assert(views(out@) =~= expand(views(t@), k@, views(ss@)));
    out
}

/// Expands `text` by each of `keys` in turn, the first key first: the
/// placeholder of a key is replaced by the key's value, and a value that is
/// a list multiplies the lines, one for each of its strings. A key without a
/// value stands for the empty string.
pub fn expand_keys(text: &str, keys: &[String], dic: &Dictionary) -> (t: Vec<String>)
    ensures
        t@.len() == expand_all(seq![text@], views(keys@), dic@).len(),
        views(t@) == expand_all(seq![text@], views(keys@), dic@),
{
    let mut t: Vec<String> = Vec::new();
    t.push(text.to_owned());
    assert(views(t@) =~= seq![text@]);
    let mut i: usize = 0;
    while i < keys.len()
        invariant
            i <= keys.len(),
            views(t@) == expand_all(seq![text@], views(keys@).take(i as int), dic@),
        decreases keys.len() - i,
    {
        let k = keys[i].as_str();
        let ghost before = views(t@);
        proof {
            assert(views(keys@).take(i + 1).drop_last() =~= views(keys@).take(i as int));
            assert(views(keys@).take(i + 1).last() == k@);
        }
        t =
        match dic.get(k) {
            Some(Text::Single(s)) => {
                let out = replace_vecstr(k, s.as_str(), t.as_slice());
                proof {
                    lemma_expand_single(before, k@, s@);
                }
                assert(views(out@) =~= expand(before, k@, seq![s@]));
                out
            },
            Some(Text::Multi(ss)) => expand_list(k, ss, t.as_slice()),
            None => {
                let nothing = String::new();
                let out = replace_vecstr(k, nothing.as_str(), t.as_slice());
                proof {
                    lemma_expand_single(before, k@, Seq::<char>::empty());
                }
                assert(views(out@) =~= expand(before, k@, seq![Seq::<char>::empty()]));
                out
            },
        };
        i += 1;
    }
    assert(views(keys@).take(keys.len() as int) =~= views(keys@));
    assert(views(t@).len() == t@.len());
    t
}

/// Resolves the placeholders of `text` against `dic`: the text is expanded
/// by its distinct placeholder keys in the order of their first appearance.
pub fn filltext(text: &str, dic: &Dictionary) -> (t: Vec<String>)
    ensures
        t@.len() == resolve(text@, dic@).len(),
        views(t@) == resolve(text@, dic@),
{
    let keys = strings_from(&distinct_keys(&to_chars(text)));
    expand_keys(text, keys.as_slice(), dic)
}

/// Resolves every line of `text` against `dic`, in declared order.
pub fn resolve_text(text: &Text, dic: &Dictionary) -> (out: Vec<String>)
    ensures
        out@.len() == resolve_lines(text@.strings(), dic@).len(),
        views(out@) == resolve_lines(text@.strings(), dic@),
{
    match text {
        Text::Single(s) => {
            let out = filltext(s.as_str(), dic);
            assert(resolve_lines(seq![s@].drop_last(), dic@) =~= Seq::<Seq<char>>::empty());
            assert(resolve_lines(seq![s@], dic@) =~= resolve(s@, dic@));
            out
        },
        Text::Multi(list) => {
            let mut out: Vec<String> = Vec::new();
            let mut i: usize = 0;
            let ghost declared = views(list@);
            assert(views(out@) =~= resolve_lines(declared.take(0), dic@));
            while i < list.len()
                invariant
                    i <= list.len(),
                    declared == views(list@),
                    views(out@) == resolve_lines(declared.take(i as int), dic@),
                decreases list.len() - i,
            {
                let mut part = filltext(list[i].as_str(), dic);
                let ghost before = views(out@);
                let ghost added = views(part@);
                assert(declared.take(i + 1).drop_last() =~= declared.take(i as int));
                out.append(&mut part);
                assert(views(out@) =~= before + added);
                i += 1;
            }
            assert(declared.take(list.len() as int) =~= declared);
            out
        },
    }
}

/// The greatest number of characters among the strings of `ss`; 1 where
/// there is no string.
pub fn maxlen(ss: &[String]) -> (len: usize)
    ensures
        len == if ss@.len() == 0 {
            1
        } else {
            longest(views(ss@))
        },
{
    if ss.len() == 0 {
        return 1;
    }
    let mut len: usize = 0;
    let mut i: usize = 0;
    while i < ss.len()
        invariant
            i <= ss.len(),
            len == longest(views(ss@).take(i as int)),
        decreases ss.len() - i,
    {
        let n = ss[i].as_str().unicode_len();
        assert(views(ss@).take(i + 1).drop_last() =~= views(ss@).take(i as int));
        if n > len {
            len = n;
        }
        i += 1;
    }
    assert(views(ss@).take(ss.len() as int) =~= views(ss@));
    len
}

/// The ratio, numerator and denominator, by which the nominal size of
/// `text` is multiplied so that the longest of all its resolved lines fits
/// the column budget `col`: budget over the number of characters of that
/// line where the line exceeds the budget, and one otherwise. The nominal
/// size times this ratio is the size at which every line of `text` is set.
pub fn fontsize(text: &Text, dic: &Dictionary, col: &Option<usize>) -> (ratio: (usize, usize))
    ensures
        ratio.0 == shrink(*col, longest(resolve_lines(text@.strings(), dic@))).0,
        ratio.1 == shrink(*col, longest(resolve_lines(text@.strings(), dic@))).1,
{
    let lines = resolve_text(text, dic);
    let len = maxlen(lines.as_slice());
    let width: usize = if len == 0 {
        1
    } else {
        len
    };
    match col {
        Some(budget) => {
            if *budget < width {
                (*budget, width)
            } else {
                (1, 1)
            }
        },
        None => (1, 1),
    }
}

/// Lays out the field `te` under the dictionary `dic`: one record for each
/// resolved line, in order. Every line stands at the field's horizontal
/// origin, is set at the nominal size times the field's one ratio, and
/// carries the field's alignment and letter spacing; line `i` stands `i`
/// advances below the origin.
pub fn write_text_element(te: &TextElement, dic: &Dictionary) -> (out: Vec<RenderedLine>)
    ensures
        out.len() == te.lines(dic@).len(),
        forall|i: int|
            0 <= i < out.len() ==> {
                &&& (#[trigger] out@[i]).text@ == te.lines(dic@)[i]
                &&& out@[i].x == te.pos.0
                &&& out@[i].y == te.pos.1 + i * te.advance()
                &&& out@[i].shrink.0 == te.shrink(dic@).0
                &&& out@[i].shrink.1 == te.shrink(dic@).1
                &&& out@[i].letter_spacing == te.spacing().0
                &&& out@[i].align == te.alignment()
            },
{
    let ratio = fontsize(&te.text, dic, &te.column);
    let (xspacing, yspacing) = match te.space {
        Some(space) => space,
        None => (0i32, 0i32),
    };
    let align = match te.align {
        Some(align) => align,
        None => Align::Left,
    };
    let texts = resolve_text(&te.text, dic);
    let advance: i128 = te.fontsize as i128 + yspacing as i128;
    let mut y: i128 = te.pos.1 as i128;
    let mut out: Vec<RenderedLine> = Vec::new();
    let mut i: usize = 0;
    while i < texts.len()
        invariant
            i <= texts.len(),
            out.len() == i,
            views(texts@) == te.lines(dic@),
            advance == te.advance(),
            ratio.0 == te.shrink(dic@).0,
            ratio.1 == te.shrink(dic@).1,
            xspacing == te.spacing().0,
            align == te.alignment(),
            y == te.pos.1 + i * advance,
            forall|j: int|
                0 <= j < i ==> {
                    &&& (#[trigger] out@[j]).text@ == te.lines(dic@)[j]
                    &&& out@[j].x == te.pos.0
                    &&& out@[j].y == te.pos.1 + j * te.advance()
                    &&& out@[j].shrink.0 == te.shrink(dic@).0
                    &&& out@[j].shrink.1 == te.shrink(dic@).1
                    &&& out@[j].letter_spacing == te.spacing().0
                    &&& out@[j].align == te.alignment()
                },
        decreases texts.len() - i,
    {
        out.push(
            RenderedLine {
                text: texts[i].clone(),
                x: te.pos.0,
                y,
                shrink: ratio,
                letter_spacing: xspacing,
                align,
            },
        );
        assert(-0x1_8000_0000_0000_0000_0000_0000 <= (i + 1) * advance
            <= 0x1_8000_0000_0000_0000_0000_0000 && (i + 1) * advance == i * advance + advance)
            by (nonlinear_arith)
            requires
                0 <= i < 0x1_0000_0000_0000_0000,
                -0x8000_0000 <= advance < 0x1_8000_0000,
        ;
        y = y + advance;
        i += 1;
    }
    out
}

/// A field aligned to the right anchors its lines at their end; a field
/// aligned to the left, or without an alignment, anchors them at their start.
/// The two keywords differ.
pub proof fn lemma_anchor_of_field(te: TextElement)
    ensures
        te.align == Some(Align::Right) ==> anchor_keyword(te.alignment()) == "end"@,
        te.align != Some(Align::Right) ==> anchor_keyword(te.alignment()) == "start"@,
        "start"@ != "end"@,
{
    reveal_strlit("start");
    reveal_strlit("end");
    assert("start"@.len() != "end"@.len());
}

} // verus!
