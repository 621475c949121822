//! The card template: its dimensions, fonts and text fields.

use crate::decimal::{decimal_string, signed_decimal};
use crate::text::TextElement;
use vstd::prelude::*;
use vstd::string::StringExecFns;

verus! {

/// The size of a card and of the margin around it.
#[derive(Debug)]
pub struct Dimension {
    pub width: usize,
    pub height: usize,
    /// The margin to the left of and above the card's origin.
    pub bezel: (isize, isize),
    /// The unit of `width` and `height`.
    pub unit: String,
}

/// The bezel of a card that declares none.
pub fn default_bezel() -> (bezel: (isize, isize))
    ensures
        bezel == (0isize, 0isize),
{
    (0, 0)
}

/// The unit of a card that declares none: millimetres.
pub fn default_unit() -> (unit: String)
    ensures
        unit@ == "mm"@,
{
    "mm".to_owned()
}

impl Clone for Dimension {
    fn clone(&self) -> (copy: Self)
        ensures
            copy.width == self.width,
            copy.height == self.height,
            copy.bezel == self.bezel,
            copy.unit@ == self.unit@,
    {
        Dimension {
            width: self.width,
            height: self.height,
            bezel: (self.bezel.0, self.bezel.1),
            unit: self.unit.clone(),
        }
    }
}

impl Dimension {
    /// The view box of the card: the negated bezel, then width and height,
    /// in decimal notation with one space between them.
    pub open spec fn view_box_text(&self) -> Seq<char> {
        signed_decimal(-self.bezel.0) + seq![' '] + signed_decimal(-self.bezel.1) + seq![' ']
            + signed_decimal(self.width as int) + seq![' '] + signed_decimal(self.height as int)
    }

    /// A length of `length` units of the card, in decimal notation with the
    /// unit behind it.
    pub open spec fn length_text(&self, length: usize) -> Seq<char> {
        signed_decimal(length as int) + self.unit@
    }

    /// The view box of the card.
    pub fn view_box(&self) -> (text: String)
        ensures
            text@ == self.view_box_text(),
    {
        let mut text = decimal_string(-(self.bezel.0 as i128));
        proof {
            reveal_strlit(" ");
            assert(" "@ =~= seq![' ']);
        }
        text.append(" ");
        text.append(decimal_string(-(self.bezel.1 as i128)).as_str());
        text.append(" ");
        text.append(decimal_string(self.width as i128).as_str());
        text.append(" ");
        text.append(decimal_string(self.height as i128).as_str());
        text
    }

    /// The width of the card with its unit.
    pub fn width_text(&self) -> (text: String)
        ensures
            text@ == self.length_text(self.width),
    {
        let mut text = decimal_string(self.width as i128);
        text.append(self.unit.as_str());
        text
    }

    /// The height of the card with its unit.
    pub fn height_text(&self) -> (text: String)
        ensures
            text@ == self.length_text(self.height),
    {
        let mut text = decimal_string(self.height as i128);
        text.append(self.unit.as_str());
        text
    }
}

/// Whether no two entries of `entries` have the same key.
pub open spec fn keys_unique<T>(entries: Seq<(String, T)>) -> bool {
    forall|i: int, j: int|
        0 <= i < j < entries.len() ==> (#[trigger] entries[i]).0@ != (#[trigger] entries[j]).0@
}

/// Whether no two entries of `entries` have the same key.
pub fn has_unique_keys<T>(entries: &Vec<(String, T)>) -> (unique: bool)
    ensures
        unique == keys_unique(entries@),
{
    let mut j: usize = 0;
    while j < entries.len()
        invariant
            j <= entries.len(),
            keys_unique(entries@.take(j as int)),
        decreases entries.len() - j,
    {
        let mut i: usize = 0;
        while i < j
            invariant
                i <= j < entries.len(),
                forall|k: int| 0 <= k < i ==> (#[trigger] entries@[k]).0@ != entries@[j as int].0@,
            decreases j - i,
        {
            if entries[i].0 == entries[j].0 {
                return false;
            }
            i += 1;
        }
        assert forall|a: int, b: int| 0 <= a < b < j + 1 implies (#[trigger] entries@.take(
            j + 1,
        )[a]).0@ != (#[trigger] entries@.take(j + 1)[b]).0@ by {
            if b < j {
                assert(entries@.take(j as int)[a] == entries@[a]);
                assert(entries@.take(j as int)[b] == entries@[b]);
            }
        }
        j += 1;
    }
    assert(entries@.take(entries.len() as int) =~= entries@);
    true
}

/// What a card template declares for the library: the dimensions, the fonts
/// by class, the style sheets to import, and the text fields. Each list is in
/// the order in which its entries are to be written, and is meant to hold
/// each key once: see `wf`.
#[derive(Debug)]
pub struct CardTemplate {
    pub dimension: Dimension,
    /// For each font class, its font families in order of preference.
    pub fontset: Vec<(String, Vec<String>)>,
    /// For some font classes, a font weight.
    pub fontweight: Option<Vec<(String, usize)>>,
    /// The addresses of the style sheets to import.
    pub imports: Option<Vec<String>>,
    /// The text fields by name.
    pub texts: Vec<(String, TextElement)>,
}

impl CardTemplate {
    /// Whether every list of the template holds each of its keys once: no
    /// font class has two entries in `fontset` or in `fontweight`, and no
    /// text field name occurs twice in `texts`.
    pub open spec fn wf(&self) -> bool {
        &&& keys_unique(self.fontset@)
        &&& match self.fontweight {
            Some(weights) => keys_unique(weights@),
            None => true,
        }
        &&& keys_unique(self.texts@)
    }

    /// Whether every list of the template holds each of its keys once.
    pub fn is_wf(&self) -> (b: bool)
        ensures
            b == self.wf(),
    {
        let weights = match &self.fontweight {
            Some(weights) => has_unique_keys(weights),
            None => true,
        };
        has_unique_keys(&self.fontset) && weights && has_unique_keys(&self.texts)
    }
}

} // verus!
