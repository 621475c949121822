//! The style sheet of a card: one rule for each imported style sheet, font
//! class and font weight of its template.

use crate::chars::views;
use crate::decimal::{decimal_string, signed_decimal};
use crate::template::CardTemplate;
use vstd::prelude::*;
use vstd::string::StringExecFns;

verus! {

/// The parts in order, with `sep` between every two neighbours.
pub open spec fn join(parts: Seq<Seq<char>>, sep: Seq<char>) -> Seq<char>
    decreases parts.len(),
{
    if parts.len() == 0 {
        Seq::empty()
    } else if parts.len() == 1 {
        parts[0]
    } else {
        join(parts.drop_last(), sep) + sep + parts.last()
    }
}

/// The rule that imports the style sheet at `url`.
pub open spec fn import_rule(url: Seq<char>) -> Seq<char> {
    "@import url('"@ + url + "');\n"@
}

/// The rule that gives the font class `class` its families, in order of
/// preference.
pub open spec fn family_rule(class: Seq<char>, families: Seq<Seq<char>>) -> Seq<char> {
    "."@ + class + " { font-family: "@ + join(families, ","@) + "; }\n"@
}

/// The rule that gives the font class `class` the weight `weight`.
pub open spec fn weight_rule(class: Seq<char>, weight: usize) -> Seq<char> {
    "."@ + class + " { font-weight: "@ + signed_decimal(weight as int) + "; }\n"@
}

/// The import rules of `template`, in declared order.
pub open spec fn import_rules(template: CardTemplate) -> Seq<Seq<char>> {
    match template.imports {
        Some(urls) => Seq::new(urls@.len(), |i: int| import_rule(urls@[i]@)),
        None => Seq::empty(),
    }
}

/// The font family rules of `template`, in declared order.
pub open spec fn family_rules(template: CardTemplate) -> Seq<Seq<char>> {
    Seq::new(
        template.fontset@.len(),
        |i: int| family_rule(template.fontset@[i].0@, views(template.fontset@[i].1@)),
    )
}

/// The font weight rules of `template`, in declared order.
pub open spec fn weight_rules(template: CardTemplate) -> Seq<Seq<char>> {
    match template.fontweight {
        Some(weights) => Seq::new(
            weights@.len(),
            |i: int| weight_rule(weights@[i].0@, weights@[i].1),
        ),
        None => Seq::empty(),
    }
}

/// The rules of the style sheet of `template`: imports first, then font
/// families, then font weights.
pub open spec fn style_rules(template: CardTemplate) -> Seq<Seq<char>> {
    import_rules(template) + family_rules(template) + weight_rules(template)
}

/// The strings of `parts` with `sep` between every two neighbours.
pub fn join_strings(parts: &Vec<String>, sep: &str) -> (joined: String)
    ensures
        joined@ == join(views(parts@), sep@),
{
    let mut joined = String::new();
    let mut i: usize = 0;
    while i < parts.len()
        invariant
            i <= parts.len(),
            joined@ == join(views(parts@).take(i as int), sep@),
        decreases parts.len() - i,
    {
        let ghost done = views(parts@).take(i as int);
        assert(views(parts@).take(i + 1).drop_last() =~= done);
        if i > 0 {
            joined.append(sep);
        }
        joined.append(parts[i].as_str());
        assert(joined@ =~= join(views(parts@).take(i + 1), sep@));
        i += 1;
    }
    assert(views(parts@).take(parts.len() as int) =~= views(parts@));
    joined
}

fn import_line(url: &str) -> (rule: String)
    ensures
        rule@ == import_rule(url@),
{
    let mut rule = "@import url('".to_owned();
    rule.append(url);
    rule.append("');\n");
    rule
}

fn family_line(class: &str, families: &Vec<String>) -> (rule: String)
    ensures
        rule@ == family_rule(class@, views(families@)),
{
    let mut rule = ".".to_owned();
    rule.append(class);
    rule.append(" { font-family: ");
    rule.append(join_strings(families, ",").as_str());
    rule.append("; }\n");
    rule
}

fn weight_line(class: &str, weight: usize) -> (rule: String)
    ensures
        rule@ == weight_rule(class@, weight),
{
    let mut rule = ".".to_owned();
    rule.append(class);
    rule.append(" { font-weight: ");
    rule.append(decimal_string(weight as i128).as_str());
    rule.append("; }\n");
    rule
}

/// The rules of the style sheet of `template`, one string for each rule.
pub fn write_style(template: &CardTemplate) -> (rules: Vec<String>)
    ensures
        views(rules@) == style_rules(*template),
{
    let mut rules: Vec<String> = Vec::new();
    if let Some(urls) = &template.imports {
        let mut i: usize = 0;
        while i < urls.len()
            invariant
                i <= urls.len(),
                template.imports == Some(*urls),
                views(rules@) == import_rules(*template).take(i as int),
            decreases urls.len() - i,
        {
            let ghost before = views(rules@);
            let rule = import_line(urls[i].as_str());
            rules.push(rule);
            assert(views(rules@) =~= before.push(rule@));
            assert(import_rules(*template).take(i + 1) =~= import_rules(*template).take(
                i as int,
            ).push(rule@));
            i += 1;
        }
        assert(import_rules(*template).take(urls.len() as int) =~= import_rules(*template));
    }
    assert(views(rules@) =~= import_rules(*template));
    let mut j: usize = 0;
    while j < template.fontset.len()
        invariant
            j <= template.fontset.len(),
            views(rules@) == import_rules(*template) + family_rules(*template).take(j as int),
        decreases template.fontset.len() - j,
    {
        let entry = &template.fontset[j];
        let ghost before = views(rules@);
        let rule = family_line(entry.0.as_str(), &entry.1);
        rules.push(rule);
        assert(views(rules@) =~= before.push(rule@));
        assert(family_rules(*template).take(j + 1) =~= family_rules(*template).take(
            j as int,
        ).push(rule@));
        assert(views(rules@) =~= import_rules(*template) + family_rules(*template).take(j + 1));
        j += 1;
    }
    assert(family_rules(*template).take(template.fontset.len() as int) =~= family_rules(
        *template,
    ));
    if let Some(weights) = &template.fontweight {
        let mut k: usize = 0;
        while k < weights.len()
            invariant
                k <= weights.len(),
                template.fontweight == Some(*weights),
                views(rules@) == import_rules(*template) + family_rules(*template)
                    + weight_rules(*template).take(k as int),
            decreases weights.len() - k,
        {
            let ghost before = views(rules@);
            let rule = weight_line(weights[k].0.as_str(), weights[k].1);
            rules.push(rule);
            assert(views(rules@) =~= before.push(rule@));
            assert(weight_rules(*template).take(k + 1) =~= weight_rules(*template).take(
                k as int,
            ).push(rule@));
            assert(views(rules@) =~= import_rules(*template) + family_rules(*template)
                + weight_rules(*template).take(k + 1));
            k += 1;
        }
        assert(weight_rules(*template).take(weights.len() as int) =~= weight_rules(*template));
    }
    assert(views(rules@) =~= style_rules(*template));
    rules
}

} // verus!
