//! Fitting a field to its column: the ratio by which its nominal size is
//! multiplied to give the size at which its lines are set.

use vstd::prelude::*;

verus! {

/// The greatest number of characters among `lines`, 0 where there is no
/// line.
pub open spec fn longest(lines: Seq<Seq<char>>) -> nat
    decreases lines.len(),
{
    if lines.len() == 0 {
        0
    } else {
        let rest = longest(lines.drop_last());
        if lines.last().len() > rest {
            lines.last().len()
        } else {
            rest
        }
    }
}

/// No line has more characters than the longest, and where there is a line,
/// some line has exactly that many.
pub proof fn lemma_longest_is_greatest(lines: Seq<Seq<char>>)
    ensures
        forall|i: int| 0 <= i < lines.len() ==> (#[trigger] lines[i]).len() <= longest(lines),
        lines.len() > 0 ==> exists|i: int|
            0 <= i < lines.len() && (#[trigger] lines[i]).len() == longest(lines),
    decreases lines.len(),
{
    if lines.len() > 0 {
        let init = lines.drop_last();
        lemma_longest_is_greatest(init);
        assert forall|i: int| 0 <= i < lines.len() implies (#[trigger] lines[i]).len() <= longest(
            lines,
        ) by {
            if i < init.len() {
                assert(init[i] == lines[i]);
            }
        }
        if lines.last().len() > longest(init) || init.len() == 0 {
            assert(lines[lines.len() - 1].len() == longest(lines));
        } else {
            let i = choose|i: int| 0 <= i < init.len() && (#[trigger] init[i]).len() == longest(init);
            assert(lines[i] == init[i]);
        }
    }
}

/// The width that a field's lines are fitted by: the number of characters of
/// the longest line, where a longest line of no characters counts as one.
pub open spec fn fit_width(longest: nat) -> nat {
    if longest == 0 {
        1
    } else {
        longest
    }
}

/// The ratio by which the nominal size of a field is multiplied when its
/// longest line has `longest` characters, as a numerator and a denominator.
/// With a column budget that the longest line exceeds it is budget over
/// width; without a budget, and within it, it is one: the size is never
/// enlarged.
pub open spec fn shrink(column: Option<usize>, longest: nat) -> (nat, nat) {
    match column {
        Some(budget) => if budget < fit_width(longest) {
            (budget as nat, fit_width(longest))
        } else {
            (1, 1)
        },
        None => (1, 1),
    }
}

/// The ratio has a positive denominator and is at most one; it is positive
/// unless the budget is zero. So a size multiplied by it does not grow, and a
/// positive size stays positive under a positive budget.
pub proof fn lemma_shrink_bounded(column: Option<usize>, longest: nat, nominal: nat)
    ensures
        0 < shrink(column, longest).1,
        shrink(column, longest).0 <= shrink(column, longest).1,
        column != Some(0usize) ==> 0 < shrink(column, longest).0,
        nominal * shrink(column, longest).0 <= nominal * shrink(column, longest).1,
        nominal > 0 && column != Some(0usize) ==> 0 < nominal * shrink(column, longest).0,
{
    let (n, d) = shrink(column, longest);
    assert(nominal * n <= nominal * d) by (nonlinear_arith)
        requires
            n <= d,
    ;
    if nominal > 0 && n > 0 {
        assert(0 < nominal * n) by (nonlinear_arith)
            requires
                nominal > 0,
                n > 0,
        ;
    }
}

/// The ratio does not grow when the longest line grows, and so neither does
/// a size multiplied by it: compared by cross-multiplication, the ratio for
/// the longer line is at most the ratio for the shorter one.
pub proof fn lemma_shrink_monotonic(column: Option<usize>, shorter: nat, longer: nat, nominal: nat)
    requires
        shorter <= longer,
    ensures
        shrink(column, longer).0 * shrink(column, shorter).1 <= shrink(column, shorter).0 * shrink(
            column,
            longer,
        ).1,
        (nominal * shrink(column, longer).0) * shrink(column, shorter).1 <= (nominal * shrink(
            column,
            shorter,
        ).0) * shrink(column, longer).1,
{
    let near = fit_width(shorter);
    let far = fit_width(longer);
    if let Some(budget) = column {
        if budget < near {
            assert(budget * near <= budget * far) by (nonlinear_arith)
                requires
                    near <= far,
                    0 <= budget,
            ;
        } else if budget < far {
            assert(budget * 1 <= 1 * far);
        }
    }
    let (n2, d2) = shrink(column, longer);
    let (n1, d1) = shrink(column, shorter);
    assert((nominal * n2) * d1 <= (nominal * n1) * d2) by (nonlinear_arith)
        requires
            n2 * d1 <= n1 * d2,
    ;
}

/// The ratio is one where there is no column budget, and where the longest
/// line does not exceed a positive budget.
pub proof fn lemma_shrink_is_one(column: Option<usize>, longest: nat)
    requires
        column != Some(0usize),
        column is None || longest <= column->0,
    ensures
        shrink(column, longest) == (1nat, 1nat),
{
}

/// Where the longest line exceeds the budget, the ratio is the budget over
/// the number of characters of the longest line.
pub proof fn lemma_shrink_is_budget_over_longest(budget: usize, longest: nat)
    requires
        budget < longest,
    ensures
        shrink(Some(budget), longest) == (budget as nat, longest),
{
}

} // verus!
