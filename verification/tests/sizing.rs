use svgcard::text::{fontsize, maxlen, Dictionary, Text};

fn strings(items: &[&str]) -> Vec<String> {
    items.iter().map(|s| s.to_string()).collect()
}

#[test]
fn maxlen_counts_characters() {
    assert_eq!(maxlen(&strings(&["ab", "abcd", "abc"])), 4);
    assert_eq!(maxlen(&strings(&["日本語", "ab"])), 3);
    assert_eq!(maxlen(&strings(&["é"])), 1);
}

#[test]
fn maxlen_of_nothing_is_one() {
    assert_eq!(maxlen(&[]), 1);
    assert_eq!(maxlen(&strings(&[""])), 0);
}

#[test]
fn ratio_is_one_without_a_budget() {
    let dic = Dictionary::new();
    let text = Text::single("a very long line of text indeed");
    assert_eq!(fontsize(&text, &dic, &None), (1, 1));
    assert_eq!(fontsize(&Text::single(""), &dic, &None), (1, 1));
}

#[test]
fn ratio_is_one_within_the_budget() {
    let dic = Dictionary::new();
    let text = Text::single("0123456789");
    assert_eq!(fontsize(&text, &dic, &Some(10)), (1, 1));
    assert_eq!(fontsize(&text, &dic, &Some(11)), (1, 1));
    assert_eq!(fontsize(&text, &dic, &Some(usize::MAX)), (1, 1));
}

#[test]
fn ratio_is_budget_over_longest() {
    let dic = Dictionary::new();
    let text = Text::single("0123456789");
    assert_eq!(fontsize(&text, &dic, &Some(5)), (5, 10));
    assert_eq!(fontsize(&text, &dic, &Some(9)), (9, 10));
    assert_eq!(fontsize(&text, &dic, &Some(1)), (1, 10));
    assert_eq!(fontsize(&Text::single("1234567"), &dic, &Some(3)), (3, 7));
    assert_eq!(fontsize(&Text::single("日本語の本"), &dic, &Some(2)), (2, 5));
}

#[test]
fn ratio_is_exact_where_the_quotient_is_no_whole_number() {
    let dic = Dictionary::new();
    let (budget, width) = fontsize(&Text::single("abc"), &dic, &Some(2));
    assert_eq!((budget, width), (2, 3));
    assert_eq!(10.0 * (budget as f64 / width as f64), 10.0 * (2.0 / 3.0));
    let (budget, width) = fontsize(&Text::single("ab"), &dic, &Some(1));
    assert_eq!((budget, width), (1, 2));
    assert_eq!(1.0 * (budget as f64 / width as f64), 0.5);
}

#[test]
fn ratio_is_positive_under_a_positive_budget() {
    let dic = Dictionary::new();
    let mut line = String::new();
    for _ in 0..30 {
        for budget in 1..12 {
            let (numerator, denominator) = fontsize(&Text::single(&line), &dic, &Some(budget));
            assert!(0 < numerator);
            assert!(numerator <= denominator);
        }
        line.push('x');
    }
}

#[test]
fn empty_longest_line_counts_as_one_character() {
    let dic = Dictionary::new();
    assert_eq!(fontsize(&Text::single(""), &dic, &Some(1)), (1, 1));
    assert_eq!(fontsize(&Text::single(""), &dic, &Some(3)), (1, 1));
    assert_eq!(fontsize(&Text::single(""), &dic, &Some(0)), (0, 1));
    assert_eq!(fontsize(&Text::Multi(Vec::new()), &dic, &Some(2)), (1, 1));
    assert_eq!(fontsize(&Text::Multi(Vec::new()), &dic, &Some(0)), (0, 1));
    assert_eq!(fontsize(&Text::single("{missing}"), &dic, &Some(1)), (1, 1));
}

#[test]
fn zero_budget_gives_ratio_zero() {
    let dic = Dictionary::new();
    assert_eq!(fontsize(&Text::single("abc"), &dic, &Some(0)), (0, 3));
}

#[test]
fn ratio_goes_by_the_longest_of_all_resolved_lines() {
    let mut dic = Dictionary::new();
    dic.insert("name".to_string(), Text::Multi(strings(&["Al", "Bartholomew"])));
    let text = Text::Multi(strings(&["{name}", "x"]));
    assert_eq!(fontsize(&text, &dic, &Some(4)), (4, 11));
    let text = Text::Multi(strings(&["x", "dear {name}!"]));
    assert_eq!(fontsize(&text, &dic, &Some(4)), (4, 17));
    assert_eq!(fontsize(&Text::single("{name}"), &dic, &Some(11)), (1, 1));
}

#[test]
fn ratio_does_not_grow_with_the_longest_line() {
    let dic = Dictionary::new();
    let mut line = String::new();
    let mut last: (u128, u128) = (1, 1);
    for n in 0..40 {
        let (numerator, denominator) = fontsize(&Text::single(&line), &dic, &Some(7));
        let ratio = (numerator as u128, denominator as u128);
        assert!(ratio.0 * last.1 <= last.0 * ratio.1);
        assert!(ratio.0 <= ratio.1);
        if n <= 7 {
            assert_eq!(ratio, (1, 1));
        } else {
            assert_eq!(ratio, (7, n));
        }
        last = ratio;
        line.push('x');
    }
}
