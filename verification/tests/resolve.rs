use svgcard::chars::{from_chars, replace_chars, strings_from, to_chars};
use svgcard::text::{expand_keys, filltext, replace_vecstr, resolve_text, Dictionary, Text};
use svgcard::token::{classify, distinct_keys, has_key, scan_keys, word_run_len};

fn strings(items: &[&str]) -> Vec<String> {
    items.iter().map(|s| s.to_string()).collect()
}

fn keys_of(line: &str) -> Vec<String> {
    distinct_keys(&to_chars(line)).iter().map(|k| from_chars(k)).collect()
}

#[test]
fn literal_line_resolves_to_itself() {
    let mut dic = Dictionary::new();
    dic.insert("a".to_string(), Text::single("unused"));
    assert_eq!(filltext("plain text, no tokens", &dic), strings(&["plain text, no tokens"]));
    assert_eq!(filltext("", &dic), strings(&[""]));
}

#[test]
fn missing_key_resolves_to_empty_string() {
    let dic = Dictionary::new();
    assert_eq!(filltext("hi {x}", &dic), strings(&["hi "]));
}

#[test]
fn list_value_expands_in_declared_order() {
    let mut dic = Dictionary::new();
    dic.insert("a".to_string(), Text::Multi(strings(&["X", "Y"])));
    let first = filltext("v={a}", &dic);
    assert_eq!(first, strings(&["v=X", "v=Y"]));
    for _ in 0..20 {
        assert_eq!(filltext("v={a}", &dic), first);
    }
}

#[test]
fn two_lists_expand_to_their_product() {
    let mut dic = Dictionary::new();
    dic.insert("a".to_string(), Text::Multi(strings(&["X", "Y"])));
    dic.insert("b".to_string(), Text::Multi(strings(&["1", "2", "3"])));
    let lines = filltext("{a}-{b}", &dic);
    assert_eq!(lines.len(), 6);
    assert_eq!(lines, strings(&["X-1", "X-2", "X-3", "Y-1", "Y-2", "Y-3"]));
}

#[test]
fn three_lists_expand_to_their_product() {
    let mut dic = Dictionary::new();
    dic.insert("a".to_string(), Text::Multi(strings(&["1", "2"])));
    dic.insert("b".to_string(), Text::Multi(strings(&["x", "y", "z"])));
    dic.insert("c".to_string(), Text::Multi(strings(&["k", "l", "m", "n"])));
    dic.insert("d".to_string(), Text::single("!"));
    let lines = filltext("{c}{a}{d}{b}", &dic);
    assert_eq!(lines.len(), 2 * 3 * 4);
    assert_eq!(lines[0], "k1!x");
    assert_eq!(lines[1], "k1!y");
    assert_eq!(lines[3], "k2!x");
    assert_eq!(lines[6], "l1!x");
    assert_eq!(lines[23], "n2!z");
}

#[test]
fn order_follows_the_line_not_the_dictionary() {
    let mut dic = Dictionary::new();
    dic.insert("b".to_string(), Text::Multi(strings(&["1", "2"])));
    dic.insert("a".to_string(), Text::Multi(strings(&["X", "Y"])));
    assert_eq!(filltext("{b}{a}", &dic), strings(&["1X", "1Y", "2X", "2Y"]));
    assert_eq!(filltext("{a}{b}", &dic), strings(&["X1", "X2", "Y1", "Y2"]));
}

#[test]
fn single_value_replaces_every_occurrence() {
    let mut dic = Dictionary::new();
    dic.insert("a".to_string(), Text::single("Z"));
    assert_eq!(filltext("{a}+{a}={a}{a}", &dic), strings(&["Z+Z=ZZ"]));
}

#[test]
fn repeated_list_key_expands_once() {
    let mut dic = Dictionary::new();
    dic.insert("a".to_string(), Text::Multi(strings(&["X", "Y"])));
    assert_eq!(filltext("{a}{a}", &dic), strings(&["XX", "YY"]));
}

#[test]
fn empty_list_leaves_no_line() {
    let mut dic = Dictionary::new();
    dic.insert("a".to_string(), Text::Multi(Vec::new()));
    assert_eq!(filltext("x{a}y", &dic), Vec::<String>::new());
    assert_eq!(filltext("no token", &dic), strings(&["no token"]));
}

#[test]
fn malformed_braces_stay_verbatim() {
    let mut dic = Dictionary::new();
    dic.insert("a".to_string(), Text::single("V"));
    for line in ["{", "}", "{}", "{a", "a}", "{a b}", "{a-b}", "{ a}", "}{", "{a{", "}a{"] {
        assert_eq!(filltext(line, &dic), strings(&[line]));
    }
    assert_eq!(filltext("{{a}}", &dic), strings(&["{V}"]));
    assert_eq!(filltext("{a{a}", &dic), strings(&["{aV"]));
    assert_eq!(filltext("{a}}", &dic), strings(&["V}"]));
}

#[test]
fn substituted_text_is_not_scanned_for_keys() {
    let mut dic = Dictionary::new();
    dic.insert("a".to_string(), Text::single("{b}"));
    dic.insert("b".to_string(), Text::single("Q"));
    assert_eq!(filltext("{a}", &dic), strings(&["{b}"]));
    assert_eq!(filltext("{b}{a}", &dic), strings(&["Q{b}"]));
}

#[test]
fn later_key_is_replaced_in_every_candidate() {
    let mut dic = Dictionary::new();
    dic.insert("a".to_string(), Text::single("{b}"));
    dic.insert("b".to_string(), Text::single("Q"));
    assert_eq!(filltext("{a}{b}", &dic), strings(&["QQ"]));
}

#[test]
fn keys_are_words_of_any_script() {
    let mut dic = Dictionary::new();
    dic.insert("名前".to_string(), Text::single("太郎"));
    dic.insert("a_1".to_string(), Text::single("one"));
    dic.insert("É".to_string(), Text::single("e"));
    assert_eq!(filltext("{名前}さん", &dic), strings(&["太郎さん"]));
    assert_eq!(filltext("{a_1}/{É}", &dic), strings(&["one/e"]));
    assert_eq!(filltext("{a.1}{a 1}{a+1}", &dic), strings(&["{a.1}{a 1}{a+1}"]));
}

#[test]
fn distinct_keys_in_order_of_first_appearance() {
    assert_eq!(keys_of("{b} {a} {b} {c} {a}"), strings(&["b", "a", "c"]));
    assert_eq!(keys_of("nothing here"), Vec::<String>::new());
    assert_eq!(keys_of("{x}{y"), strings(&["x"]));
    assert_eq!(keys_of("{0}{_}{Az9}"), strings(&["0", "_", "Az9"]));
}

#[test]
fn keys_agree_with_the_pattern() {
    let pattern = regex::Regex::new(r"\{(\w+)\}").unwrap();
    let lines = [
        "",
        "plain",
        "{a}",
        "{a}{b}{a}",
        "{{a}}",
        "{a{b}c}",
        "{}{ }{a b}{ab}",
        "x{名前}y{é}{a-b}{a_b}",
        "{a}}{b",
        "}{a}{",
        "{１２}{٣}{a\u{200d}b}",
        "{a\u{301}}",
    ];
    for line in lines {
        let mut expected: Vec<String> = Vec::new();
        for found in pattern.captures_iter(line) {
            let key = found[1].to_string();
            if !expected.contains(&key) {
                expected.push(key);
            }
        }
        assert_eq!(keys_of(line), expected, "line {:?}", line);
    }
}

#[test]
fn replace_vecstr_replaces_in_every_string() {
    let t = strings(&["a{k}b", "{k}{k}", "none", "{kk}"]);
    assert_eq!(replace_vecstr("k", "-", &t), strings(&["a-b", "--", "none", "{kk}"]));
    assert_eq!(replace_vecstr("k", "", &t), strings(&["ab", "", "none", "{kk}"]));
    assert_eq!(replace_vecstr("k", "{k}", &t), strings(&["a{k}b", "{k}{k}", "none", "{kk}"]));
    assert_eq!(replace_vecstr("k", "x", &[]), Vec::<String>::new());
}

#[test]
fn replace_chars_takes_occurrences_from_the_left() {
    let replaced = replace_chars(&to_chars("aaa"), &to_chars("aa"), &to_chars("b"));
    assert_eq!(from_chars(&replaced), "ba");
    let replaced = replace_chars(&to_chars("abcabc"), &to_chars("bc"), &to_chars("bcbc"));
    assert_eq!(from_chars(&replaced), "abcbcabcbc");
    let replaced = replace_chars(&to_chars("ab"), &to_chars("abc"), &to_chars("x"));
    assert_eq!(from_chars(&replaced), "ab");
    for text in ["", "abab", "xxabxx", "日本語の本"] {
        let std = text.replace("ab", "<>").replace("本", "book");
        let step = replace_chars(&to_chars(text), &to_chars("ab"), &to_chars("<>"));
        let ours = replace_chars(&step, &to_chars("本"), &to_chars("book"));
        assert_eq!(from_chars(&ours), std);
    }
}

#[test]
fn chars_round_trip() {
    for text in ["", "a", "héllo", "日本語", "{a}\n"] {
        let chars = to_chars(text);
        assert_eq!(chars, text.chars().collect::<Vec<char>>());
        assert_eq!(from_chars(&chars), text);
    }
}

#[test]
fn dictionary_insert_and_get() {
    let mut dic = Dictionary::new();
    assert!(dic.get("a").is_none());
    dic.insert("a".to_string(), Text::single("1"));
    dic.insert("a".to_string(), Text::Multi(strings(&["2", "3"])));
    match dic.get("a") {
        Some(Text::Multi(list)) => assert_eq!(list, &strings(&["2", "3"])),
        other => panic!("unexpected value {:?}", other),
    }
    assert!(dic.get("b").is_none());
}

#[test]
fn single_holds_its_string() {
    match Text::single("abc") {
        Text::Single(s) => assert_eq!(s, "abc"),
        other => panic!("unexpected value {:?}", other),
    }
}

#[test]
fn text_lines_resolve_in_declared_order() {
    let mut dic = Dictionary::new();
    dic.insert("a".to_string(), Text::Multi(strings(&["X", "Y"])));
    dic.insert("b".to_string(), Text::single("B"));
    let text = Text::Multi(strings(&["1 {a}", "2 {b}", "3", "4 {a}{c}"]));
    assert_eq!(
        resolve_text(&text, &dic),
        strings(&["1 X", "1 Y", "2 B", "3", "4 X", "4 Y"])
    );
    assert_eq!(resolve_text(&Text::single("{a}"), &dic), strings(&["X", "Y"]));
    assert_eq!(resolve_text(&Text::Multi(Vec::new()), &dic), Vec::<String>::new());
}

#[test]
fn classes_agree_with_the_word_class() {
    let word = regex::Regex::new(r"^\w$").unwrap();
    let sample = "aZ09_{}-. \téßπж中あ한٣१\u{301}\u{200d}\u{200b}€™½²ªµ";
    let chars = to_chars(sample);
    let classes = classify(&chars);
    assert_eq!(classes.len(), chars.len());
    for (c, class) in chars.iter().zip(classes.iter()) {
        assert_eq!(*class, word.is_match(&c.to_string()), "character {:?}", c);
    }
    assert_eq!(classify(&to_chars("a{_}")), vec![true, false, true, false]);
}

#[test]
fn scan_goes_by_the_given_classes() {
    let line = to_chars("a{b}{c d}{e}");
    let all = vec![true; line.len()];
    assert_eq!(scan_keys(&line, &all), Vec::<Vec<char>>::new());
    let none = vec![false; line.len()];
    assert_eq!(scan_keys(&line, &none), Vec::<Vec<char>>::new());
    let letters: Vec<bool> = line.iter().map(|c| c.is_ascii_lowercase()).collect();
    assert_eq!(scan_keys(&line, &letters), vec![vec!['b'], vec!['e']]);
    let with_space: Vec<bool> = line.iter().map(|c| *c != '{' && *c != '}').collect();
    assert_eq!(scan_keys(&line, &with_space), vec![vec!['b'], vec!['c', ' ', 'd'], vec!['e']]);
    assert_eq!(scan_keys(&line, &letters[..5].to_vec()), vec![vec!['b']]);
    assert_eq!(scan_keys(&line, &Vec::new()), Vec::<Vec<char>>::new());
}

#[test]
fn word_run_stops_at_the_first_other_character() {
    let word = vec![true, true, false, true];
    assert_eq!(word_run_len(&word, 0), 2);
    assert_eq!(word_run_len(&word, 1), 1);
    assert_eq!(word_run_len(&word, 2), 0);
    assert_eq!(word_run_len(&word, 3), 1);
    assert_eq!(word_run_len(&word, 4), 0);
    assert_eq!(word_run_len(&word, 9), 0);
}

#[test]
fn has_key_compares_whole_keys() {
    let keys = vec![to_chars("ab"), to_chars("c")];
    assert!(has_key(&keys, &to_chars("ab")));
    assert!(has_key(&keys, &to_chars("c")));
    assert!(!has_key(&keys, &to_chars("a")));
    assert!(!has_key(&keys, &to_chars("abc")));
    assert!(!has_key(&keys, &to_chars("")));
    assert!(!has_key(&Vec::new(), &to_chars("")));
}

#[test]
fn expand_keys_goes_by_the_given_keys() {
    let mut dic = Dictionary::new();
    dic.insert("a".to_string(), Text::Multi(strings(&["X", "Y"])));
    dic.insert("b".to_string(), Text::Multi(strings(&["1", "2"])));
    let line = "{a}{b}{c}";
    assert_eq!(expand_keys(line, &[], &dic), strings(&[line]));
    assert_eq!(expand_keys(line, &strings(&["b"]), &dic), strings(&["{a}1{c}", "{a}2{c}"]));
    assert_eq!(
        expand_keys(line, &strings(&["b", "a"]), &dic),
        strings(&["X1{c}", "Y1{c}", "X2{c}", "Y2{c}"])
    );
    assert_eq!(
        expand_keys(line, &strings(&["a", "b", "c"]), &dic),
        strings(&["X1", "X2", "Y1", "Y2"])
    );
    assert_eq!(
        expand_keys(line, &strings(&["a", "a"]), &dic),
        strings(&["X{b}{c}", "X{b}{c}", "Y{b}{c}", "Y{b}{c}"])
    );
    assert_eq!(expand_keys("hi {x}", &strings(&["x"]), &Dictionary::new()), strings(&["hi "]));
}

#[test]
fn strings_from_character_vectors() {
    assert_eq!(strings_from(&vec![to_chars("ab"), to_chars(""), to_chars("日本")]), strings(&["ab", "", "日本"]));
    assert_eq!(strings_from(&Vec::new()), Vec::<String>::new());
}
