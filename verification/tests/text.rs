use manga_server::order::{sort_names, sort_numbers, str_le};
use manga_server::text::{
    chars_of, decimal_chars, extension_chars, find_chars, padded3_string, parse_usize,
    path_components, slashed_chars, split_chars, str_eq, string_of, trim_chars,
};

fn cs(s: &str) -> Vec<char> {
    s.chars().collect()
}

fn st(v: &Vec<char>) -> String {
    v.iter().collect()
}

#[test]
fn chars_and_strings_convert_both_ways() {
    assert_eq!(chars_of("a漫b"), vec!['a', '漫', 'b']);
    assert_eq!(string_of(&vec!['x', 'é', '1']), "xé1");
    assert_eq!(chars_of(""), Vec::<char>::new());
}

#[test]
fn decimal_writes_without_leading_zeros() {
    assert_eq!(st(&decimal_chars(0)), "0");
    assert_eq!(st(&decimal_chars(9)), "9");
    assert_eq!(st(&decimal_chars(10)), "10");
    assert_eq!(st(&decimal_chars(120_034)), "120034");
    assert_eq!(st(&decimal_chars(usize::MAX)), usize::MAX.to_string());
}

#[test]
fn parse_reads_what_decimal_writes() {
    for n in [0usize, 1, 9, 10, 99, 100, 65_535, 1_827_529, usize::MAX] {
        assert_eq!(parse_usize(&decimal_chars(n)), Some(n));
    }
}

#[test]
fn parse_accepts_a_plus_and_leading_zeros() {
    assert_eq!(parse_usize(&cs("+42")), Some(42));
    assert_eq!(parse_usize(&cs("007")), Some(7));
}

#[test]
fn parse_refuses_what_is_no_number() {
    assert_eq!(parse_usize(&cs("")), None);
    assert_eq!(parse_usize(&cs("+")), None);
    assert_eq!(parse_usize(&cs("-1")), None);
    assert_eq!(parse_usize(&cs("12a")), None);
    assert_eq!(parse_usize(&cs(" 12")), None);
    assert_eq!(parse_usize(&cs("1_2")), None);
    assert_eq!(parse_usize(&cs("++1")), None);
}

#[test]
fn parse_refuses_what_does_not_fit() {
    let mut big = usize::MAX.to_string();
    big.push('0');
    assert_eq!(parse_usize(&cs(&big)), None);
    assert_eq!(parse_usize(&cs("340282366920938463463374607431768211456")), None);
}

#[test]
fn split_keeps_empty_pieces() {
    let pieces: Vec<String> = split_chars(&cs("a__b_"), '_').iter().map(st).collect();
    assert_eq!(pieces, vec!["a", "", "b", ""]);
    let one: Vec<String> = split_chars(&cs("abc"), '_').iter().map(st).collect();
    assert_eq!(one, vec!["abc"]);
    let none: Vec<String> = split_chars(&cs(""), '_').iter().map(st).collect();
    assert_eq!(none, vec![""]);
}

#[test]
fn split_agrees_with_the_standard_split() {
    for s in ["/manga/1/2/3", "a.b.c", "..", "no separator", "/", "x/"] {
        for sep in ['/', '.'] {
            let mine: Vec<String> = split_chars(&cs(s), sep).iter().map(st).collect();
            let theirs: Vec<String> = s.split(sep).map(|p| p.to_string()).collect();
            assert_eq!(mine, theirs);
        }
    }
}

#[test]
fn slashed_turns_backslashes() {
    assert_eq!(st(&slashed_chars(&cs(r"D:\aaa\b/c"))), "D:/aaa/b/c");
}

#[test]
fn components_cut_at_both_separators() {
    let parts: Vec<String> = path_components(r"root\item/chapter\001.jpg").iter().map(st).collect();
    assert_eq!(parts, vec!["root", "item", "chapter", "001.jpg"]);
}

#[test]
fn extension_is_what_follows_the_last_dot() {
    assert_eq!(st(&extension_chars("a.b.png")), "png");
    assert_eq!(st(&extension_chars("png")), "png");
    assert_eq!(st(&extension_chars("a.")), "");
}

#[test]
fn trim_drops_white_space_at_both_ends_only() {
    assert_eq!(st(&trim_chars(&cs("  a b \r\n"))), "a b");
    assert_eq!(st(&trim_chars(&cs("\u{3000}x\u{a0}"))), "x");
    assert_eq!(st(&trim_chars(&cs(" \t "))), "");
    assert_eq!(st(&trim_chars(&cs("x"))), "x");
}

#[test]
fn trim_agrees_with_the_standard_trim() {
    for s in ["", " ", "a", " a", "a ", "\u{2003}a b\u{2028}", "\u{85}\u{1680}z\u{205f}\u{202f}", "\u{200b}a"] {
        assert_eq!(st(&trim_chars(&cs(s))), s.trim());
    }
}

#[test]
fn find_gives_the_first_place() {
    assert_eq!(find_chars(&cs("12==>a==>b"), &cs("==>")), Some(2));
    assert_eq!(find_chars(&cs("==>"), &cs("==>")), Some(0));
    assert_eq!(find_chars(&cs("=>=>"), &cs("==>")), None);
    assert_eq!(find_chars(&cs("ab"), &cs("abc")), None);
    assert_eq!(find_chars(&cs("ab"), &cs("")), Some(0));
    assert_eq!(find_chars(&cs(""), &cs("")), Some(0));
}

#[test]
fn padded3_fills_up_to_three_digits() {
    assert_eq!(padded3_string(1), "001");
    assert_eq!(padded3_string(12), "012");
    assert_eq!(padded3_string(123), "123");
    assert_eq!(padded3_string(1234), "1234");
    assert_eq!(padded3_string(0), "000");
}

#[test]
fn str_eq_compares_all_characters() {
    assert!(str_eq("", ""));
    assert!(str_eq("single", "single"));
    assert!(!str_eq("single", "singl"));
    assert!(!str_eq("singl", "single"));
    assert!(!str_eq("a", "b"));
}

#[test]
fn str_le_is_the_order_of_strings() {
    let words = ["", "a", "ab", "b", "B", "10", "9", "第10话", "第9话", "é", "z"];
    for a in words {
        for b in words {
            assert_eq!(str_le(a, b), a <= b);
        }
    }
}

#[test]
fn sort_numbers_sorts_ascending() {
    let mut v = vec![5usize, 1, 4, 1, 0, 9, 3];
    sort_numbers(&mut v);
    assert_eq!(v, vec![0, 1, 1, 3, 4, 5, 9]);
    let mut e: Vec<usize> = vec![];
    sort_numbers(&mut e);
    assert_eq!(e, Vec::<usize>::new());
}

#[test]
fn sort_names_sorts_lexically() {
    let mut v: Vec<String> = ["b", "a10", "a9", "", "a", "B"].iter().map(|s| s.to_string()).collect();
    let mut w = v.clone();
    sort_names(&mut v);
    w.sort();
    assert_eq!(v, w);
    assert_eq!(v, vec!["", "B", "a", "a10", "a9", "b"]);
}
