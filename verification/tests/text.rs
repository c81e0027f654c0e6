use multiversion::emit::quote_text;
use multiversion::order::{canonical_texts, compare_text, insert_text, rank_of, Comparison};
use multiversion::text::{chars_of, join_text, remove_char, split_text, text_eq};

fn strings(items: &[&str]) -> Vec<String> {
    items.iter().map(|s| s.to_string()).collect()
}

#[test]
fn the_characters_of_a_text() {
    assert_eq!(chars_of(""), Vec::<char>::new());
    assert_eq!(chars_of("a\u{e9}+"), vec!['a', '\u{e9}', '+']);
}

#[test]
fn texts_are_equal_by_their_characters() {
    assert!(text_eq("", ""));
    assert!(text_eq("avx", "avx"));
    assert!(!text_eq("avx", "avx2"));
    assert!(!text_eq("avx2", "avx"));
    assert!(!text_eq("avx", "avy"));
}

#[test]
fn splitting_keeps_empty_pieces() {
    assert_eq!(split_text("", '+'), strings(&[""]));
    assert_eq!(split_text("x86", '+'), strings(&["x86"]));
    assert_eq!(split_text("x86+avx+sse", '+'), strings(&["x86", "avx", "sse"]));
    assert_eq!(split_text("+x86", '+'), strings(&["", "x86"]));
    assert_eq!(split_text("x86+", '+'), strings(&["x86", ""]));
    assert_eq!(split_text("a++b", '+'), strings(&["a", "", "b"]));
    assert_eq!(split_text("+", '+'), strings(&["", ""]));
    assert_eq!(split_text("\u{e9}|\u{fc}", '|'), strings(&["\u{e9}", "\u{fc}"]));
}

#[test]
fn splitting_agrees_with_the_standard_library() {
    for text in ["", "+", "a+b", "++", "x86+avx+", "[a|b]+c", "\u{e9}+\u{e9}"] {
        let expected: Vec<String> = text.split('+').map(|s| s.to_string()).collect();
        assert_eq!(split_text(text, '+'), expected);
    }
}

#[test]
fn joining_puts_the_separator_between() {
    assert_eq!(join_text(&strings(&[]), "+"), "");
    assert_eq!(join_text(&strings(&["x86"]), "+"), "x86");
    assert_eq!(join_text(&strings(&["x86", "avx", "sse"]), "+"), "x86+avx+sse");
    assert_eq!(join_text(&strings(&["", ""]), ", "), ", ");
    assert_eq!(join_text(&strings(&["a", "b"]), " && "), "a && b");
}

#[test]
fn joining_undoes_splitting() {
    for text in ["", "+", "a+b", "++", "x86+avx+", "[a|b]+c"] {
        assert_eq!(join_text(&split_text(text, '+'), "+"), text);
    }
}

#[test]
fn taking_a_character_out() {
    assert_eq!(remove_char("sse4.2", '.'), "sse42");
    assert_eq!(remove_char("...", '.'), "");
    assert_eq!(remove_char("", '.'), "");
    assert_eq!(remove_char("avx", '.'), "avx");
    assert_eq!(remove_char(".a.b.", '.'), "ab");
}

#[test]
fn the_order_of_texts() {
    assert_eq!(compare_text("", ""), Comparison::Same);
    assert_eq!(compare_text("", "a"), Comparison::Before);
    assert_eq!(compare_text("a", ""), Comparison::After);
    assert_eq!(compare_text("avx", "avx"), Comparison::Same);
    assert_eq!(compare_text("avx", "avx2"), Comparison::Before);
    assert_eq!(compare_text("avx2", "avx"), Comparison::After);
    assert_eq!(compare_text("sse4.2", "xsave"), Comparison::Before);
    assert_eq!(compare_text("b", "ab"), Comparison::After);
    assert_eq!(compare_text("B", "a"), Comparison::Before);
    assert_eq!(compare_text("z", "\u{e9}"), Comparison::Before);
}

#[test]
fn the_order_of_texts_is_that_of_strings() {
    let samples = ["", "a", "ab", "b", "B", "avx", "avx2", "\u{e9}", "~", "sse4.2", "\u{10348}"];
    for a in samples {
        for b in samples {
            let expected = if a < b {
                Comparison::Before
            } else if a == b {
                Comparison::Same
            } else {
                Comparison::After
            };
            assert_eq!(compare_text(a, b), expected);
        }
    }
}

#[test]
fn where_a_text_goes() {
    let list = strings(&["avx", "sse", "xsave"]);
    assert_eq!(rank_of(&list, "a"), 0);
    assert_eq!(rank_of(&list, "avx"), 0);
    assert_eq!(rank_of(&list, "avx2"), 1);
    assert_eq!(rank_of(&list, "sse"), 1);
    assert_eq!(rank_of(&list, "zz"), 3);
    assert_eq!(rank_of(&strings(&[]), "avx"), 0);
}

#[test]
fn inserting_keeps_order_and_uniqueness() {
    let mut list = strings(&[]);
    insert_text(&mut list, "sse".to_string());
    insert_text(&mut list, "avx".to_string());
    insert_text(&mut list, "xsave".to_string());
    insert_text(&mut list, "sse".to_string());
    insert_text(&mut list, "avx2".to_string());
    assert_eq!(list, strings(&["avx", "avx2", "sse", "xsave"]));
}

#[test]
fn the_canonical_form_of_a_list() {
    assert_eq!(canonical_texts(&strings(&[])), strings(&[]));
    assert_eq!(
        canonical_texts(&strings(&["xsave", "sse4.2"])),
        strings(&["sse4.2", "xsave"])
    );
    assert_eq!(
        canonical_texts(&strings(&["b", "a", "b", "c", "a"])),
        strings(&["a", "b", "c"])
    );
    let items = strings(&["q", "", "zz", "q", "a", "\u{e9}", "Z"]);
    let mut expected = items.clone();
    expected.sort_unstable();
    expected.dedup();
    assert_eq!(canonical_texts(&items), expected);
}

#[test]
fn the_canonical_form_ignores_order_and_repetition() {
    let a = canonical_texts(&strings(&["avx", "sse", "xsave"]));
    let b = canonical_texts(&strings(&["xsave", "avx", "sse", "avx", "xsave"]));
    assert_eq!(a, b);
    assert_eq!(canonical_texts(&a), a);
}

#[test]
fn string_literals() {
    assert_eq!(quote_text(""), "\"\"");
    assert_eq!(quote_text("avx"), "\"avx\"");
    assert_eq!(quote_text("a\"b"), "\"a\\\"b\"");
    assert_eq!(quote_text("a\\b"), "\"a\\\\b\"");
    assert_eq!(quote_text("\"\\"), "\"\\\"\\\\\"");
    for text in ["", "avx", "sse4.2", "a\"b", "a\\b", "\\\"", "\"", "\u{e9}\\"] {
        let lit: syn::LitStr = syn::parse_str(&quote_text(text)).unwrap();
        assert_eq!(lit.value(), text);
    }
}
