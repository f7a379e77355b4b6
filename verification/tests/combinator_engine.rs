use parser_combinators::{
    identifier, left, match_literal, one_or_more, pair, repetition, right, the_letter_a,
    zero_or_more, Element, Parser,
};

#[test]
fn it_works() {
    assert_eq!(2 + 2, 4);
}

#[test]
fn parse_a() {
    let parse_ahoj = match_literal("ahoj");
    assert_eq!(parse_ahoj.parse("ahoj"), Ok(("", ())));
    assert_eq!(parse_ahoj.parse("ahoj bobe"), Ok((" bobe", ())));

    assert_eq!(parse_ahoj.parse("čau"), Err("čau"));
}

#[test]
fn parse_identifier() {
    assert_eq!(identifier("id-enti-ffier"), Ok(("", "id-enti-ffier".into())));
    assert_eq!(identifier("r2-d2 and co"), Ok((" and co", "r2-d2".into())));
    assert_eq!(identifier("-not at all"), Err("-not at all"));
}

#[test]
fn pair_combinator() {
    let tag_opener = pair(match_literal("<"), identifier);
    assert_eq!(
        tag_opener.parse("<my-first-element/>"),
        Ok(("/>", ((), "my-first-element".to_string())))
    );
    assert_eq!(tag_opener.parse("oops"), Err("oops"));
    assert_eq!(tag_opener.parse("<!oops"), Err("<!oops"));
}

#[test]
fn right_combinator() {
    let tag_opener = right(match_literal("<"), identifier);
    assert_eq!(
        tag_opener.parse("<my-first-element/>"),
        Ok(("/>", "my-first-element".to_string()))
    );
    assert_eq!(tag_opener.parse("oops"), Err("oops"));
    assert_eq!(tag_opener.parse("<!oops"), Err("<!oops"));
}

#[test]
fn one_or_more_combinator() {
    let parser = one_or_more(match_literal("ha"));
    assert_eq!(parser.parse("hahaha"), Ok(("", vec![(), (), ()])));
    assert_eq!(parser.parse("hahax"), Ok(("x", vec![(), ()])));
    assert_eq!(parser.parse("ahah"), Err("ahah"));
    assert_eq!(parser.parse(""), Err(""));
}

#[test]
fn zero_or_more_combinator() {
    let parser = zero_or_more(match_literal("ha"));
    assert_eq!(parser.parse("hahaha"), Ok(("", vec![(), (), ()])));
    assert_eq!(parser.parse("ahah"), Ok(("ahah", vec![])));
    assert_eq!(parser.parse(""), Ok(("", vec![])));
}

#[test]
fn the_letter_a_takes_one_a() {
    assert_eq!(the_letter_a("abc"), Ok(("bc", ())));
    assert_eq!(the_letter_a("aa"), Ok(("a", ())));
    assert_eq!(the_letter_a("a"), Ok(("", ())));
    assert_eq!(the_letter_a("bca"), Err("bca"));
    assert_eq!(the_letter_a(""), Err(""));
    assert_eq!(the_letter_a("ábc"), Err("ábc"));
}

#[test]
fn the_letter_a_is_a_parser() {
    let parser = one_or_more(the_letter_a);
    assert_eq!(parser.parse("aaab"), Ok(("b", vec![(), (), ()])));
    assert_eq!(parser.parse("baaa"), Err("baaa"));
}

#[test]
fn literal_strips_its_text_once() {
    let parser = match_literal("ha");
    assert_eq!(parser.parse("haha"), Ok(("ha", ())));
    assert_eq!(parser.parse("h"), Err("h"));
    assert_eq!(parser.parse(""), Err(""));
    assert_eq!(parser.parse("ah"), Err("ah"));
}

#[test]
fn literal_in_another_alphabet() {
    let parser = match_literal("čau");
    assert_eq!(parser.parse("čau světe"), Ok((" světe", ())));
    assert_eq!(parser.parse("cau"), Err("cau"));
    assert_eq!(parser.parse("č"), Err("č"));
    let ascii = match_literal("c");
    assert_eq!(ascii.parse("čau"), Err("čau"));
}

#[test]
fn literal_succeeds_exactly_on_its_prefix() {
    let inputs = ["", "a", "ab", "abc", "abab", "ba", "xab", "ab ab"];
    let parser = match_literal("ab");
    for input in inputs {
        match parser.parse(input) {
            Ok((rest, ())) => {
                assert!(input.starts_with("ab"));
                assert_eq!(format!("ab{}", rest), input);
            }
            Err(back) => {
                assert!(!input.starts_with("ab"));
                assert_eq!(back, input);
            }
        }
    }
}

#[test]
fn identifier_needs_an_alphabetic_start() {
    assert_eq!(identifier("2fast"), Err("2fast"));
    assert_eq!(identifier(""), Err(""));
    assert_eq!(identifier(" lead"), Err(" lead"));
    assert_eq!(identifier("_x"), Err("_x"));
    assert_eq!(identifier("-"), Err("-"));
}

#[test]
fn identifier_takes_the_longest_run() {
    assert_eq!(identifier("a"), Ok(("", "a".to_string())));
    assert_eq!(identifier("a-"), Ok(("", "a-".to_string())));
    assert_eq!(identifier("a1_b"), Ok(("_b", "a1".to_string())));
    assert_eq!(identifier("abc/>"), Ok(("/>", "abc".to_string())));
    assert_eq!(identifier("x--9 y"), Ok((" y", "x--9".to_string())));
}

#[test]
fn identifier_in_another_alphabet() {
    assert_eq!(identifier("čau-7 x"), Ok((" x", "čau-7".to_string())));
    assert_eq!(identifier("žluťoučký"), Ok(("", "žluťoučký".to_string())));
    assert_eq!(identifier("a\u{663}!"), Ok(("!", "a\u{663}".to_string())));
}

#[test]
fn pair_reports_the_first_failure_as_it_came() {
    let parser = pair(identifier, match_literal("="));
    assert_eq!(parser.parse("=x"), Err("=x"));
    assert_eq!(parser.parse("key=value"), Ok(("value", ("key".to_string(), ()))));
    assert_eq!(parser.parse("key value"), Err("key value"));
    assert_eq!(parser.parse(""), Err(""));
}

#[test]
fn left_combinator() {
    let parser = left(identifier, match_literal(";"));
    assert_eq!(parser.parse("stmt;next"), Ok(("next", "stmt".to_string())));
    assert_eq!(parser.parse("stmt next"), Err("stmt next"));
    assert_eq!(parser.parse(";"), Err(";"));
}

#[test]
fn left_and_right_keep_one_side_of_pair() {
    let inputs = ["<tag>", "<", "tag", "<1", "<a-b c", ""];
    for input in inputs {
        let both = pair(match_literal("<"), identifier).parse(input);
        let first = left(match_literal("<"), identifier).parse(input);
        let second = right(match_literal("<"), identifier).parse(input);
        match both {
            Ok((rest, (a, b))) => {
                assert_eq!(first, Ok((rest, a)));
                assert_eq!(second, Ok((rest, b)));
            }
            Err(back) => {
                assert_eq!(back, input);
                assert_eq!(first, Err(input));
                assert_eq!(second, Err(input));
            }
        }
    }
}

#[test]
fn map_changes_the_value_only() {
    let parser = parser_combinators::combinators::map(identifier, |name: String| name.len());
    assert_eq!(parser.parse("hello world"), Ok((" world", 5)));
    assert_eq!(parser.parse("1st"), Err("1st"));
    let counted = parser_combinators::combinators::map(
        zero_or_more(match_literal("ha")),
        |items: Vec<()>| items.len(),
    );
    assert_eq!(counted.parse("hahaha!"), Ok(("!", 3)));
    assert_eq!(counted.parse("!"), Ok(("!", 0)));
}

#[test]
fn map_with_identity_is_the_parser() {
    let inputs = ["", "abc", "r2-d2 and co", "-no", "x", "9"];
    for input in inputs {
        let mapped = parser_combinators::combinators::map(identifier, |name: String| name);
        assert_eq!(mapped.parse(input), identifier(input));
    }
    for input in ["", "ha", "haha", "ah"] {
        let mapped = parser_combinators::combinators::map(match_literal("ha"), |unit: ()| unit);
        assert_eq!(mapped.parse(input), match_literal("ha").parse(input));
    }
}

#[test]
fn rest_is_a_suffix_of_the_input() {
    let inputs = ["", "<a>", "<abc def", "<<", "<é-1>rest", "plain"];
    for input in inputs {
        if let Ok((rest, _)) = pair(match_literal("<"), identifier).parse(input) {
            assert!(input.ends_with(rest));
            assert!(rest.len() <= input.len());
        }
        if let Ok((rest, _)) = zero_or_more(match_literal("<")).parse(input) {
            assert!(input.ends_with(rest));
            assert!(rest.len() <= input.len());
        }
        if let Ok((rest, _)) = identifier(input) {
            assert!(input.ends_with(rest));
            assert!(rest.len() < input.len());
        }
    }
}

#[test]
fn zero_or_more_never_fails() {
    let inputs = ["", "x", "ab", "abab", "ababx", "ba", "čau"];
    for input in inputs {
        assert!(zero_or_more(match_literal("ab")).parse(input).is_ok());
        assert!(zero_or_more(identifier).parse(input).is_ok());
    }
}

#[test]
fn one_or_more_fails_where_zero_or_more_is_empty() {
    let inputs = ["", "x", "ab", "abab", "ababx", "ba", "a", "čau"];
    for input in inputs {
        let zero = zero_or_more(match_literal("ab")).parse(input);
        let one = one_or_more(match_literal("ab")).parse(input);
        match zero {
            Ok((rest, items)) => {
                if items.is_empty() {
                    assert_eq!(rest, input);
                    assert_eq!(one, Err(input));
                } else {
                    assert_eq!(one, Ok((rest, items)));
                }
            }
            Err(_) => panic!("a repetition without bounds failed"),
        }
    }
}

#[test]
fn repetition_collects_in_order() {
    let words = zero_or_more(left(identifier, match_literal(",")));
    assert_eq!(
        words.parse("a,bb,ccc,d"),
        Ok(("d", vec!["a".to_string(), "bb".to_string(), "ccc".to_string()]))
    );
    assert_eq!(words.parse(",a"), Ok((",a", vec![])));
}

#[test]
fn repetition_checks_its_bounds() {
    let two_to_three = repetition(match_literal("ha"), 2, Some(3));
    assert_eq!(two_to_three.parse("ha!"), Err("ha!"));
    assert_eq!(two_to_three.parse("haha!"), Ok(("!", vec![(), ()])));
    assert_eq!(two_to_three.parse("hahaha"), Ok(("", vec![(), (), ()])));
    assert_eq!(two_to_three.parse("hahahaha!"), Err("hahahaha!"));
    assert_eq!(two_to_three.parse(""), Err(""));
    let none = repetition(match_literal("ha"), 0, Some(0));
    assert_eq!(none.parse("x"), Ok(("x", vec![])));
    assert_eq!(none.parse("hax"), Err("hax"));
    let open = repetition(match_literal("ha"), 3, None);
    assert_eq!(open.parse("haha"), Err("haha"));
    assert_eq!(open.parse("hahahahaha"), Ok(("", vec![(), (), (), (), ()])));
}

#[test]
fn repetition_agrees_with_its_specializations() {
    for input in ["", "ha", "hahah", "x"] {
        assert_eq!(
            repetition(match_literal("ha"), 1, None).parse(input),
            one_or_more(match_literal("ha")).parse(input)
        );
        assert_eq!(
            repetition(match_literal("ha"), 0, None).parse(input),
            zero_or_more(match_literal("ha")).parse(input)
        );
    }
}

#[test]
fn parsing_twice_gives_the_same() {
    let parser = pair(match_literal("<"), one_or_more(left(identifier, match_literal(" "))));
    for input in ["<a b c >", "<a", "", "<a b"] {
        assert_eq!(parser.parse(input), parser.parse(input));
    }
    assert_eq!(
        parser.parse("<a b c>"),
        Ok(("c>", ((), vec!["a".to_string(), "b".to_string()])))
    );
}

#[test]
fn closures_are_parsers() {
    let digit = |input: &'static str| match input.chars().next() {
        Some(c) if c.is_ascii_digit() => Ok((&input[1..], c)),
        _ => Err(input),
    };
    assert_eq!(digit.parse("7up"), Ok(("up", '7')));
    let digits = one_or_more(digit);
    assert_eq!(digits.parse("123abc"), Ok(("abc", vec!['1', '2', '3'])));
    assert_eq!(digits.parse("abc"), Err("abc"));
}

#[test]
fn element_holds_a_parsed_tag() {
    let (rest, name) = right(match_literal("<"), identifier).parse("<single-element/>").unwrap();
    let element = Element { name, attributes: vec![], children: vec![] };
    assert_eq!(rest, "/>");
    assert_eq!(
        element,
        Element { name: "single-element".to_string(), attributes: vec![], children: vec![] }
    );
}
