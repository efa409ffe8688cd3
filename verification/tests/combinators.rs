use parsec::{item, result, zero, Parser};

#[test]
fn seq_applies_one_parser_after_another() {
    let two_items = item().seq(item());
    assert_eq!(two_items.parse("brol"), [(('b', 'r'), "ol")]);
}

#[test]
fn bind_first_test() {
    let two_items = item().bind(Box::new(|_v| item()));
    assert_eq!(two_items.parse("brol"), [('r', "ol")]);
}

/// Two ways: take nothing, or take one character.
fn none_or_one(inp: &str) -> Vec<(u8, &str)> {
    let mut chars = inp.chars();
    match chars.next() {
        Some(_) => vec![(0, inp), (1, chars.as_str())],
        None => vec![(0, inp)],
    }
}

fn ambiguous() -> Parser<u8> {
    Parser::new(Box::new(none_or_one))
}

/// The parser picked for a value: fail on 0, one character on 1.
fn pick(v: u8) -> Parser<char> {
    if v == 0 {
        zero()
    } else {
        item()
    }
}

#[test]
fn seq_fails_when_the_first_parser_fails() {
    assert_eq!(zero::<i32>().seq(item()).parse("brol"), vec![]);
    assert_eq!(item().seq(item()).parse(""), vec![]);
}

#[test]
fn seq_fails_when_the_second_parser_fails_on_every_remainder() {
    assert_eq!(item().seq(zero::<i32>()).parse("brol"), vec![]);
    assert_eq!(item().seq(item()).parse("b"), vec![]);
    assert_eq!(ambiguous().seq(zero::<char>()).parse("ab"), vec![]);
}

#[test]
fn seq_consumes_nothing_with_result_on_both_sides() {
    assert_eq!(result(1).seq(result('x')).parse("brol"), vec![((1, 'x'), "brol")]);
}

#[test]
fn seq_gives_the_cross_product_with_the_first_parser_outermost() {
    assert_eq!(
        ambiguous().seq(ambiguous()).parse("ab"),
        vec![((0, 0), "ab"), ((0, 1), "b"), ((1, 0), "b"), ((1, 1), "")]
    );
    assert_eq!(
        ambiguous().seq(ambiguous()).parse("a"),
        vec![((0, 0), "a"), ((0, 1), ""), ((1, 0), "")]
    );
    assert_eq!(ambiguous().seq(ambiguous()).parse(""), vec![((0, 0), "")]);
}

#[test]
fn seq_keeps_branches_where_only_some_remainders_fail() {
    assert_eq!(ambiguous().seq(item()).parse("a"), vec![((0, 'a'), "")]);
    assert_eq!(ambiguous().seq(item()).parse("ab"), vec![((0, 'a'), "b"), ((1, 'b'), "")]);
}

#[test]
fn seq_of_three_nests_to_the_left() {
    assert_eq!(item().seq(item()).seq(item()).parse("brol"), vec![((('b', 'r'), 'o'), "l")]);
}

#[test]
fn seq_over_multi_byte_characters() {
    assert_eq!(item().seq(item()).parse("↓é!"), vec![(('↓', 'é'), "!")]);
}

#[test]
fn bind_fails_when_the_first_parser_fails() {
    assert_eq!(zero::<char>().bind(Box::new(|_v| item())).parse("brol"), vec![]);
    assert_eq!(item().bind(Box::new(|_v| item())).parse(""), vec![]);
}

#[test]
fn bind_fails_when_every_picked_parser_fails() {
    assert_eq!(item().bind(Box::new(|_v| zero::<i32>())).parse("brol"), vec![]);
    assert_eq!(item().bind(Box::new(|_v| item())).parse("b"), vec![]);
}

#[test]
fn bind_picks_the_next_parser_from_the_value() {
    let p = item().bind(Box::new(|c| if c == 'a' { item() } else { result('?') }));
    assert_eq!(p.parse("abc"), vec![('b', "c")]);
    let p = item().bind(Box::new(|c| if c == 'a' { item() } else { result('?') }));
    assert_eq!(p.parse("xbc"), vec![('?', "bc")]);
}

#[test]
fn bind_can_capture_a_value() {
    let base = 10u32;
    let p = item().bind(Box::new(move |c: char| result(base + c as u32)));
    assert_eq!(p.parse("A"), vec![(75, "")]);
}

#[test]
fn bind_concatenates_what_the_picked_parsers_give_in_order() {
    let inputs = ["", "a", "ab", "↓brol"];
    for s in inputs {
        let mut expected: Vec<(char, &str)> = Vec::new();
        for (v, rest) in ambiguous().parse(s) {
            expected.extend(pick(v).parse(rest));
        }
        assert_eq!(ambiguous().bind(Box::new(pick)).parse(s), expected);
    }
    assert_eq!(ambiguous().bind(Box::new(pick)).parse("ab"), vec![('b', "")]);
}

#[test]
fn bind_keeps_every_alternative_of_both_sides() {
    let p = ambiguous().bind(Box::new(|v: u8| ambiguous().bind(Box::new(move |w: u8| result(10 * v + w)))));
    assert_eq!(p.parse("ab"), vec![(0, "ab"), (1, "b"), (10, "b"), (11, "")]);
}

#[test]
fn binding_result_to_a_function_is_calling_it() {
    for s in ["", "a", "ab", "↓brol"] {
        for v in [0u8, 1] {
            assert_eq!(result(v).bind(Box::new(pick)).parse(s), pick(v).parse(s));
        }
        assert_eq!(result(9u8).bind(Box::new(|_v| ambiguous())).parse(s), ambiguous().parse(s));
    }
    assert_eq!(result(1u8).bind(Box::new(pick)).parse("ab"), vec![('a', "b")]);
}

#[test]
fn binding_a_parser_to_result_is_the_parser() {
    for s in ["", "a", "ab", "↓brol"] {
        assert_eq!(ambiguous().bind(Box::new(|v| result(v))).parse(s), ambiguous().parse(s));
        assert_eq!(item().bind(Box::new(|v| result(v))).parse(s), item().parse(s));
    }
}

#[test]
fn bind_is_associative() {
    for s in ["", "a", "ab", "abc", "↓brol"] {
        let left = ambiguous()
            .bind(Box::new(|v: u8| if v == 0 { ambiguous() } else { result(5u8) }))
            .bind(Box::new(pick));
        let right = ambiguous().bind(Box::new(|v: u8| {
            (if v == 0 { ambiguous() } else { result(5u8) }).bind(Box::new(pick))
        }));
        assert_eq!(left.parse(s), right.parse(s));
    }
}

#[test]
fn seq_is_bind_twice_then_result() {
    for s in ["", "a", "ab", "abc", "↓brol"] {
        let by_bind = ambiguous()
            .bind(Box::new(|v: u8| item().bind(Box::new(move |w: char| result((v, w))))));
        assert_eq!(ambiguous().seq(item()).parse(s), by_bind.parse(s));
    }
}

#[test]
fn every_remainder_is_a_suffix_of_the_input() {
    for s in ["", "a", "ab", "abc", "↓brol", "日本語"] {
        for (_, rest) in ambiguous().seq(ambiguous()).parse(s) {
            assert!(s.ends_with(rest));
        }
        for (_, rest) in ambiguous().bind(Box::new(pick)).parse(s) {
            assert!(s.ends_with(rest));
        }
        for (_, rest) in item().seq(item()).parse(s) {
            assert!(s.ends_with(rest));
        }
    }
}

#[test]
fn combined_parsers_give_the_same_outcomes_each_time() {
    for s in ["", "a", "ab", "↓brol"] {
        assert_eq!(ambiguous().seq(item()).parse(s), ambiguous().seq(item()).parse(s));
        assert_eq!(
            ambiguous().bind(Box::new(pick)).parse(s),
            ambiguous().bind(Box::new(pick)).parse(s)
        );
    }
}
