use parsec::{item, result, zero, Parser};

#[test]
fn result_succeeds_without_consuming_input_string() {
    assert_eq!(result(42).parse("brol"), vec![(42, "brol")]);
}

#[test]
fn zero_always_fails() {
    assert_eq!(zero::<i32>().parse("brol"), vec![]);
}

#[test]
fn item_consumes_the_first_char() {
    assert_eq!(item().parse(""), vec![]);
    assert_eq!(item().parse("a"), vec![('a', "")]);
    assert_eq!(item().parse("↓"), vec![('↓', "")]);
    assert_eq!(item().parse("brol"), vec![('b', "rol")]);
    assert_eq!(item().parse("↓brol"), vec![('↓', "brol")]);
}

#[test]
fn result_on_the_empty_input() {
    assert_eq!(result('x').parse(""), vec![('x', "")]);
}

#[test]
fn result_keeps_value_and_input_for_several_values() {
    for v in [0u8, 1, 7, 255] {
        for s in ["", "a", "brol", "↓brol", "two words"] {
            assert_eq!(result(v).parse(s), vec![(v, s)]);
        }
    }
}

#[test]
fn result_of_a_pair() {
    assert_eq!(result((1, 'c')).parse("rest"), vec![((1, 'c'), "rest")]);
}

#[test]
fn zero_fails_on_every_input() {
    for s in ["", "a", "brol", "↓brol"] {
        assert_eq!(zero::<char>().parse(s), vec![]);
        assert_eq!(zero::<(u8, bool)>().parse(s), vec![]);
    }
}

#[test]
fn item_takes_a_whole_multi_byte_character() {
    assert_eq!(item().parse("é"), vec![('é', "")]);
    assert_eq!(item().parse("日本語"), vec![('日', "本語")]);
    assert_eq!(item().parse("🦀x"), vec![('🦀', "x")]);
    assert_eq!(item().parse("a↓"), vec![('a', "↓")]);
}

#[test]
fn item_leaves_whitespace_and_the_rest_untouched() {
    assert_eq!(item().parse(" a b"), vec![(' ', "a b")]);
    assert_eq!(item().parse("\n"), vec![('\n', "")]);
}

#[test]
fn item_remainder_borrows_from_the_input() {
    let input = String::from("↓brol");
    let out = item().parse(&input);
    assert_eq!(out.len(), 1);
    let rest = out[0].1;
    let start = input.as_ptr() as usize;
    assert_eq!(rest.as_ptr() as usize, start + '↓'.len_utf8());
    assert_eq!(rest.len(), input.len() - '↓'.len_utf8());
}

fn twice(inp: &str) -> Vec<(i32, &str)> {
    vec![(1, inp), (2, inp)]
}

fn digit(inp: &str) -> Vec<(u32, &str)> {
    match inp.chars().next() {
        Some(c) if c.is_ascii_digit() => vec![(c as u32 - '0' as u32, &inp[1..])],
        _ => vec![],
    }
}

#[test]
fn new_wraps_a_parse_function() {
    assert_eq!(Parser::new(Box::new(twice)).parse("ab"), vec![(1, "ab"), (2, "ab")]);
    assert_eq!(Parser::new(Box::new(digit)).parse("7x"), vec![(7, "x")]);
    assert_eq!(Parser::new(Box::new(digit)).parse("x7"), vec![]);
    assert_eq!(Parser::new(Box::new(digit)).parse(""), vec![]);
}

/// Gives a closure the signature of a parse function.
fn parse_fn<T, F>(f: F) -> F
where
    F: for<'a> Fn(&'a str) -> Vec<(T, &'a str)>,
{
    f
}

#[test]
fn new_takes_a_closure() {
    let p = Parser::new(Box::new(parse_fn(|inp| item().parse(inp))));
    assert_eq!(p.parse("brol"), vec![('b', "rol")]);
    let tag = 'k';
    let p = Parser::new(Box::new(parse_fn(move |inp| vec![(tag, inp)])));
    assert_eq!(p.parse("brol"), vec![('k', "brol")]);
}

#[test]
fn parsing_twice_gives_the_same_outcomes() {
    for s in ["", "a", "brol", "↓brol"] {
        assert_eq!(item().parse(s), item().parse(s));
        assert_eq!(result(3).parse(s), result(3).parse(s));
        assert_eq!(zero::<i32>().parse(s), zero::<i32>().parse(s));
        assert_eq!(Parser::new(Box::new(twice)).parse(s), Parser::new(Box::new(twice)).parse(s));
    }
}

#[test]
fn parsing_equal_inputs_held_apart_gives_the_same_outcomes() {
    let one = String::from("↓brol");
    let other = String::from("↓brol");
    assert_eq!(item().parse(&one), item().parse(&other));
}
