use parsec::text::split_first;

#[test]
fn split_first_of_the_empty_input_is_none() {
    assert_eq!(split_first(""), None);
}

#[test]
fn split_first_takes_one_ascii_character() {
    assert_eq!(split_first("a"), Some(('a', "")));
    assert_eq!(split_first("brol"), Some(('b', "rol")));
    assert_eq!(split_first("\u{7f}x"), Some(('\u{7f}', "x")));
}

#[test]
fn split_first_takes_a_character_of_every_encoded_width() {
    // Two bytes: the first and the last such character.
    assert_eq!(split_first("\u{80}x"), Some(('\u{80}', "x")));
    assert_eq!(split_first("éx"), Some(('é', "x")));
    assert_eq!(split_first("\u{7ff}x"), Some(('\u{7ff}', "x")));
    // Three bytes, on both sides of the surrogate gap.
    assert_eq!(split_first("\u{800}x"), Some(('\u{800}', "x")));
    assert_eq!(split_first("↓brol"), Some(('↓', "brol")));
    assert_eq!(split_first("\u{d7ff}x"), Some(('\u{d7ff}', "x")));
    assert_eq!(split_first("\u{e000}x"), Some(('\u{e000}', "x")));
    assert_eq!(split_first("\u{ffff}x"), Some(('\u{ffff}', "x")));
    // Four bytes.
    assert_eq!(split_first("\u{10000}x"), Some(('\u{10000}', "x")));
    assert_eq!(split_first("🦀x"), Some(('🦀', "x")));
    assert_eq!(split_first("\u{10ffff}x"), Some(('\u{10ffff}', "x")));
}

#[test]
fn split_first_leaves_the_following_characters_whole() {
    assert_eq!(split_first("a↓"), Some(('a', "↓")));
    assert_eq!(split_first("日本語"), Some(('日', "本語")));
    assert_eq!(split_first("e\u{301}"), Some(('e', "\u{301}")));
}

#[test]
fn split_first_agrees_with_the_character_iterator() {
    for s in ["", "a", "ab", "↓brol", "日本語", "🦀🦀", "\u{7f}\u{80}\u{7ff}\u{800}\u{ffff}\u{10000}"] {
        let mut rest = s;
        let mut chars = s.chars();
        loop {
            let expected = chars.next().map(|c| (c, chars.as_str()));
            assert_eq!(split_first(rest), expected);
            match expected {
                Some((_, after)) => rest = after,
                None => break,
            }
        }
    }
}

#[test]
fn split_first_borrows_the_remainder_from_the_input() {
    let input = String::from("↓brol");
    let (_, rest) = split_first(&input).unwrap();
    assert_eq!(rest.as_ptr() as usize, input.as_ptr() as usize + 3);
}
