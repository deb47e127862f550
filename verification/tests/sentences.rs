use response_engine::sentences::{space, split_sentences, take_sentence, terminator};

fn split(text: &str) -> Vec<String> {
    split_sentences(text.as_bytes().to_vec())
        .into_iter()
        .map(|s| String::from_utf8(s).unwrap())
        .collect()
}

#[test]
fn single_sentence_is_one_piece() {
    assert_eq!(split("Hello, world."), vec!["Hello, world."]);
}

#[test]
fn sentences_are_cut_after_their_terminators() {
    assert_eq!(
        split("Hi. How are you? Fine!"),
        vec!["Hi.", "How are you?", "Fine!"]
    );
}

#[test]
fn empty_and_blank_texts_have_no_sentences() {
    assert_eq!(split(""), Vec::<String>::new());
    assert_eq!(split("   \n\t\r "), Vec::<String>::new());
}

#[test]
fn white_space_around_sentences_is_dropped() {
    assert_eq!(split("  leading"), vec!["leading"]);
    assert_eq!(split("End. "), vec!["End."]);
    assert_eq!(split("One.\n\nTwo.\r\n"), vec!["One.", "Two."]);
}

#[test]
fn terminator_inside_a_word_does_not_cut() {
    assert_eq!(split("3.14 is pi."), vec!["3.14 is pi."]);
    assert_eq!(split("a.b!c?d"), vec!["a.b!c?d"]);
}

#[test]
fn run_of_terminators_stays_together() {
    assert_eq!(
        split("Wait... what?!  Yes."),
        vec!["Wait...", "what?!", "Yes."]
    );
}

#[test]
fn text_without_terminator_is_one_sentence() {
    assert_eq!(split("No end"), vec!["No end"]);
}

#[test]
fn text_that_begins_with_a_terminator() {
    assert_eq!(split(". a"), vec![".", "a"]);
    assert_eq!(split("."), vec!["."]);
}

#[test]
fn bytes_beyond_ascii_pass_through() {
    assert_eq!(split("Grüße. Ça va?"), vec!["Grüße.", "Ça va?"]);
}

#[test]
fn open_text_yields_only_sentences_that_are_closed() {
    let mut buffer = b"Hello.".to_vec();
    assert_eq!(take_sentence(&mut buffer, false), None);
    assert_eq!(buffer, b"Hello.".to_vec());
    buffer.extend_from_slice(b" World");
    assert_eq!(take_sentence(&mut buffer, false), Some(b"Hello.".to_vec()));
    assert_eq!(buffer, b" World".to_vec());
    assert_eq!(take_sentence(&mut buffer, false), None);
    assert_eq!(buffer, b"World".to_vec());
    assert_eq!(take_sentence(&mut buffer, true), Some(b"World".to_vec()));
    assert_eq!(buffer, Vec::<u8>::new());
    assert_eq!(take_sentence(&mut buffer, true), None);
}

#[test]
fn take_sentence_leaves_the_rest_in_the_buffer() {
    let mut buffer = b"  One. Two. Three".to_vec();
    assert_eq!(take_sentence(&mut buffer, true), Some(b"One.".to_vec()));
    assert_eq!(buffer, b" Two. Three".to_vec());
    assert_eq!(take_sentence(&mut buffer, true), Some(b"Two.".to_vec()));
    assert_eq!(buffer, b" Three".to_vec());
    assert_eq!(take_sentence(&mut buffer, true), Some(b"Three".to_vec()));
    assert!(buffer.is_empty());
}

#[test]
fn terminators_and_spaces_are_told_apart() {
    for b in [b'.', b'!', b'?'] {
        assert!(terminator(b));
        assert!(!space(b));
    }
    for b in [b' ', b'\t', b'\n', b'\r'] {
        assert!(space(b));
        assert!(!terminator(b));
    }
    for b in [b'a', b',', b';', b':', 0u8, 0xC3u8] {
        assert!(!terminator(b));
        assert!(!space(b));
    }
}
