use kartel::commands::Args;
use kartel::error::HandlerError;
use kartel::spongebob::{spongebob_handler, to_spongebob, Replied};

#[test]
fn test_to_spongebob_basic() {
    assert_eq!(to_spongebob("hello world"), "hElLo WoRlD");
}

#[test]
fn test_to_spongebob_with_numbers() {
    assert_eq!(to_spongebob("test 123"), "tEsT 123");
}

#[test]
fn test_to_spongebob_with_punctuation() {
    assert_eq!(to_spongebob("Hello, World!"), "hElLo, WoRlD!");
}

#[test]
fn test_to_spongebob_empty() {
    assert_eq!(to_spongebob(""), "");
}

#[test]
fn test_to_spongebob_numbers_only() {
    assert_eq!(to_spongebob("12345"), "12345");
}

#[test]
fn spongebob_leaves_other_alphabets_alone() {
    assert_eq!(to_spongebob("añb éC"), "añB éc");
}

#[test]
fn spongebob_prefers_the_text_of_the_reply() {
    let reply = Some(Replied {
        id: 7,
        text: Some("one two".to_string()),
        caption: Some("ignored".to_string()),
    });
    let answer = spongebob_handler(&reply, &Args("args".to_string()), 9).unwrap();
    assert_eq!(answer, ("oNe TwO".to_string(), 7));
}

#[test]
fn spongebob_falls_back_to_the_caption() {
    let reply = Some(Replied { id: 7, text: None, caption: Some("a photo".to_string()) });
    let answer = spongebob_handler(&reply, &Args("args".to_string()), 9).unwrap();
    assert_eq!(answer, ("a PhOtO".to_string(), 7));
}

#[test]
fn spongebob_rejects_a_reply_without_words() {
    let reply = Some(Replied { id: 7, text: None, caption: None });
    match spongebob_handler(&reply, &Args("args".to_string()), 9) {
        Err(HandlerError::InvalidArguments(m)) => {
            assert_eq!(m, "Provide text or reply to a message")
        }
        other => panic!("unexpected: {:?}", other),
    }
}

#[test]
fn spongebob_mocks_the_arguments_as_typed() {
    let answer = spongebob_handler(&None, &Args("  Hi there ".to_string()), 9).unwrap();
    assert_eq!(answer, ("  hI tHeRe ".to_string(), 9));
}

#[test]
fn spongebob_rejects_blank_arguments() {
    match spongebob_handler(&None, &Args(" \t ".to_string()), 9) {
        Err(HandlerError::InvalidArguments(m)) => {
            assert_eq!(m, "Provide text or reply to a message")
        }
        other => panic!("unexpected: {:?}", other),
    }
}
