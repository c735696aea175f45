use parakeet::id::{MessageId, ShortTag};
use parakeet::sms_frame::{decode, encode, TRAILER_CHARS};

fn tag() -> ShortTag {
    MessageId::from_parts(1_754_800_000_000, 0xDEAD_BEEF_CAFE_F00D_1234).short_tag()
}

#[test]
fn encode_then_decode_recovers_both_halves() {
    let framed = decode(&encode("Hey, are we still on for tonight?", tag()));
    assert_eq!(framed.body, "Hey, are we still on for tonight?");
    assert_eq!(framed.tag, Some(tag()));
}

#[test]
fn the_trailer_costs_what_we_claim() {
    let encoded = encode("", tag());
    assert_eq!(encoded.chars().count(), TRAILER_CHARS);
}

#[test]
fn a_plain_sms_decodes_to_its_whole_text() {
    let framed = decode("running late, sorry!");
    assert_eq!(framed.body, "running late, sorry!");
    assert_eq!(framed.tag, None);
}

#[test]
fn a_multiline_body_keeps_its_newlines() {
    let framed = decode(&encode("line one\nline two", tag()));
    assert_eq!(framed.body, "line one\nline two");
    assert_eq!(framed.tag, Some(tag()));
}

#[test]
fn a_trailer_shaped_token_mid_line_is_left_alone() {
    let text = "look at this #pk:7K2M9QX4RTB0F";
    let framed = decode(text);
    assert_eq!(framed.body, text);
    assert_eq!(framed.tag, None);
}

#[test]
fn a_malformed_tag_is_treated_as_text() {
    for bad in [
        "hi\n#pk:SHORT",
        "hi\n#pk:7K2M9QX4RTB0FEXTRA",
        "hi\n#pk:7K2M9QX4RTB0!",
        "hi\n#pk:",
        "hi\n#PK:7K2M9QX4RTB0F",
    ] {
        let framed = decode(bad);
        assert_eq!(framed.body, bad, "should not have stripped {bad:?}");
        assert_eq!(framed.tag, None);
    }
}

#[test]
fn an_empty_body_still_carries_its_tag() {
    let framed = decode(&encode("", tag()));
    assert_eq!(framed.body, "");
    assert_eq!(framed.tag, Some(tag()));
}

#[test]
fn decoding_is_idempotent_on_already_stripped_text() {
    let once = decode(&encode("hello", tag()));
    let twice = decode(&once.body);
    assert_eq!(twice.body, "hello");
    assert_eq!(twice.tag, None);
}

// Exact forms.

#[test]
fn the_encoded_text_is_body_newline_trailer() {
    assert_eq!(encode("hi", ShortTag::from_u64(1)), "hi\n#pk:0000000000001");
}

#[test]
fn a_text_that_is_only_a_trailer_has_an_empty_body() {
    let framed = decode("#pk:0000000000001");
    assert_eq!(framed.body, "");
    assert_eq!(framed.tag, Some(ShortTag::from_u64(1)));
}

#[test]
fn a_lower_case_tag_is_still_read() {
    let framed = decode("ok\n#pk:000000000000z");
    assert_eq!(framed.body, "ok");
    assert_eq!(framed.tag, Some(ShortTag::from_u64(31)));
}

#[test]
fn a_non_ascii_body_survives() {
    let framed = decode(&encode("déjà vu — ok", tag()));
    assert_eq!(framed.body, "déjà vu — ok");
    assert_eq!(framed.tag, Some(tag()));
}
