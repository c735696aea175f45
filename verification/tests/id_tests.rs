use parakeet::id::{IdParseError, MessageId, ShortTag, MAX_TIMESTAMP_MS, MESSAGE_ID_LEN, SHORT_TAG_LEN};

#[test]
fn message_id_round_trips_through_base32() {
    let id = MessageId::from_parts(1_754_800_000_000, 0x0123_4567_89AB_CDEF_0123);
    let text = id.to_base32();
    assert_eq!(text.len(), MESSAGE_ID_LEN);
    assert_eq!(MessageId::parse(&text), Ok(id));
}

#[test]
fn short_tag_round_trips_through_base32() {
    let tag = MessageId::from_parts(1_754_800_000_000, 0xDEAD_BEEF_CAFE_F00D_1234).short_tag();
    let text = tag.to_base32();
    assert_eq!(text.len(), SHORT_TAG_LEN);
    assert_eq!(ShortTag::parse(&text), Ok(tag));
}

#[test]
fn short_tag_is_derivable_from_the_full_id() {
    let id = MessageId::from_parts(1_754_800_000_000, 0x1111_2222_3333_4444_5555);
    let recovered = MessageId::parse(&id.to_base32()).unwrap();
    assert_eq!(recovered.short_tag(), id.short_tag());
}

#[test]
fn ids_sort_by_compose_time() {
    let early = MessageId::from_parts(1_000, u128::MAX);
    let late = MessageId::from_parts(2_000, 0);
    assert!(early < late, "timestamp must dominate the random tail");
}

#[test]
fn timestamp_survives_the_round_trip() {
    let id = MessageId::from_parts(1_754_800_000_000, 42);
    assert_eq!(id.timestamp_ms(), 1_754_800_000_000);
}

#[test]
fn parse_rejects_wrong_length() {
    assert_eq!(
        MessageId::parse("ABC"),
        Err(IdParseError::BadLength {
            expected: MESSAGE_ID_LEN,
            found: 3
        })
    );
}

#[test]
fn parse_rejects_characters_outside_the_alphabet() {
    let mut text = MessageId::from_parts(1, 1).to_base32();
    text.replace_range(0..1, "-");
    assert_eq!(MessageId::parse(&text), Err(IdParseError::BadCharacter('-')));
}

#[test]
fn parse_accepts_confusable_substitutions() {
    let tag = ShortTag::from_u64(0b1_00001);
    let text = tag.to_base32();
    let confused = text.replace('1', "I").replace('0', "O");
    assert_eq!(ShortTag::parse(&confused), Ok(tag));
}

#[test]
fn parse_is_case_insensitive() {
    let id = MessageId::from_parts(1_754_800_000_000, 0xABCD_EF01_2345_6789_ABCD);
    assert_eq!(MessageId::parse(&id.to_base32().to_lowercase()), Ok(id));
}

#[test]
fn from_parts_truncates_rather_than_panicking() {
    let id = MessageId::from_parts(u64::MAX, u128::MAX);
    assert_eq!(id.timestamp_ms(), MAX_TIMESTAMP_MS);
}

// Exact written forms.

#[test]
fn zero_is_written_as_all_zero_digits() {
    assert_eq!(MessageId::from_u128(0).to_base32(), "00000000000000000000000000");
    assert_eq!(ShortTag::from_u64(0).to_base32(), "0000000000000");
}

#[test]
fn the_alphabet_skips_confusable_letters() {
    assert_eq!(ShortTag::from_u64(31).to_base32(), "000000000000Z");
    assert_eq!(ShortTag::from_u64(18).to_base32(), "000000000000J");
    assert_eq!(ShortTag::from_u64(32).to_base32(), "0000000000010");
    assert_eq!(ShortTag::from_u64(u64::MAX).to_base32(), "FZZZZZZZZZZZZ");
}

#[test]
fn from_parts_places_the_timestamp_above_eighty_bits() {
    let id = MessageId::from_parts(1, 5);
    assert_eq!(id.as_u128(), (1u128 << 80) | 5);
    assert_eq!(id.short_tag().as_u64(), 5);
}

#[test]
fn a_bad_character_is_reported_as_typed() {
    assert_eq!(ShortTag::parse("000000000000u"), Err(IdParseError::BadCharacter('u')));
    assert_eq!(
        ShortTag::parse("0000"),
        Err(IdParseError::BadLength { expected: SHORT_TAG_LEN, found: 4 })
    );
}

#[test]
fn a_tag_read_from_thirteen_digits_is_cut_to_sixty_four_bits() {
    assert_eq!(ShortTag::parse("G000000000000"), Ok(ShortTag::from_u64(0)));
}

#[test]
fn parse_errors_read_as_text() {
    let short = MessageId::parse("abc").unwrap_err();
    assert_eq!(short.text(), "expected 26 characters, found 3");
    let bad = MessageId::parse("0123456789ABCDEFGHJKMNPQR!").unwrap_err();
    assert_eq!(bad.text(), "invalid base32 character '!'");
}

#[test]
fn written_ids_sort_as_the_ids_do() {
    let ids = [
        MessageId::from_parts(1_000, 5),
        MessageId::from_parts(1_000, 6),
        MessageId::from_parts(1_001, 0),
        MessageId::from_parts(2_000_000_000_000, 42),
    ];
    for a in ids.iter() {
        for b in ids.iter() {
            assert_eq!(a.as_u128() < b.as_u128(), a.to_base32() < b.to_base32());
        }
    }
}
