use parakeet::peer::{ConversationId, PeerId, PhoneNumber};

#[test]
fn phone_numbers_normalise_to_a_comparable_form() {
    let typed = PhoneNumber::new("+33 6 12-34.56 78");
    let from_carrier = PhoneNumber::new("+33612345678");
    assert_eq!(typed, from_carrier);
}

#[test]
fn a_plus_is_only_significant_in_leading_position() {
    assert_eq!(PhoneNumber::new("336+12").as_str(), "33612");
}

#[test]
fn conversation_id_derives_from_the_peer() {
    let peer = PeerId::new("bob");
    assert_eq!(ConversationId::with_peer(&peer).as_str(), "bob");
}

#[test]
fn normalising_twice_changes_nothing() {
    let once = PhoneNumber::new("(+33) 6 12 34 56 78");
    let twice = PhoneNumber::new(once.as_str());
    assert_eq!(once.as_str(), "33612345678");
    assert_eq!(once, twice);
}

#[test]
fn a_number_of_letters_normalises_to_nothing() {
    assert_eq!(PhoneNumber::new("call me").as_str(), "");
    assert!(PhoneNumber::new("+1").same_as(&PhoneNumber::new("+ 1")));
}
