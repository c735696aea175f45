use parakeet::directory::{Contact, MemoryDirectory};
use parakeet::peer::{MatrixUserId, PeerId, PhoneNumber};

fn directory() -> MemoryDirectory {
    MemoryDirectory::new(vec![Contact::new(
        "bob",
        "Bob",
        "@bob:matriX.org",
        "+33612345678",
    )])
}

#[test]
fn the_same_person_is_reachable_from_either_address() {
    let dir = directory();
    let by_phone = dir.peer_by_phone(&PhoneNumber::new("+33612345678")).unwrap();
    let by_matrix = dir
        .peer_by_matrix_id(&MatrixUserId::new("@bob:matrix.org"))
        .unwrap();
    assert_eq!(by_phone, by_matrix);
}

#[test]
fn lookups_tolerate_carrier_formatting() {
    let dir = directory();
    assert!(dir
        .peer_by_phone(&PhoneNumber::new("+33 6 12 34 56 78"))
        .is_some());
}

#[test]
fn an_unknown_address_resolves_to_nothing() {
    let dir = directory();
    assert!(dir.peer_by_phone(&PhoneNumber::new("+33699999999")).is_none());
}

#[test]
fn adding_a_contact_twice_replaces_it() {
    let mut dir = directory();
    dir.add(Contact::new("bob", "Bobby", "@bob:matrix.org", "+33612345678"));
    assert_eq!(dir.contacts().len(), 1);
    assert_eq!(dir.display_name(&PeerId::new("bob")), "Bobby");
}

#[test]
fn an_unknown_peer_displays_as_its_id() {
    assert_eq!(directory().display_name(&PeerId::new("karen")), "karen");
}

#[test]
fn addresses_of_a_peer() {
    let dir = directory();
    assert_eq!(dir.matrix_id(&PeerId::new("bob")), Some(MatrixUserId::new("@bob:matriX.org")));
    assert_eq!(dir.phone(&PeerId::new("bob")), Some(PhoneNumber::new("+33612345678")));
    assert_eq!(dir.phone(&PeerId::new("alice")), None);
    assert_eq!(dir.display_name(&PeerId::new("bob")), "Bob");
}
