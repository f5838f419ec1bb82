use crucible::errors::Fault;
use crucible::errors::ParseError;
use crucible::lantern::EndingAnimationKind;
use crucible::lantern::EndingMusicKind;
use crucible::literal::Literal;
use crucible::parser::aspect;
use crucible::parser::card;
use crucible::parser::deck;
use crucible::parser::ending;
use crucible::parser::verb;
use crucible::parser::Component;

#[test]
fn empty_aspect_gets_every_default() {
    let (_, c) = aspect::parse(b"aspect lantern \"Lantern\" \"desc\" { }", 0).unwrap();
    match c {
        Component::Aspect(a) => {
            assert_eq!(a.id.0, b"lantern".to_vec());
            assert_eq!(a.label, b"Lantern".to_vec());
            assert_eq!(a.description, b"desc".to_vec());
            assert!(!a.hidden);
            assert!(a.icon.is_none());
            assert!(a.verbicon.is_none());
            assert!(a.induces.is_none());
            assert!(a.decays_to.is_none());
            assert!(a.xtriggers.is_empty());
            assert!(a.others.is_empty());
        }
        other => panic!("unexpected: {:?}", other),
    }
}

#[test]
fn aspect_statements_fill_fields() {
    let src = b"? aspect glow \"Glow\" \"d\" -> ember {
set icon=\"g.png\"
set custom=[1,2]
induce spark 40%
xtrigger heat -> spawn fire:2 75
}";
    let (_, c) = aspect::parse(src, 0).unwrap();
    match c {
        Component::Aspect(a) => {
            assert!(a.hidden);
            assert_eq!(a.icon, Some(b"g.png".to_vec()));
            assert_eq!(a.decays_to.as_ref().unwrap().0, b"ember".to_vec());
            let (key, chance) = a.induces.as_ref().unwrap();
            assert_eq!(key.0, b"spark".to_vec());
            assert_eq!(chance.value(), 40);
            assert_eq!(a.xtriggers.len(), 1);
            assert_eq!(a.others.len(), 1);
            assert_eq!(a.others[0].0 .0, b"custom".to_vec());
        }
        other => panic!("unexpected: {:?}", other),
    }
}

#[test]
fn aspect_rejects_a_second_assignment_of_one_key() {
    let src = b"aspect x \"X\" \"d\" {
set icon=\"a.png\"
set icon=\"b.png\"
}";
    match aspect::parse(src, 0) {
        Err(ParseError::Fail { fault: Fault::DuplicateAssignment { key }, .. }) => {
            assert_eq!(key.0, b"icon".to_vec());
        }
        other => panic!("unexpected: {:?}", other),
    }
}

#[test]
fn aspect_rejects_signature_only_keys_and_wrong_types() {
    let a = aspect::parse(b"aspect x \"X\" \"d\" {\nset id=\"y\"\n}", 0);
    assert!(matches!(
        a,
        Err(ParseError::Fail { fault: Fault::ReservedKey { .. }, .. })
    ));
    let b = aspect::parse(b"aspect x \"X\" \"d\" {\nset icon=5\n}", 0);
    assert!(matches!(
        b,
        Err(ParseError::Fail { fault: Fault::TypeMismatch { .. }, .. })
    ));
    let c = aspect::parse(
        b"aspect x \"X\" \"d\" {\ninduce a 10\ninduce b 20\n}",
        0,
    );
    assert!(matches!(
        c,
        Err(ParseError::Fail { fault: Fault::DuplicateInduce, .. })
    ));
}

#[test]
fn comments_are_discarded_between_tokens() {
    let src = b"// leading note
aspect y (* inline note *) \"Y\" \"d\" {
set icon=\"i.png\" // trailing note
}";
    let (_, c) = aspect::parse(src, 0).unwrap();
    match c {
        Component::Aspect(a) => assert_eq!(a.icon, Some(b"i.png".to_vec())),
        other => panic!("unexpected: {:?}", other),
    }
}

#[test]
fn card_rejects_a_repeated_signature_aspect() {
    let r = card::parse(b"card x \"X\" (aspectA, aspectA:2) { }", 0);
    match r {
        Err(ParseError::Fail { fault: Fault::DuplicateAspect { key }, .. }) => {
            assert_eq!(key.0, b"aspectA".to_vec());
        }
        other => panic!("unexpected: {:?}", other),
    }
}

#[test]
fn card_signature_aspects_carry_their_degrees() {
    let (_, c) = card::parse(b"card x \"X\" \"d\" (a, b:2) -> dust 5 { }", 0).unwrap();
    match c {
        Component::Card(card) => {
            assert_eq!(card.aspects.len(), 2);
            assert_eq!(card.aspects[0].0 .0, b"a".to_vec());
            assert_eq!(card.aspects[0].1, 1);
            assert_eq!(card.aspects[1].0 .0, b"b".to_vec());
            assert_eq!(card.aspects[1].1, 2);
            assert_eq!(card.decays_to.as_ref().unwrap().0, b"dust".to_vec());
            assert_eq!(card.lifetime, Some(5));
            assert!(!card.unique);
            assert!(!card.resaturate);
        }
        other => panic!("unexpected: {:?}", other),
    }
}

#[test]
fn card_unique_forms_are_mutually_exclusive() {
    let (_, c) = card::parse(b"card x \"X\" () {\nunique\n}", 0).unwrap();
    match c {
        Component::Card(card) => {
            assert!(card.unique);
            assert!(card.uniqueness_group.is_none());
        }
        other => panic!("unexpected: {:?}", other),
    }
    let (_, g) = card::parse(b"card x \"X\" () {\nunique herd\n}", 0).unwrap();
    match g {
        Component::Card(card) => {
            assert!(!card.unique);
            assert_eq!(card.uniqueness_group.as_ref().unwrap().0, b"herd".to_vec());
        }
        other => panic!("unexpected: {:?}", other),
    }
    let both = card::parse(b"card x \"X\" () {\nunique\nunique herd\n}", 0);
    assert!(matches!(
        both,
        Err(ParseError::Fail { fault: Fault::UniqueConflict, .. })
    ));
}

#[test]
fn card_slots_accumulate_under_their_verb() {
    let src = b"card x \"X\" () {
work -> slot s1 \"a\" \"b\"
work -> ! slot s2 \"c\" \"d\"
dream -> slot s3 \"e\" \"f\"
set resaturate=true
}";
    let (_, c) = card::parse(src, 0).unwrap();
    match c {
        Component::Card(card) => {
            assert_eq!(card.slots.len(), 2);
            assert_eq!(card.slots[0].0 .0, b"work".to_vec());
            assert_eq!(card.slots[0].1.len(), 2);
            assert_eq!(card.slots[0].1[1].id.0, b"s2".to_vec());
            assert!(card.slots[0].1[1].consumes);
            assert_eq!(card.slots[1].0 .0, b"dream".to_vec());
            assert!(card.resaturate);
        }
        other => panic!("unexpected: {:?}", other),
    }
}

#[test]
fn deck_with_two_defaults_fails() {
    let src = b"deck d \"D\" \"desc\" {
default a
default b
}";
    let r = deck::parse(src, 0);
    assert!(matches!(
        r,
        Err(ParseError::Fail { fault: Fault::DuplicateDefault, .. })
    ));
}

#[test]
fn deck_with_one_default_and_no_messages_is_no_portal_deck() {
    let src = b"deck d \"D\" \"desc\" {
default a
b
c
}";
    let (_, c) = deck::parse(src, 0).unwrap();
    match c {
        Component::Deck(deck) => {
            assert_eq!(deck.default.as_ref().unwrap().0, b"a".to_vec());
            assert!(!deck.is_portal_deck);
            assert_eq!(deck.cards.len(), 3);
        }
        other => panic!("unexpected: {:?}", other),
    }
}

#[test]
fn deck_draw_messages_mark_a_portal_deck() {
    let src = b"deck d {
!a
b \"you drew b\"
}";
    let (_, c) = deck::parse(src, 0).unwrap();
    match c {
        Component::Deck(deck) => {
            assert_eq!(deck.default.as_ref().unwrap().0, b"a".to_vec());
            assert!(deck.is_portal_deck);
            assert_eq!(deck.cards[1].1, Some(b"you drew b".to_vec()));
            assert!(deck.label.is_empty());
        }
        other => panic!("unexpected: {:?}", other),
    }
}

#[test]
fn verb_takes_at_most_one_slot() {
    let (_, c) = verb::parse(b"verb dream \"Dream\" \"d\" ( slot s \"l\" \"x\" )", 0).unwrap();
    match c {
        Component::Verb(v) => {
            assert_eq!(v.id.0, b"dream".to_vec());
            assert_eq!(v.slot.as_ref().unwrap().id.0, b"s".to_vec());
        }
        other => panic!("unexpected: {:?}", other),
    }
    let (_, c2) = verb::parse(b"verb rest \"Rest\" \"d\"", 0).unwrap();
    match c2 {
        Component::Verb(v) => assert!(v.slot.is_none()),
        other => panic!("unexpected: {:?}", other),
    }
}

#[test]
fn ending_extracts_recognized_keys() {
    let src = b"ending fall \"Fall\" \"d\" { \"image\": \"img\", \"flavour\": \"Melancholy\", \"anim\": \"dramaticlightevil\", \"achievementid\": \"ACH\" }";
    let (_, c) = ending::parse(src, 0).unwrap();
    match c {
        Component::Ending(e) => {
            assert_eq!(e.image, b"img".to_vec());
            assert!(matches!(e.music, EndingMusicKind::Melancholy));
            assert!(matches!(e.animation, EndingAnimationKind::DramaticLightEvil));
            assert_eq!(e.achievement, b"ACH".to_vec());
        }
        other => panic!("unexpected: {:?}", other),
    }
}

#[test]
fn ending_defaults_and_errors() {
    let (_, c) = ending::parse(b"ending x \"X\" \"d\" { \"image\": \"i\" }", 0).unwrap();
    match c {
        Component::Ending(e) => {
            assert!(matches!(e.music, EndingMusicKind::Grand));
            assert!(matches!(e.animation, EndingAnimationKind::DramaticLight));
            assert_eq!(e.achievement, b"XXX".to_vec());
        }
        other => panic!("unexpected: {:?}", other),
    }
    let missing = ending::parse(b"ending x \"X\" \"d\" { }", 0);
    assert!(matches!(
        missing,
        Err(ParseError::Fail { fault: Fault::MissingKey { .. }, .. })
    ));
    let wrong = ending::parse(b"ending x \"X\" \"d\" { \"image\": 5 }", 0);
    assert!(matches!(
        wrong,
        Err(ParseError::Fail { fault: Fault::TypeMismatch { .. }, .. })
    ));
    let odd = ending::parse(
        b"ending x \"X\" \"d\" { \"image\": \"i\", \"flavour\": \"loud\" }",
        0,
    );
    assert!(matches!(
        odd,
        Err(ParseError::Fail { fault: Fault::InvalidEnumValue { .. }, .. })
    ));
    let not_obj = ending::parse(b"ending x \"X\" \"d\" [1]", 0);
    assert!(matches!(
        not_obj,
        Err(ParseError::Fail { fault: Fault::NotAnObject, .. })
    ));
}

#[test]
fn unknown_set_values_pass_through_verbatim() {
    let (_, c) = aspect::parse(b"aspect x \"X\" \"d\" {\nset extra={\"k\": [true]}\n}", 0)
        .unwrap();
    match c {
        Component::Aspect(a) => match &a.others[0].1 {
            Literal::Object(fields) => {
                assert_eq!(fields[0].0, b"k".to_vec());
                assert!(matches!(fields[0].1, Literal::Array(_)));
            }
            other => panic!("unexpected: {:?}", other),
        },
        other => panic!("unexpected: {:?}", other),
    }
}
