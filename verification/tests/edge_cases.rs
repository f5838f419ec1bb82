use crucible::errors::Fault;
use crucible::errors::ParseError;
use crucible::lantern::Xtrigger;
use crucible::parser::aspect;
use crucible::parser::card;
use crucible::parser::deck;
use crucible::parser::ending;
use crucible::parser::Component;

#[test]
fn keywords_match_case_insensitively() {
    assert!(aspect::parse(b"ASPECT x \"X\" \"d\" { }", 0).is_ok());
    assert!(card::parse(b"Card x \"X\" () { }", 0).is_ok());
    let src = b"aspect x \"X\" \"d\" {\nSET icon=\"i\"\n}";
    let (_, c) = aspect::parse(src, 0).unwrap();
    match c {
        Component::Aspect(a) => assert_eq!(a.icon, Some(b"i".to_vec())),
        other => panic!("unexpected: {:?}", other),
    }
}

#[test]
fn a_card_named_like_the_default_marker_is_no_marker() {
    let (_, c) = deck::parse(b"deck d \"D\" \"x\" {\ndefaultfoo\n}", 0).unwrap();
    match c {
        Component::Deck(deck) => {
            assert!(deck.default.is_none());
            assert_eq!(deck.cards[0].0 .0, b"defaultfoo".to_vec());
        }
        other => panic!("unexpected: {:?}", other),
    }
    let (_, c2) = deck::parse(b"deck d \"D\" \"x\" {\ndefault foo\n}", 0).unwrap();
    match c2 {
        Component::Deck(deck) => {
            assert_eq!(deck.default.as_ref().unwrap().0, b"foo".to_vec());
        }
        other => panic!("unexpected: {:?}", other),
    }
}

#[test]
fn xtriggers_accumulate_on_cards_in_order() {
    let src = b"card x \"X\" () {
xtrigger heat -> ash
xtrigger cold -> spawn frost:2
}";
    let (_, c) = card::parse(src, 0).unwrap();
    match c {
        Component::Card(card) => {
            assert_eq!(card.xtriggers.len(), 2);
            assert!(matches!(card.xtriggers[0], Xtrigger::Transform { .. }));
            assert!(matches!(card.xtriggers[1], Xtrigger::Spawn { .. }));
        }
        other => panic!("unexpected: {:?}", other),
    }
}

#[test]
fn carriage_return_line_endings_separate_statements() {
    let src = b"aspect x \"X\" \"d\" {\r\nset icon=\"i\"\r\nset verbicon=\"v\"\r\n}";
    let (_, c) = aspect::parse(src, 0).unwrap();
    match c {
        Component::Aspect(a) => {
            assert_eq!(a.icon, Some(b"i".to_vec()));
            assert_eq!(a.verbicon, Some(b"v".to_vec()));
        }
        other => panic!("unexpected: {:?}", other),
    }
}

#[test]
fn two_statements_on_one_line_are_rejected() {
    let r = aspect::parse(b"aspect x \"X\" \"d\" { set a=1 set b=2 }", 0);
    assert!(matches!(r, Err(ParseError::Syntax { .. })));
}

#[test]
fn a_block_comment_may_span_lines() {
    let src = b"aspect x (* a note\nover two lines *) \"X\" \"d\" { }";
    assert!(aspect::parse(src, 0).is_ok());
}

#[test]
fn ending_values_match_case_insensitively() {
    let src = b"ending x \"X\" \"d\" { \"image\": \"i\", \"flavour\": \"VILE\", \"anim\": \"DramaticLightCool\" }";
    let (_, c) = ending::parse(src, 0).unwrap();
    match c {
        Component::Ending(e) => {
            assert!(matches!(e.music, crucible::lantern::EndingMusicKind::Vile));
            assert!(matches!(
                e.animation,
                crucible::lantern::EndingAnimationKind::DramaticLightCool
            ));
        }
        other => panic!("unexpected: {:?}", other),
    }
}

#[test]
fn a_duplicate_unknown_key_is_rejected_like_a_known_one() {
    let r = aspect::parse(b"aspect x \"X\" \"d\" {\nset pet=1\nset pet=2\n}", 0);
    match r {
        Err(ParseError::Fail { fault: Fault::DuplicateAssignment { key }, .. }) => {
            assert_eq!(key.0, b"pet".to_vec());
        }
        other => panic!("unexpected: {:?}", other),
    }
}

#[test]
fn card_induce_is_single_use_too() {
    let r = card::parse(b"card x \"X\" () {\ninduce a 10\ninduce b 20\n}", 0);
    assert!(matches!(
        r,
        Err(ParseError::Fail { fault: Fault::DuplicateInduce, .. })
    ));
    let (_, ok) = card::parse(b"card x \"X\" () {\ninduce a 10%\n}", 0).unwrap();
    match ok {
        Component::Card(card) => {
            let (k, p) = card.induces.as_ref().unwrap();
            assert_eq!(k.0, b"a".to_vec());
            assert_eq!(p.value(), 10);
        }
        other => panic!("unexpected: {:?}", other),
    }
}

#[test]
fn aspect_decay_marker_is_optional() {
    let (_, with) = aspect::parse(b"aspect x \"X\" \"d\" -> ash { }", 0).unwrap();
    match with {
        Component::Aspect(a) => {
            assert_eq!(a.decays_to.as_ref().unwrap().0, b"ash".to_vec())
        }
        other => panic!("unexpected: {:?}", other),
    }
}
