use crucible::lantern::SlotFilter;
use crucible::lantern::Xtrigger;
use crucible::parser::p_slot;
use crucible::parser::p_xtrigger;

#[test]
fn xtrigger_spawn_with_chance() {
    let (_, x) = p_xtrigger(b"xtrigger cat -> spawn target:3 50%", 0).unwrap();
    match x {
        Xtrigger::Spawn { catalyst, creates, amount, chance } => {
            assert_eq!(catalyst.0, b"cat".to_vec());
            assert_eq!(creates.0, b"target".to_vec());
            assert_eq!(amount, 3);
            assert_eq!(chance.value(), 50);
        }
        other => panic!("unexpected: {:?}", other),
    }
}

#[test]
fn xtrigger_bare_transform_defaults() {
    let (_, x) = p_xtrigger(b"xtrigger cat -> target", 0).unwrap();
    match x {
        Xtrigger::Transform { catalyst, transforms_to, amount, chance } => {
            assert_eq!(catalyst.0, b"cat".to_vec());
            assert_eq!(transforms_to.0, b"target".to_vec());
            assert_eq!(amount, 1);
            assert_eq!(chance.value(), 100);
        }
        other => panic!("unexpected: {:?}", other),
    }
}

#[test]
fn xtrigger_explicit_transform() {
    let (_, x) = p_xtrigger(b"xtrigger cat -> gold:4", 0).unwrap();
    match x {
        Xtrigger::Transform { amount, chance, .. } => {
            assert_eq!(amount, 4);
            assert_eq!(chance.value(), 100);
        }
        other => panic!("unexpected: {:?}", other),
    }
}

#[test]
fn xtrigger_mutate_signed_amount() {
    let (_, x) = p_xtrigger(b"xtrigger cat -> mutate dust:-2 30", 0).unwrap();
    match x {
        Xtrigger::Mutate { adds_to_catalyst, amount, chance, .. } => {
            assert_eq!(adds_to_catalyst.0, b"dust".to_vec());
            assert_eq!(amount, -2);
            assert_eq!(chance.value(), 30);
        }
        other => panic!("unexpected: {:?}", other),
    }
}

#[test]
fn slot_with_filters_marks_forbid_on_bang() {
    let (_, sl) = p_slot(b"! slot work \"Work\" \"a slot\" (skill:1, !injury:2)", 0).unwrap();
    assert_eq!(sl.id.0, b"work".to_vec());
    assert_eq!(sl.label, b"Work".to_vec());
    assert!(sl.consumes);
    assert!(!sl.greedy);
    assert_eq!(sl.requirements.len(), 2);
    match &sl.requirements[0] {
        SlotFilter::Accept { element, amount } => {
            assert_eq!(element.0, b"skill".to_vec());
            assert_eq!(*amount, 1);
        }
        other => panic!("unexpected: {:?}", other),
    }
    match &sl.requirements[1] {
        SlotFilter::Forbid { element, amount } => {
            assert_eq!(element.0, b"injury".to_vec());
            assert_eq!(*amount, 2);
        }
        other => panic!("unexpected: {:?}", other),
    }
}

#[test]
fn slot_keyword_modifiers_in_either_order() {
    let (_, a) = p_slot(b"consume greedy slot s \"l\" \"d\"", 0).unwrap();
    assert!(a.consumes && a.greedy);
    let (_, b) = p_slot(b"greedy consume slot s \"l\" \"d\"", 0).unwrap();
    assert!(b.consumes && b.greedy);
    let (_, c) = p_slot(b"? slot s \"l\" \"d\"", 0).unwrap();
    assert!(!c.consumes && c.greedy);
    let (_, d) = p_slot(b"slot s \"l\" \"d\"", 0).unwrap();
    assert!(!d.consumes && !d.greedy);
    assert!(d.requirements.is_empty());
}

#[test]
fn xtrigger_chance_defaults_in_every_reaction_form() {
    let forms: Vec<&[u8]> = vec![
        b"xtrigger c -> spawn t:2",
        b"xtrigger c -> mutate t:-1",
        b"xtrigger c -> t:2",
        b"xtrigger c -> t",
    ];
    for src in forms {
        let (_, x) = p_xtrigger(src, 0).unwrap();
        let chance = match x {
            Xtrigger::Spawn { chance, .. } => chance,
            Xtrigger::Mutate { chance, .. } => chance,
            Xtrigger::Transform { chance, .. } => chance,
        };
        assert_eq!(chance.value(), 100);
    }
}

#[test]
fn reaction_alternatives_take_the_first_syntactic_match() {
    // the spawn keyword wins even with no space before the target
    let (_, x) = p_xtrigger(b"xtrigger c -> spawnling:2", 0).unwrap();
    match x {
        Xtrigger::Spawn { creates, amount, .. } => {
            assert_eq!(creates.0, b"ling".to_vec());
            assert_eq!(amount, 2);
        }
        other => panic!("unexpected: {:?}", other),
    }
    // a target that merely starts like a keyword is a transform
    let (_, y) = p_xtrigger(b"xtrigger c -> spawned", 0).unwrap();
    assert!(matches!(y, Xtrigger::Transform { .. }));
}
