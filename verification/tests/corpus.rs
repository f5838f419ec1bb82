use crucible::errors::CompileError;
use crucible::errors::ComponentKind;
use crucible::errors::ParseError;
use crucible::lantern::Aspect;
use crucible::lantern::Card;
use crucible::lantern::DefKey;
use crucible::lantern::Lantern;
use crucible::merge::parse;

fn file(path: &str, text: &str) -> (String, Vec<u8>) {
    (path.to_string(), text.as_bytes().to_vec())
}

fn find_aspect<'a>(l: &'a Lantern, key: &str) -> Option<&'a Aspect> {
    l.aspects
        .iter()
        .find(|(k, _)| k.0 == key.as_bytes().to_vec())
        .map(|(_, a)| a)
}

fn find_card<'a>(l: &'a Lantern, key: &str) -> Option<&'a Card> {
    l.cards
        .iter()
        .find(|(k, _)| k.0 == key.as_bytes().to_vec())
        .map(|(_, c)| c)
}

#[test]
fn one_file_compiles_to_a_corpus() {
    let files = vec![file(
        "a.crucible",
        "namespace ns { card foo \"Foo\" () { } }\nverb act \"Act\" \"d\"",
    )];
    let l = parse(&files).unwrap();
    let c = find_card(&l, "ns.foo").expect("card placed under its full path");
    assert_eq!(c.id.0, b"ns.foo".to_vec());
    assert_eq!(c.label, b"Foo".to_vec());
    assert_eq!(l.verbs.len(), 1);
    assert_eq!(l.verbs[0].0 .0, b"act".to_vec());
    let ns: Vec<&DefKey> = l.namespaces.iter().map(|(k, _)| k).collect();
    assert_eq!(ns.len(), 1);
    assert_eq!(ns[0].0, b"ns".to_vec());
    assert_eq!(l.namespaces[0].1.components.len(), 1);
    assert_eq!(l.namespaces[0].1.components[0].0, b"ns.foo".to_vec());
}

#[test]
fn duplicate_definitions_name_both_files_and_spare_the_rest() {
    let files = vec![
        file("one.crucible", "namespace ns { card foo \"A\" () { } }"),
        file(
            "two.crucible",
            "namespace ns { card foo \"B\" () { } card bar \"Bar\" () { } }",
        ),
    ];
    match parse(&files) {
        Err(errors) => {
            // the valid card in the second file raised no error of its own
            assert_eq!(errors.len(), 1);
            let (path, e) = &errors[0];
            assert_eq!(path, "two.crucible");
            match e {
                CompileError::DuplicateDefinition { kind, key, first_file } => {
                    assert!(matches!(kind, ComponentKind::Card));
                    assert_eq!(key.0, b"ns.foo".to_vec());
                    assert_eq!(first_file, "one.crucible");
                }
                other => panic!("unexpected: {:?}", other),
            }
        }
        Ok(_) => panic!("duplicate definition was accepted"),
    }
}

#[test]
fn a_failed_file_does_not_stop_its_siblings() {
    let files = vec![
        file("bad.crucible", "@@@ not the language"),
        file("good.crucible", "aspect a \"A\" \"d\" { }"),
        file(
            "worse.crucible",
            "aspect b \"B\" \"d\" {\nset icon=\"x\"\nset icon=\"y\"\n}",
        ),
    ];
    match parse(&files) {
        Err(errors) => {
            assert_eq!(errors.len(), 2);
            assert_eq!(errors[0].0, "bad.crucible");
            assert!(matches!(
                errors[0].1,
                CompileError::Parse { error: ParseError::NonEmpty { .. } }
            ));
            assert_eq!(errors[1].0, "worse.crucible");
            assert!(matches!(
                errors[1].1,
                CompileError::Parse { error: ParseError::Fail { .. } }
            ));
        }
        Ok(_) => panic!("errors were swallowed"),
    }
}

#[test]
fn unresolved_inheritance_fails_only_after_every_file_merged() {
    let files = vec![file(
        "a.crucible",
        "from missing.id aspect child \"C\" \"d\" { }",
    )];
    match parse(&files) {
        Err(errors) => {
            assert_eq!(errors.len(), 1);
            match &errors[0].1 {
                CompileError::UnresolvedInheritance { key, parent } => {
                    assert_eq!(key.0, b"child".to_vec());
                    assert_eq!(parent.0, b"missing.id".to_vec());
                }
                other => panic!("unexpected: {:?}", other),
            }
        }
        Ok(_) => panic!("dangling inheritance was accepted"),
    }
}

#[test]
fn inheritance_reaches_across_files_and_fills_unset_fields() {
    // the parent stands in the file merged second, so resolution must
    // wait for the whole corpus
    let files = vec![
        file(
            "child.crucible",
            "from base aspect kid \"Kid\" \"d\" {\nset verbicon=\"own.png\"\n}",
        ),
        file(
            "parent.crucible",
            "aspect base \"Base\" \"d\" {\nset icon=\"base.png\"\nset verbicon=\"base_v.png\"\n}",
        ),
    ];
    let l = parse(&files).unwrap();
    let kid = find_aspect(&l, "kid").unwrap();
    // unset on the child: taken from the parent
    assert_eq!(kid.icon, Some(b"base.png".to_vec()));
    // set on the child: kept
    assert_eq!(kid.verbicon, Some(b"own.png".to_vec()));
    // signature fields stay the child's own
    assert_eq!(kid.label, b"Kid".to_vec());
    let base = find_aspect(&l, "base").unwrap();
    assert_eq!(base.icon, Some(b"base.png".to_vec()));
}

#[test]
fn global_attributes_join_the_corpus() {
    let files = vec![file(
        "a.crucible",
        "#![author=\"someone\"]\n#![draft]\naspect a \"A\" \"d\" { }",
    )];
    let l = parse(&files).unwrap();
    assert_eq!(l.attributes.len(), 2);
    assert_eq!(l.attributes[0].key.0, b"author".to_vec());
    assert!(l.attributes[0].value.is_some());
    assert_eq!(l.attributes[1].key.0, b"draft".to_vec());
    assert!(l.attributes[1].value.is_none());
}

#[test]
fn nested_namespaces_build_dotted_paths() {
    let files = vec![file(
        "a.crucible",
        "namespace outer { namespace inner { deck d \"D\" \"x\" { c } } }",
    )];
    let l = parse(&files).unwrap();
    assert_eq!(l.decks.len(), 1);
    assert_eq!(l.decks[0].0 .0, b"outer.inner.d".to_vec());
    let paths: Vec<Vec<u8>> = l.namespaces.iter().map(|(k, _)| k.0.clone()).collect();
    assert!(paths.contains(&b"outer".to_vec()));
    assert!(paths.contains(&b"outer.inner".to_vec()));
}

#[test]
fn local_attributes_ride_on_their_component() {
    let files = vec![file(
        "a.crucible",
        "#[tagged]\n#[weight=3]\naspect a \"A\" \"d\" { }",
    )];
    let l = parse(&files).unwrap();
    assert_eq!(l.aspects.len(), 1);
}

#[test]
fn an_empty_file_is_an_empty_corpus() {
    let files = vec![file("a.crucible", "   \n// nothing here\n")];
    let l = parse(&files).unwrap();
    assert!(l.aspects.is_empty());
    assert!(l.cards.is_empty());
    assert!(l.attributes.is_empty());
}

#[test]
fn file_trees_join_in_order() {
    let a = crucible::parser::p_crucible(b"aspect a \"A\" \"d\" { }")
        .map_err(|e| format!("{:?}", e))
        .unwrap();
    let b = crucible::parser::p_crucible(b"#![note]\nverb v \"V\" \"d\"")
        .map_err(|e| format!("{:?}", e))
        .unwrap();
    let joined = crucible::parser::Crucible::empty().join(a).join(b);
    assert_eq!(joined.units.len(), 2);
    assert_eq!(joined.attributes.len(), 1);
}

#[test]
fn one_key_may_name_components_of_different_kinds() {
    let files = vec![file(
        "a.crucible",
        "aspect glow \"A\" \"d\" { }\ncard glow \"C\" () { }",
    )];
    let l = parse(&files).unwrap();
    assert_eq!(l.aspects.len(), 1);
    assert_eq!(l.cards.len(), 1);
}

#[test]
fn a_duplicate_within_one_file_names_that_file_twice() {
    let files = vec![file(
        "solo.crucible",
        "verb v \"A\" \"d\"\nverb v \"B\" \"d\"",
    )];
    match parse(&files) {
        Err(errors) => {
            assert_eq!(errors.len(), 1);
            assert_eq!(errors[0].0, "solo.crucible");
            match &errors[0].1 {
                CompileError::DuplicateDefinition { key, first_file, .. } => {
                    assert_eq!(key.0, b"v".to_vec());
                    assert_eq!(first_file, "solo.crucible");
                }
                other => panic!("unexpected: {:?}", other),
            }
        }
        Ok(_) => panic!("in-file duplicate was accepted"),
    }
}

#[test]
fn the_two_phases_compose_like_the_one_call() {
    let files = vec![
        file("a.crucible", "aspect a \"A\" \"d\" { }"),
        file("b.crucible", "card b \"B\" () { }"),
    ];
    let outcomes = crucible::merge::parse_files(&files);
    assert_eq!(outcomes.len(), 2);
    assert_eq!(outcomes[0].0, "a.crucible");
    assert!(outcomes[0].1.is_ok());
    let linked = crucible::merge::link(outcomes).unwrap();
    let direct = parse(&files).unwrap();
    assert_eq!(linked.aspects.len(), direct.aspects.len());
    assert_eq!(linked.cards.len(), direct.cards.len());
    assert_eq!(linked.aspects[0].0 .0, b"a".to_vec());
}

#[test]
fn a_failed_outcome_makes_the_link_fail() {
    let files = vec![file("bad.crucible", "???")];
    let outcomes = crucible::merge::parse_files(&files);
    assert!(outcomes[0].1.is_err());
    assert!(crucible::merge::link(outcomes).is_err());
}
