use crucible::literal::parse;
use crucible::literal::Literal;

#[test]
fn scalar_literals() {
    assert!(matches!(parse(b"null", 0), Ok((4, Literal::Null))));
    assert!(matches!(parse(b"true", 0), Ok((4, Literal::Boolean(true)))));
    assert!(matches!(parse(b"false", 0), Ok((5, Literal::Boolean(false)))));
}

#[test]
fn number_literals_keep_their_lexeme() {
    match parse(b"-12.5e3 tail", 0) {
        Ok((j, Literal::Number(lex))) => {
            assert_eq!(j, 7);
            assert_eq!(lex, b"-12.5e3".to_vec());
        }
        other => panic!("unexpected: {:?}", other),
    }
    assert!(matches!(parse(b"0", 0), Ok((1, Literal::Number(_)))));
    assert!(parse(b"-", 0).is_err());
    assert!(parse(b"1.", 0).is_err());
}

#[test]
fn string_literals() {
    match parse(b"  \"hey\"", 0) {
        Ok((j, Literal::Str(s))) => {
            assert_eq!(j, 7);
            assert_eq!(s, b"hey".to_vec());
        }
        other => panic!("unexpected: {:?}", other),
    }
}

#[test]
fn arrays_nest() {
    match parse(b"[1, [true, null], \"x\"]", 0) {
        Ok((_, Literal::Array(elems))) => {
            assert_eq!(elems.len(), 3);
            assert!(matches!(elems[0], Literal::Number(_)));
            match &elems[1] {
                Literal::Array(inner) => {
                    assert_eq!(inner.len(), 2);
                    assert!(matches!(inner[0], Literal::Boolean(true)));
                    assert!(matches!(inner[1], Literal::Null));
                }
                other => panic!("unexpected: {:?}", other),
            }
        }
        other => panic!("unexpected: {:?}", other),
    }
    assert!(matches!(parse(b"[]", 0), Ok((2, Literal::Array(_)))));
}

#[test]
fn objects_keep_field_order() {
    match parse(b"{ \"a\": 1, \"b\": \"two\" }", 0) {
        Ok((_, Literal::Object(fields))) => {
            assert_eq!(fields.len(), 2);
            assert_eq!(fields[0].0, b"a".to_vec());
            assert_eq!(fields[1].0, b"b".to_vec());
            assert!(matches!(fields[1].1, Literal::Str(_)));
        }
        other => panic!("unexpected: {:?}", other),
    }
    assert!(matches!(parse(b"{}", 0), Ok((2, Literal::Object(_)))));
    assert!(parse(b"{ \"a\" 1 }", 0).is_err());
}
