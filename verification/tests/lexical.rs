use crucible::errors::ParseError;
use crucible::parser::p_chance;
use crucible::parser::p_i32;
use crucible::parser::p_key;
use crucible::parser::p_string;
use crucible::parser::p_u32;

#[test]
fn defkey_takes_the_maximal_identifier_run() {
    let s = b"abc-D.e$_1 rest";
    let (j, k) = p_key(s, 0).unwrap();
    assert_eq!(j, 10);
    assert_eq!(k.0, b"abc-D.e$_1".to_vec());
}

#[test]
fn defkey_rejects_a_non_identifier_start() {
    assert!(matches!(p_key(b" x", 0), Err(ParseError::Syntax { pos: 0 })));
    assert!(matches!(p_key(b"", 0), Err(ParseError::Syntax { pos: 0 })));
}

#[test]
fn chance_reads_a_bounded_percentage() {
    let (j, p) = p_chance(b"50% rest", 0).unwrap();
    assert_eq!(j, 3);
    assert_eq!(p.value(), 50);
    let (j2, p2) = p_chance(b"100", 0).unwrap();
    assert_eq!(j2, 3);
    assert_eq!(p2.value(), 100);
    let (_, p3) = p_chance(b"0", 0).unwrap();
    assert_eq!(p3.value(), 0);
}

#[test]
fn chance_rejects_values_over_one_hundred() {
    assert!(p_chance(b"101", 0).is_err());
    assert!(p_chance(b"150%", 0).is_err());
}

#[test]
fn unsigned_numbers_and_overflow() {
    let (j, v) = p_u32(b"42x", 0).unwrap();
    assert_eq!((j, v), (2, 42));
    assert!(p_u32(b"99999999999", 0).is_err());
    assert_eq!(p_u32(b"4294967295", 0).unwrap().1, u32::MAX);
    assert!(p_u32(b"4294967296", 0).is_err());
}

#[test]
fn signed_numbers() {
    assert_eq!(p_i32(b"-12", 0).unwrap().1, -12);
    assert_eq!(p_i32(b"7", 0).unwrap().1, 7);
    assert_eq!(p_i32(b"-2147483648", 0).unwrap().1, i32::MIN);
    assert!(p_i32(b"-2147483649", 0).is_err());
}

#[test]
fn strings_decode_escapes() {
    let (j, c) = p_string(b"\"a\\nb\"", 0).unwrap();
    assert_eq!(j, 6);
    assert_eq!(c, vec![b'a', 0x0a, b'b']);
    let (_, c2) = p_string(b"\"q\\\"t\\\\u\"", 0).unwrap();
    assert_eq!(c2, vec![b'q', b'"', b't', b'\\', b'u']);
}

#[test]
fn strings_reject_unterminated_and_unknown_escape() {
    assert!(p_string(b"\"abc", 0).is_err());
    assert!(p_string(b"\"a\\zb\"", 0).is_err());
    assert!(p_string(b"abc", 0).is_err());
}
