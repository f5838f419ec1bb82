//! The `verb` component: a signature and at most one parenthesized
//! slot.

use vstd::prelude::*;
use crate::errors::ParseError;
use crate::lantern::Slot;
use crate::lantern::Verb;
use crate::lantern::valid_key;

verus! {

/// The keyword `verb`.
pub open spec fn bytes_verb() -> Seq<u8> {
    seq![0x76u8, 0x65, 0x72, 0x62]
}

/// A whole verb declaration, scanned.
pub struct VerbDeclV {
    pub id: Seq<u8>,
    pub label: Seq<u8>,
    pub description: Seq<u8>,
    pub slot: Option<crate::lantern::SlotV>,
}

/// A verb declaration at `i`:
/// `verb <id> <label> <description> [( <slot-def> )]`.
pub open spec fn verb_scan(s: Seq<u8>, i: int) -> Option<(int, VerbDeclV)> {
    let i0 = crate::parser::ws_scan(s, i);
    if !crate::parser::tag_nc_matches(s, i0, bytes_verb()) {
        None
    } else {
        match crate::parser::key_at(s, crate::parser::ws_scan(s, i0 + 4)) {
            Some((i3, id)) => match crate::parser::string_at(s, crate::parser::ws_scan(s, i3)) {
                Some((i5, label)) => match crate::parser::string_at(
                    s,
                    crate::parser::ws_scan(s, i5),
                ) {
                    Some((i7, description)) => {
                        let p0 = crate::parser::ws_scan(s, i7);
                        if p0 < s.len() && s[p0] == 0x28 {
                            match crate::parser::slot_scan(s, p0 + 1) {
                                Some((j2, sl)) => {
                                    let j3 = crate::parser::ws_scan(s, j2);
                                    if j3 < s.len() && s[j3] == 0x29 {
                                        Some(
                                            (
                                                (j3 + 1) as int,
                                                VerbDeclV { id, label, description, slot: Some(sl) },
                                            ),
                                        )
                                    } else {
                                        None
                                    }
                                },
                                None => None,
                            }
                        } else {
                            Some((i7, VerbDeclV { id, label, description, slot: None }))
                        }
                    },
                    None => None,
                },
                None => None,
            },
            None => None,
        }
    }
}

/// Parse a verb declaration:
/// `verb <id> <label> <description> [( <slot-def> )]`, exactly as
/// [`verb_scan`] describes.
pub fn parse(s: &[u8], i: usize) -> (r: Result<(usize, crate::parser::Component), ParseError>)
    requires
        i <= s@.len(),
    ensures
        r is Ok <==> verb_scan(s@, i as int) is Some,
        verb_scan(s@, i as int) matches Some(q) ==> (r matches Ok((j, c)) && j == q.0 && (
        c matches crate::parser::Component::Verb(v) && {
            &&& v.id@ == q.1.id
            &&& v.label@ == q.1.label
            &&& v.description@ == q.1.description
            &&& (match (v.slot, q.1.slot) {
                (Some(sl), Some(slv)) => sl@ == slv,
                (None, None) => true,
                _ => false,
            })
        })),
        r matches Ok((j, c)) ==> i < j <= s@.len() && (c matches crate::parser::Component::Verb(v)
            && valid_key(v.id@) && (v.slot matches Some(sl) ==> sl.wf())),
        r matches Err(e) ==> e is Syntax,
{
    let verb_kw: [u8; 4] = [0x76, 0x65, 0x72, 0x62];  // "verb"
    proof {
        assert(verb_kw@ =~= bytes_verb());
    }
    let i0 = crate::parser::skip_ws(s, i);
    let i1 = match crate::parser::p_tag_nc(s, i0, verb_kw.as_slice()) {
        Ok(j) => j,
        Err(e) => {
            return Err(e);
        },
    };
    let i2 = crate::parser::skip_ws(s, i1);
    let (i3, id) = match crate::parser::p_key(s, i2) {
        Ok(v) => v,
        Err(e) => {
            return Err(e);
        },
    };
    let i4 = crate::parser::skip_ws(s, i3);
    let (i5, label) = match crate::parser::p_string(s, i4) {
        Ok(v) => v,
        Err(e) => {
            return Err(e);
        },
    };
    let i6 = crate::parser::skip_ws(s, i5);
    let (i7, description) = match crate::parser::p_string(s, i6) {
        Ok(v) => v,
        Err(e) => {
            return Err(e);
        },
    };
    // optional parenthesized slot
    let p0 = crate::parser::skip_ws(s, i7);
    let (i8, slot): (usize, Option<Slot>) = match crate::parser::p_byte(s, p0, 0x28) {
        Ok(j1) => {
            match crate::parser::p_slot(s, j1) {
                Ok((j2, sl)) => {
                    let j3 = crate::parser::skip_ws(s, j2);
                    match crate::parser::p_byte(s, j3, 0x29) {
                        Ok(j4) => (j4, Some(sl)),
                        Err(e) => {
                            return Err(e);
                        },
                    }
                },
                Err(e) => {
                    return Err(e);
                },
            }
        },
        Err(_) => (i7, None),
    };
    Ok(
        (
            i8,
            crate::parser::Component::Verb(
                Box::new(Verb { id, label, description, slot }),
            ),
        ),
    )
}

} // verus!
