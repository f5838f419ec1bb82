//! The `ending` component: a signature followed by a literal object
//! body, from which the recognized keys are extracted.

use vstd::prelude::*;
use crate::errors::Fault;
use crate::errors::FaultV;
use crate::errors::ParseError;
use crate::lantern::DefKey;
use crate::lantern::Ending;
use crate::lantern::EndingAnimationKind;
use crate::lantern::EndingMusicKind;
use crate::lantern::dup_bytes;
use crate::literal::LitV;
use crate::literal::Literal;
use crate::parser::ascii_lower_seq;
use crate::parser::bytes_eq;
use crate::parser::bytes_eq_nc;
use crate::parser::copy_range;

verus! {

/// The recognized key `image`.
pub open spec fn bytes_image() -> Seq<u8> {
    seq![0x69u8, 0x6d, 0x61, 0x67, 0x65]
}

/// The recognized key `flavour`.
pub open spec fn bytes_flavour() -> Seq<u8> {
    seq![0x66u8, 0x6c, 0x61, 0x76, 0x6f, 0x75, 0x72]
}

/// The recognized key `anim`.
pub open spec fn bytes_anim() -> Seq<u8> {
    seq![0x61u8, 0x6e, 0x69, 0x6d]
}

/// The recognized key `achievementid`.
pub open spec fn bytes_achievementid() -> Seq<u8> {
    seq![0x61u8, 0x63, 0x68, 0x69, 0x65, 0x76, 0x65, 0x6d, 0x65, 0x6e, 0x74, 0x69, 0x64]
}

/// The music value `grand`.
pub open spec fn bytes_grand() -> Seq<u8> {
    seq![0x67u8, 0x72, 0x61, 0x6e, 0x64]
}

/// The music value `melancholy`.
pub open spec fn bytes_melancholy() -> Seq<u8> {
    seq![0x6du8, 0x65, 0x6c, 0x61, 0x6e, 0x63, 0x68, 0x6f, 0x6c, 0x79]
}

/// The music value `vile`.
pub open spec fn bytes_vile() -> Seq<u8> {
    seq![0x76u8, 0x69, 0x6c, 0x65]
}

/// The animation value `dramaticlight`.
pub open spec fn bytes_dramaticlight() -> Seq<u8> {
    seq![0x64u8, 0x72, 0x61, 0x6d, 0x61, 0x74, 0x69, 0x63, 0x6c, 0x69, 0x67, 0x68, 0x74]
}

/// The animation value `dramaticlightcool`.
pub open spec fn bytes_dramaticlightcool() -> Seq<u8> {
    bytes_dramaticlight() + seq![0x63u8, 0x6f, 0x6f, 0x6c]
}

/// The animation value `dramaticlightevil`.
pub open spec fn bytes_dramaticlightevil() -> Seq<u8> {
    bytes_dramaticlight() + seq![0x65u8, 0x76, 0x69, 0x6c]
}

/// The well-known sentinel achievement id, `XXX`.
pub open spec fn bytes_sentinel() -> Seq<u8> {
    seq![0x58u8, 0x58, 0x58]
}

/// View of a literal object's field list.
pub open spec fn fields_view(v: Seq<(Vec<u8>, Literal)>) -> Seq<(Seq<u8>, LitV)> {
    Seq::new(v.len(), |i: int| (v[i].0@, v[i].1@))
}

/// The first binding of `k` in an object's fields.
pub open spec fn obj_lookup(fields: Seq<(Seq<u8>, LitV)>, k: Seq<u8>) -> Option<LitV>
    decreases fields.len(),
{
    if fields.len() == 0 {
        None
    } else if fields[0].0 == k {
        Some(fields[0].1)
    } else {
        obj_lookup(fields.drop_first(), k)
    }
}

/// The required `image` key: a string.
pub open spec fn image_of(fields: Seq<(Seq<u8>, LitV)>) -> Result<Seq<u8>, FaultV> {
    match obj_lookup(fields, bytes_image()) {
        Option::None => Err(FaultV::MissingKey { key: bytes_image() }),
        Option::Some(v) => match v {
            LitV::Str(sv) => Ok(sv),
            _ => Err(FaultV::TypeMismatch { key: bytes_image() }),
        },
    }
}

/// The optional `flavour` key: one of the closed music values,
/// compared case-insensitively; absent means `Grand`.
pub open spec fn music_of(fields: Seq<(Seq<u8>, LitV)>) -> Result<EndingMusicKind, FaultV> {
    match obj_lookup(fields, bytes_flavour()) {
        Option::None => Ok(EndingMusicKind::Grand),
        Option::Some(v) => match v {
            LitV::Str(sv) => {
                if ascii_lower_seq(sv) == bytes_grand() {
                    Ok(EndingMusicKind::Grand)
                } else if ascii_lower_seq(sv) == bytes_melancholy() {
                    Ok(EndingMusicKind::Melancholy)
                } else if ascii_lower_seq(sv) == bytes_vile() {
                    Ok(EndingMusicKind::Vile)
                } else {
                    Err(FaultV::InvalidEnumValue { key: bytes_flavour() })
                }
            },
            _ => Err(FaultV::TypeMismatch { key: bytes_flavour() }),
        },
    }
}

/// The optional `anim` key: one of the closed animation values,
/// compared case-insensitively; absent means `DramaticLight`.
pub open spec fn anim_of(fields: Seq<(Seq<u8>, LitV)>) -> Result<EndingAnimationKind, FaultV> {
    match obj_lookup(fields, bytes_anim()) {
        Option::None => Ok(EndingAnimationKind::DramaticLight),
        Option::Some(v) => match v {
            LitV::Str(sv) => {
                if ascii_lower_seq(sv) == bytes_dramaticlight() {
                    Ok(EndingAnimationKind::DramaticLight)
                } else if ascii_lower_seq(sv) == bytes_dramaticlightcool() {
                    Ok(EndingAnimationKind::DramaticLightCool)
                } else if ascii_lower_seq(sv) == bytes_dramaticlightevil() {
                    Ok(EndingAnimationKind::DramaticLightEvil)
                } else {
                    Err(FaultV::InvalidEnumValue { key: bytes_anim() })
                }
            },
            _ => Err(FaultV::TypeMismatch { key: bytes_anim() }),
        },
    }
}

/// The optional `achievementid` key: a string; absent means the
/// sentinel.
pub open spec fn achievement_of(fields: Seq<(Seq<u8>, LitV)>) -> Result<Seq<u8>, FaultV> {
    match obj_lookup(fields, bytes_achievementid()) {
        Option::None => Ok(bytes_sentinel()),
        Option::Some(v) => match v {
            LitV::Str(sv) => Ok(sv),
            _ => Err(FaultV::TypeMismatch { key: bytes_achievementid() }),
        },
    }
}

/// All recognized keys extracted in order: `image`, then `flavour`,
/// then `anim`, then `achievementid`; the first fault wins.
pub open spec fn ending_sem(fields: Seq<(Seq<u8>, LitV)>) -> Result<
    (Seq<u8>, EndingMusicKind, EndingAnimationKind, Seq<u8>),
    FaultV,
> {
    match image_of(fields) {
        Err(f) => Err(f),
        Ok(img) => match music_of(fields) {
            Err(f) => Err(f),
            Ok(mus) => match anim_of(fields) {
                Err(f) => Err(f),
                Ok(an) => match achievement_of(fields) {
                    Err(f) => Err(f),
                    Ok(ach) => Ok((img, mus, an, ach)),
                },
            },
        },
    }
}

/// Copy a byte slice into an owned key.
fn key_of(t: &[u8]) -> (k: DefKey)
    ensures
        k@ == t@,
{
    let v = copy_range(t, 0, t.len());
    assert(t@.subrange(0, t@.len() as int) =~= t@);
    DefKey(v)
}

/// Copy a byte slice into an owned vector.
fn vec_of(t: &[u8]) -> (v: Vec<u8>)
    ensures
        v@ == t@,
{
    let v = copy_range(t, 0, t.len());
    assert(t@.subrange(0, t@.len() as int) =~= t@);
    v
}

/// Find the first binding of `k` among an object's fields.
fn obj_find<'a>(fields: &'a Vec<(Vec<u8>, Literal)>, k: &[u8]) -> (r: Option<&'a Literal>)
    ensures
        r matches Some(l) ==> obj_lookup(fields_view(fields@), k@) == Some(l@),
        r is None ==> obj_lookup(fields_view(fields@), k@) is None,
{
    let n: usize = fields.len();
    let mut i: usize = 0;
    proof {
        assert(fields_view(fields@).skip(0) =~= fields_view(fields@));
    }
    while i < n
        invariant
            i <= n,
            n == fields@.len(),
            obj_lookup(fields_view(fields@), k@) == obj_lookup(
                fields_view(fields@).skip(i as int),
                k@,
            ),
        decreases n - i,
    {
        let ghost fv = fields_view(fields@);
        proof {
            assert(fv.skip(i as int)[0] == fv[i as int]);
        }
        if bytes_eq(&fields[i].0, k) {
            proof {
                assert(fv[i as int].0 == k@);
                assert(obj_lookup(fv.skip(i as int), k@) == Some(fv[i as int].1));
            }
            return Some(&fields[i].1);
        }
        proof {
            assert(fv[i as int].0 == fields@[i as int].0@);
            assert(fv[i as int].0 != k@);
            assert(fv.skip(i as int).drop_first() =~= fv.skip(i + 1));
        }
        i = i + 1;
    }
    proof {
        assert(fields_view(fields@).skip(n as int) =~= Seq::<(Seq<u8>, LitV)>::empty());
    }
    None
}

/// Build an [`Ending`] from its signature parts and the fields of its
/// literal-object body, exactly as [`ending_sem`] describes.
pub fn ending_from_fields(
    id: DefKey,
    label: Vec<u8>,
    description: Vec<u8>,
    fields: Vec<(Vec<u8>, Literal)>,
) -> (r: Result<Ending, Fault>)
    ensures
        ending_sem(fields_view(fields@)) matches Ok(q) ==> (r matches Ok(e) && {
            &&& e.id@ == id@
            &&& e.label@ == label@
            &&& e.description@ == description@
            &&& e.image@ == q.0
            &&& e.music == q.1
            &&& e.animation == q.2
            &&& e.achievement@ == q.3
        }),
        ending_sem(fields_view(fields@)) matches Err(f) ==> (r matches Err(g) && g@ == f),
{
    let t_image: [u8; 5] = [0x69, 0x6d, 0x61, 0x67, 0x65];  // "image"
    let t_flavour: [u8; 7] = [0x66, 0x6c, 0x61, 0x76, 0x6f, 0x75, 0x72];  // "flavour"
    let t_anim: [u8; 4] = [0x61, 0x6e, 0x69, 0x6d];  // "anim"
    let t_achid: [u8; 13] = [
        0x61,
        0x63,
        0x68,
        0x69,
        0x65,
        0x76,
        0x65,
        0x6d,
        0x65,
        0x6e,
        0x74,
        0x69,
        0x64,
    ];  // "achievementid"
    let t_grand: [u8; 5] = [0x67, 0x72, 0x61, 0x6e, 0x64];  // "grand"
    let t_melancholy: [u8; 10] = [0x6d, 0x65, 0x6c, 0x61, 0x6e, 0x63, 0x68, 0x6f, 0x6c, 0x79];
    let t_vile: [u8; 4] = [0x76, 0x69, 0x6c, 0x65];  // "vile"
    let t_dl: [u8; 13] = [
        0x64,
        0x72,
        0x61,
        0x6d,
        0x61,
        0x74,
        0x69,
        0x63,
        0x6c,
        0x69,
        0x67,
        0x68,
        0x74,
    ];  // "dramaticlight"
    let t_dlc: [u8; 17] = [
        0x64,
        0x72,
        0x61,
        0x6d,
        0x61,
        0x74,
        0x69,
        0x63,
        0x6c,
        0x69,
        0x67,
        0x68,
        0x74,
        0x63,
        0x6f,
        0x6f,
        0x6c,
    ];  // "dramaticlightcool"
    let t_dle: [u8; 17] = [
        0x64,
        0x72,
        0x61,
        0x6d,
        0x61,
        0x74,
        0x69,
        0x63,
        0x6c,
        0x69,
        0x67,
        0x68,
        0x74,
        0x65,
        0x76,
        0x69,
        0x6c,
    ];  // "dramaticlightevil"
    let t_xxx: [u8; 3] = [0x58, 0x58, 0x58];  // "XXX"
    proof {
        assert(t_image@ =~= bytes_image());
        assert(t_flavour@ =~= bytes_flavour());
        assert(t_anim@ =~= bytes_anim());
        assert(t_achid@ =~= bytes_achievementid());
        assert(t_grand@ =~= bytes_grand());
        assert(ascii_lower_seq(bytes_grand()) =~= bytes_grand());
        assert(t_melancholy@ =~= bytes_melancholy());
        assert(ascii_lower_seq(bytes_melancholy()) =~= bytes_melancholy());
        assert(t_vile@ =~= bytes_vile());
        assert(ascii_lower_seq(bytes_vile()) =~= bytes_vile());
        assert(t_dl@ =~= bytes_dramaticlight());
        assert(ascii_lower_seq(bytes_dramaticlight()) =~= bytes_dramaticlight());
        assert(t_dlc@ =~= bytes_dramaticlightcool());
        assert(ascii_lower_seq(bytes_dramaticlightcool()) =~= bytes_dramaticlightcool());
        assert(t_dle@ =~= bytes_dramaticlightevil());
        assert(ascii_lower_seq(bytes_dramaticlightevil()) =~= bytes_dramaticlightevil());
        assert(t_xxx@ =~= bytes_sentinel());
    }
    let ghost fs = fields_view(fields@);
    // image: required, a string
    let image: Vec<u8> = match obj_find(&fields, t_image.as_slice()) {
        Option::None => {
            return Err(Fault::MissingKey { key: key_of(t_image.as_slice()) });
        },
        Option::Some(l) => match l {
            Literal::Str(sv) => dup_bytes(sv),
            _ => {
                return Err(
                    Fault::TypeMismatch { key: key_of(t_image.as_slice()) },
                );
            },
        },
    };
    // flavour: optional music kind
    let music: EndingMusicKind = match obj_find(&fields, t_flavour.as_slice()) {
        Option::None => EndingMusicKind::Grand,
        Option::Some(l) => match l {
            Literal::Str(sv) => {
                if bytes_eq_nc(sv, t_grand.as_slice()) {
                    EndingMusicKind::Grand
                } else if bytes_eq_nc(sv, t_melancholy.as_slice()) {
                    EndingMusicKind::Melancholy
                } else if bytes_eq_nc(sv, t_vile.as_slice()) {
                    EndingMusicKind::Vile
                } else {
                    return Err(
                        Fault::InvalidEnumValue {
                            key: key_of(t_flavour.as_slice()),
                        },
                    );
                }
            },
            _ => {
                return Err(
                    Fault::TypeMismatch { key: key_of(t_flavour.as_slice()) },
                );
            },
        },
    };
    // anim: optional animation kind
    let animation: EndingAnimationKind = match obj_find(&fields, t_anim.as_slice()) {
        Option::None => EndingAnimationKind::DramaticLight,
        Option::Some(l) => match l {
            Literal::Str(sv) => {
                if bytes_eq_nc(sv, t_dl.as_slice()) {
                    EndingAnimationKind::DramaticLight
                } else if bytes_eq_nc(sv, t_dlc.as_slice()) {
                    EndingAnimationKind::DramaticLightCool
                } else if bytes_eq_nc(sv, t_dle.as_slice()) {
                    EndingAnimationKind::DramaticLightEvil
                } else {
                    return Err(
                        Fault::InvalidEnumValue {
                            key: key_of(t_anim.as_slice()),
                        },
                    );
                }
            },
            _ => {
                return Err(
                    Fault::TypeMismatch { key: key_of(t_anim.as_slice()) },
                );
            },
        },
    };
    // achievementid: optional, a string; absent means the sentinel
    let achievement: Vec<u8> = match obj_find(&fields, t_achid.as_slice()) {
        Option::None => vec_of(t_xxx.as_slice()),
        Option::Some(l) => match l {
            Literal::Str(sv) => dup_bytes(sv),
            _ => {
                return Err(
                    Fault::TypeMismatch { key: key_of(t_achid.as_slice()) },
                );
            },
        },
    };
    Ok(Ending { id, label, description, image, music, animation, achievement })
}

/// The keyword `ending`.
pub open spec fn bytes_ending() -> Seq<u8> {
    seq![0x65u8, 0x6e, 0x64, 0x69, 0x6e, 0x67]
}

/// A whole ending declaration, scanned.
pub struct EndingDeclV {
    pub id: Seq<u8>,
    pub label: Seq<u8>,
    pub description: Seq<u8>,
    pub content: LitV,
}

/// An ending declaration at `i`:
/// `ending <id> <label> <description> <literal>`.
pub open spec fn ending_scan(s: Seq<u8>, i: int) -> Option<(int, EndingDeclV)> {
    let i0 = crate::parser::ws_scan(s, i);
    if !crate::parser::tag_nc_matches(s, i0, bytes_ending()) {
        None
    } else {
        match crate::parser::key_at(s, crate::parser::ws_scan(s, i0 + 6)) {
            Some((i3, id)) => match crate::parser::string_at(s, crate::parser::ws_scan(s, i3)) {
                Some((i5, label)) => match crate::parser::string_at(
                    s,
                    crate::parser::ws_scan(s, i5),
                ) {
                    Some((i7, description)) => match crate::literal::lit_scan(s, i7) {
                        Some((i8, content)) => Some(
                            (i8, EndingDeclV { id, label, description, content }),
                        ),
                        None => None,
                    },
                    None => None,
                },
                None => None,
            },
            None => None,
        }
    }
}

/// Parse an ending declaration:
/// `ending <id> <label> <description> <literal-object>`, then extract
/// the recognized keys. The grammar is exactly [`ending_scan`]; the
/// extraction is exactly [`ending_sem`]; a non-object body or an
/// extraction fault is a fatal `Fail`.
pub fn parse(s: &[u8], i: usize) -> (r: Result<(usize, crate::parser::Component), ParseError>)
    requires
        i <= s@.len(),
    ensures
        ending_scan(s@, i as int) is None ==> (r matches Err(e) && e is Syntax),
        ending_scan(s@, i as int) matches Some(q) ==> {
            &&& !(q.1.content is Object) ==> (r matches Err(e) && (
            e matches ParseError::Fail { fault, .. } && fault@ == FaultV::NotAnObject))
            &&& q.1.content matches LitV::Object(fs) ==> {
                &&& ending_sem(fs) matches Err(f) ==> (r matches Err(e) && (
                e matches ParseError::Fail { fault, .. } && fault@ == f))
                &&& ending_sem(fs) matches Ok(x) ==> (r matches Ok((j, c)) && j == q.0 && (
                c matches crate::parser::Component::Ending(e) && {
                    &&& e.id@ == q.1.id
                    &&& e.label@ == q.1.label
                    &&& e.description@ == q.1.description
                    &&& e.image@ == x.0
                    &&& e.music == x.1
                    &&& e.animation == x.2
                    &&& e.achievement@ == x.3
                }))
            }
        },
        r matches Ok((j, c)) ==> i < j <= s@.len() && (c matches crate::parser::Component::Ending(
            e,
        ) && crate::lantern::valid_key(e.id@)),
{
    let ending_kw: [u8; 6] = [0x65, 0x6e, 0x64, 0x69, 0x6e, 0x67];  // "ending"
    proof {
        assert(ending_kw@ =~= bytes_ending());
    }
    let i0 = crate::parser::skip_ws(s, i);
    let i1 = match crate::parser::p_tag_nc(s, i0, ending_kw.as_slice()) {
        Ok(j) => j,
        Err(e) => {
            return Err(e);
        },
    };
    let i2 = crate::parser::skip_ws(s, i1);
    let (i3, id) = match crate::parser::p_key(s, i2) {
        Ok(v) => v,
        Err(e) => {
            return Err(e);
        },
    };
    let i4 = crate::parser::skip_ws(s, i3);
    let (i5, label) = match crate::parser::p_string(s, i4) {
        Ok(v) => v,
        Err(e) => {
            return Err(e);
        },
    };
    let i6 = crate::parser::skip_ws(s, i5);
    let (i7, description) = match crate::parser::p_string(s, i6) {
        Ok(v) => v,
        Err(e) => {
            return Err(e);
        },
    };
    let (i8, content) = match crate::literal::parse(s, i7) {
        Ok(v) => v,
        Err(e) => {
            return Err(e);
        },
    };
    let ghost gv = content@;
    // the body must be a literal object
    let fields: Vec<(Vec<u8>, Literal)> = match content {
        Literal::Object(fv) => fv,
        Literal::Null => {
            return Err(ParseError::Fail { pos: i7, fault: Fault::NotAnObject });
        },
        Literal::Boolean(_) => {
            return Err(ParseError::Fail { pos: i7, fault: Fault::NotAnObject });
        },
        Literal::Number(_) => {
            return Err(ParseError::Fail { pos: i7, fault: Fault::NotAnObject });
        },
        Literal::Str(_) => {
            return Err(ParseError::Fail { pos: i7, fault: Fault::NotAnObject });
        },
        Literal::Array(_) => {
            return Err(ParseError::Fail { pos: i7, fault: Fault::NotAnObject });
        },
    };
    proof {
        assert(fields_view(fields@) =~= gv->Object_0);
    }
    match ending_from_fields(id, label, description, fields) {
        Ok(e) => Ok((i8, crate::parser::Component::Ending(Box::new(e)))),
        Err(f) => Err(ParseError::Fail { pos: i7, fault: f }),
    }
}

} // verus!
