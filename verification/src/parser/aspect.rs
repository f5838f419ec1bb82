//! The `aspect` component: signature, statement block, and semantic
//! construction of the [`Aspect`] record.

use vstd::prelude::*;
use crate::errors::Fault;
use crate::errors::FaultV;
use crate::errors::ParseError;
use crate::lantern::Aspect;
use crate::lantern::DefKey;
use crate::lantern::Probability;
use crate::lantern::Xtrigger;
use crate::lantern::valid_key;
use crate::lantern::XtriggerV;
use crate::lantern::dup_bytes;
use crate::lantern::opt_bytes;
use crate::lantern::opt_induce;
use crate::lantern::opt_key;
use crate::literal::LitV;
use crate::literal::Literal;
use crate::parser::bytes_description;
use crate::parser::bytes_icon;
use crate::parser::bytes_id;
use crate::parser::bytes_label;
use crate::parser::bytes_verbicon;
use crate::parser::find_key;
use crate::parser::has_key;
use crate::parser::others_view;
use crate::parser::xts_view;

verus! {

/// One statement of an aspect body.
#[derive(Debug)]
pub enum AspectStatement {
    /// `set <key> = <literal>`
    Assign { key: DefKey, value: Literal },
    /// `induce <key> <chance>`
    Induce { key: DefKey, chance: Probability },
    /// An `xtrigger` statement.
    Trigger { x: Xtrigger },
}

/// Ghost shape of an [`AspectStatement`].
pub enum AspectStatementV {
    Assign { key: Seq<u8>, value: LitV },
    Induce { key: Seq<u8>, chance: u8 },
    Trigger { x: XtriggerV },
}

impl View for AspectStatement {
    type V = AspectStatementV;

    open spec fn view(&self) -> AspectStatementV {
        match self {
            AspectStatement::Assign { key, value } => AspectStatementV::Assign {
                key: key@,
                value: value@,
            },
            AspectStatement::Induce { key, chance } => AspectStatementV::Induce {
                key: key@,
                chance: chance.spec_value(),
            },
            AspectStatement::Trigger { x } => AspectStatementV::Trigger { x: x@ },
        }
    }
}

/// View of a statement list.
pub open spec fn asp_stmts_view(v: Seq<AspectStatement>) -> Seq<AspectStatementV> {
    Seq::new(v.len(), |i: int| v[i]@)
}

/// The ghost state folded over an aspect body: the optional fields an
/// aspect's statements may fill, and the accumulated lists.
pub struct AspectSem {
    pub icon: Option<Seq<u8>>,
    pub verbicon: Option<Seq<u8>>,
    pub induces: Option<(Seq<u8>, u8)>,
    pub xtriggers: Seq<XtriggerV>,
    pub others: Seq<(Seq<u8>, LitV)>,
}

/// The state before any statement: every optional field unset.
pub open spec fn asp_init() -> AspectSem {
    AspectSem {
        icon: None,
        verbicon: None,
        induces: None,
        xtriggers: Seq::empty(),
        others: Seq::empty(),
    }
}

/// One statement applied to the state. `set` routes `icon` and
/// `verbicon` (string-typed, single assignment) to their fields,
/// rejects the signature-only keys, and collects every other key once
/// into the open bag; `induce` may appear at most once; `xtrigger`
/// statements accumulate in order.
pub open spec fn asp_step(st: AspectSem, stmt: AspectStatementV) -> Result<AspectSem, FaultV> {
    match stmt {
        AspectStatementV::Assign { key, value } => {
            if key == bytes_id() || key == bytes_label() || key == bytes_description() {
                Err(FaultV::ReservedKey { key })
            } else if key == bytes_icon() {
                if st.icon is Some {
                    Err(FaultV::DuplicateAssignment { key })
                } else {
                    match value {
                        LitV::Str(sv) => Ok(AspectSem { icon: Some(sv), ..st }),
                        _ => Err(FaultV::TypeMismatch { key }),
                    }
                }
            } else if key == bytes_verbicon() {
                if st.verbicon is Some {
                    Err(FaultV::DuplicateAssignment { key })
                } else {
                    match value {
                        LitV::Str(sv) => Ok(AspectSem { verbicon: Some(sv), ..st }),
                        _ => Err(FaultV::TypeMismatch { key }),
                    }
                }
            } else if has_key(st.others, key) {
                Err(FaultV::DuplicateAssignment { key })
            } else {
                Ok(AspectSem { others: st.others.push((key, value)), ..st })
            }
        },
        AspectStatementV::Induce { key, chance } => {
            if st.induces is Some {
                Err(FaultV::DuplicateInduce)
            } else {
                Ok(AspectSem { induces: Some((key, chance)), ..st })
            }
        },
        AspectStatementV::Trigger { x } => Ok(
            AspectSem { xtriggers: st.xtriggers.push(x), ..st },
        ),
    }
}

/// The whole body folded in source order; the first violating
/// statement's fault is the result.
pub open spec fn asp_fold(stmts: Seq<AspectStatementV>) -> Result<AspectSem, FaultV>
    decreases stmts.len(),
{
    if stmts.len() == 0 {
        Ok(asp_init())
    } else {
        match asp_fold(stmts.drop_last()) {
            Ok(st) => asp_step(st, stmts.last()),
            Err(f) => Err(f),
        }
    }
}

/// Once a prefix of the body faults, the whole body faults the same.
pub proof fn lemma_asp_fold_err_extends(stmts: Seq<AspectStatementV>, k: int)
    requires
        0 <= k <= stmts.len(),
        asp_fold(stmts.take(k)) is Err,
    ensures
        asp_fold(stmts) == asp_fold(stmts.take(k)),
    decreases stmts.len() - k,
{
    if k < stmts.len() {
        assert(stmts.take(k + 1).drop_last() =~= stmts.take(k));
        assert(asp_fold(stmts.take(k + 1)) == asp_fold(stmts.take(k)));
        lemma_asp_fold_err_extends(stmts, k + 1);
    } else {
        assert(stmts.take(k) =~= stmts);
    }
}

/// A body with two `set` statements for the same key never folds to a
/// record: repeated assignment is always a fault.
pub proof fn lemma_asp_no_silent_overwrite(stmts: Seq<AspectStatementV>, a: int, b: int, k: Seq<
    u8,
>)
    requires
        0 <= a < b < stmts.len(),
        stmts[a] matches AspectStatementV::Assign { key: ka, .. } && ka == k,
        stmts[b] matches AspectStatementV::Assign { key: kb, .. } && kb == k,
    ensures
        asp_fold(stmts) is Err,
{
    if asp_fold(stmts) is Ok {
        lemma_asp_assigned_key_marks(stmts, a, k);
        let sem = asp_fold(stmts.take(b)) -> Ok_0;
        assert(asp_fold(stmts.take(b + 1)).is_ok()) by {
            lemma_asp_fold_prefix_ok(stmts, b + 1);
        }
        assert(stmts.take(b + 1).drop_last() =~= stmts.take(b));
        assert(stmts.take(b + 1).last() == stmts[b]);
        assert(asp_step(sem, stmts[b]) is Err);
    }
}

/// If the whole body folds to a record, so does every prefix.
pub proof fn lemma_asp_fold_prefix_ok(stmts: Seq<AspectStatementV>, k: int)
    requires
        0 <= k <= stmts.len(),
        asp_fold(stmts) is Ok,
    ensures
        asp_fold(stmts.take(k)) is Ok,
{
    if asp_fold(stmts.take(k)) is Err {
        lemma_asp_fold_err_extends(stmts, k);
    }
}

/// After a successful fold of a prefix past an assignment of `k`, the
/// state records `k`: as the routed field for the recognized keys, or
/// in the open bag.
proof fn lemma_asp_assigned_key_marks(stmts: Seq<AspectStatementV>, a: int, k: Seq<u8>)
    requires
        0 <= a < stmts.len(),
        stmts[a] matches AspectStatementV::Assign { key: ka, .. } && ka == k,
    ensures
        forall|m: int| (a < m <= stmts.len() && (#[trigger] asp_fold(stmts.take(m))) is Ok)
            ==> asp_key_marked(asp_fold(stmts.take(m)) -> Ok_0, k),
{
    assert forall|m: int|
        (a < m <= stmts.len() && (#[trigger] asp_fold(stmts.take(m))) is Ok)
        implies asp_key_marked(asp_fold(stmts.take(m)) -> Ok_0, k) by {
        lemma_asp_assigned_key_marks_step(stmts, a, k, m);
    }
}

/// The state fact an assignment of `k` leaves behind.
pub open spec fn asp_key_marked(sem: AspectSem, k: Seq<u8>) -> bool {
    if k == bytes_icon() {
        sem.icon is Some
    } else if k == bytes_verbicon() {
        sem.verbicon is Some
    } else {
        has_key(sem.others, k)
    }
}

proof fn lemma_asp_assigned_key_marks_step(stmts: Seq<AspectStatementV>, a: int, k: Seq<u8>, m: int)
    requires
        0 <= a < stmts.len(),
        stmts[a] matches AspectStatementV::Assign { key: ka, .. } && ka == k,
        a < m <= stmts.len(),
        asp_fold(stmts.take(m)) is Ok,
    ensures
        asp_key_marked(asp_fold(stmts.take(m)) -> Ok_0, k),
    decreases m,
{
    assert(stmts.take(m).drop_last() =~= stmts.take(m - 1));
    assert(stmts.take(m).last() == stmts[m - 1]);
    let prev = asp_fold(stmts.take(m - 1));
    assert(prev is Ok);
    let psem = prev -> Ok_0;
    let sem = asp_fold(stmts.take(m)) -> Ok_0;
    if m - 1 == a {
        // the assignment itself marks the key: a reserved key would
        // have faulted, so `k` is not reserved here
        assert(asp_step(psem, stmts[a]) == Ok::<AspectSem, FaultV>(sem));
        if k == bytes_icon() {
        } else if k == bytes_verbicon() {
        } else {
            assert(sem.others == psem.others.push((k, stmts[a]->Assign_value)));
            assert(sem.others[sem.others.len() - 1].0 == k);
        }
    } else {
        lemma_asp_assigned_key_marks_step(stmts, a, k, m - 1);
        // one more step never clears a mark
        assert(asp_step(psem, stmts[m - 1]) == Ok::<AspectSem, FaultV>(sem));
        if !(k == bytes_icon()) && !(k == bytes_verbicon()) {
            assert(has_key(psem.others, k));
            let w = choose|i: int| 0 <= i < psem.others.len() && (#[trigger] psem.others[i]).0
                == k;
            match stmts[m - 1] {
                AspectStatementV::Assign { key: k2, value } => {
                    if sem.others != psem.others {
                        assert(sem.others == psem.others.push((k2, value)));
                        assert(sem.others[w].0 == k);
                    }
                },
                _ => {
                    assert(sem.others == psem.others);
                },
            }
            assert(has_key(sem.others, k));
        }
    }
}

/// A successful fold never binds a key twice in the open bag.
pub proof fn lemma_asp_fold_others_distinct(stmts: Seq<AspectStatementV>)
    requires
        asp_fold(stmts) is Ok,
    ensures
        crate::parser::others_distinct((asp_fold(stmts) -> Ok_0).others),
    decreases stmts.len(),
{
    if stmts.len() > 0 {
        lemma_asp_fold_others_distinct(stmts.drop_last());
        let prev = asp_fold(stmts.drop_last()) -> Ok_0;
        let sem = asp_fold(stmts) -> Ok_0;
        if sem.others != prev.others {
            match stmts.last() {
                AspectStatementV::Assign { key, value } => {
                    assert(sem.others == prev.others.push((key, value)));
                    assert(!has_key(prev.others, key));
                    assert forall|i: int, j: int| 0 <= i < j < sem.others.len() implies (
                    #[trigger] sem.others[i]).0 != (#[trigger] sem.others[j]).0 by {
                        if j < sem.others.len() - 1 {
                            assert(sem.others[i] == prev.others[i]);
                            assert(sem.others[j] == prev.others[j]);
                        } else {
                            assert(sem.others[i] == prev.others[i]);
                        }
                    }
                },
                _ => {},
            }
        }
    }
}

/// Build an [`Aspect`] from its signature parts and its body, exactly
/// as [`asp_fold`] describes: the fold's record on success, its first
/// fault otherwise.
pub fn aspect_from_tokens(
    id: DefKey,
    label: Vec<u8>,
    description: Vec<u8>,
    hidden: bool,
    decays_to: Option<DefKey>,
    statements: Vec<AspectStatement>,
) -> (r: Result<Aspect, Fault>)
    ensures
        asp_fold(asp_stmts_view(statements@)) matches Ok(sem) ==> (r matches Ok(a) && {
            &&& a.id@ == id@
            &&& a.label@ == label@
            &&& a.description@ == description@
            &&& a.hidden == hidden
            &&& opt_key(a.decays_to) == opt_key(decays_to)
            &&& opt_bytes(a.icon) == sem.icon
            &&& opt_bytes(a.verbicon) == sem.verbicon
            &&& opt_induce(a.induces) == sem.induces
            &&& xts_view(a.xtriggers@) == sem.xtriggers
            &&& others_view(a.others@) == sem.others
        }),
        asp_fold(asp_stmts_view(statements@)) matches Err(f) ==> (r matches Err(g) && g@ == f),
{
    let ghost sv = asp_stmts_view(statements@);
    let n: usize = statements.len();
    let mut icon: Option<Vec<u8>> = None;
    let mut verbicon: Option<Vec<u8>> = None;
    let mut induces: Option<(DefKey, Probability)> = None;
    let mut xtriggers: Vec<Xtrigger> = Vec::new();
    let mut others: Vec<(DefKey, Literal)> = Vec::new();
    let mut i: usize = 0;
    let t_id: [u8; 2] = [0x69, 0x64];  // "id"
    let t_label: [u8; 5] = [0x6c, 0x61, 0x62, 0x65, 0x6c];  // "label"
    let t_desc: [u8; 11] = [
        0x64,
        0x65,
        0x73,
        0x63,
        0x72,
        0x69,
        0x70,
        0x74,
        0x69,
        0x6f,
        0x6e,
    ];  // "description"
    let t_icon: [u8; 4] = [0x69, 0x63, 0x6f, 0x6e];  // "icon"
    let t_verbicon: [u8; 8] = [0x76, 0x65, 0x72, 0x62, 0x69, 0x63, 0x6f, 0x6e];  // "verbicon"
    proof {
        assert(t_id@ =~= bytes_id());
        assert(t_label@ =~= bytes_label());
        assert(t_desc@ =~= bytes_description());
        assert(t_icon@ =~= bytes_icon());
        assert(t_verbicon@ =~= bytes_verbicon());
        assert(sv.take(0) =~= Seq::<AspectStatementV>::empty());
        assert(xts_view(xtriggers@) =~= Seq::<XtriggerV>::empty());
        assert(others_view(others@) =~= Seq::<(Seq<u8>, LitV)>::empty());
    }
    while i < n
        invariant
            i <= n,
            n == statements.len(),
            sv == asp_stmts_view(statements@),
            sv.len() == n,
            t_id@ == bytes_id(),
            t_label@ == bytes_label(),
            t_desc@ == bytes_description(),
            t_icon@ == bytes_icon(),
            t_verbicon@ == bytes_verbicon(),
            asp_fold(sv.take(i as int)) == Ok::<AspectSem, FaultV>(
                AspectSem {
                    icon: opt_bytes(icon),
                    verbicon: opt_bytes(verbicon),
                    induces: opt_induce(induces),
                    xtriggers: xts_view(xtriggers@),
                    others: others_view(others@),
                },
            ),
        decreases n - i,
    {
        proof {
            assert(sv.take(i + 1).drop_last() =~= sv.take(i as int));
            assert(sv.take(i + 1).last() == sv[i as int]);
            assert(sv[i as int] == statements@[i as int]@);
        }
        match &statements[i] {
            AspectStatement::Assign { key, value } => {
                if key.is_text(t_id.as_slice()) || key.is_text(t_label.as_slice())
                    || key.is_text(t_desc.as_slice()) {
                    proof {
                        lemma_asp_fold_err_extends(sv, i + 1);
                    }
                    return Err(Fault::ReservedKey { key: key.duplicate() });
                } else if key.is_text(t_icon.as_slice()) {
                    if icon.is_some() {
                        proof {
                            lemma_asp_fold_err_extends(sv, i + 1);
                        }
                        return Err(Fault::DuplicateAssignment { key: key.duplicate() });
                    }
                    match value {
                        Literal::Str(sb) => {
                            icon = Some(dup_bytes(sb));
                        },
                        _ => {
                            proof {
                                lemma_asp_fold_err_extends(sv, i + 1);
                            }
                            return Err(Fault::TypeMismatch { key: key.duplicate() });
                        },
                    }
                } else if key.is_text(t_verbicon.as_slice()) {
                    if verbicon.is_some() {
                        proof {
                            lemma_asp_fold_err_extends(sv, i + 1);
                        }
                        return Err(Fault::DuplicateAssignment { key: key.duplicate() });
                    }
                    match value {
                        Literal::Str(sb) => {
                            verbicon = Some(dup_bytes(sb));
                        },
                        _ => {
                            proof {
                                lemma_asp_fold_err_extends(sv, i + 1);
                            }
                            return Err(Fault::TypeMismatch { key: key.duplicate() });
                        },
                    }
                } else if find_key(&others, key) {
                    proof {
                        lemma_asp_fold_err_extends(sv, i + 1);
                    }
                    return Err(Fault::DuplicateAssignment { key: key.duplicate() });
                } else {
                    let ghost old_others = others@;
                    others.push((key.duplicate(), value.duplicate()));
                    proof {
                        assert(others_view(others@) =~= others_view(old_others).push(
                            (key@, value@),
                        ));
                    }
                }
            },
            AspectStatement::Induce { key, chance } => {
                if induces.is_some() {
                    proof {
                        lemma_asp_fold_err_extends(sv, i + 1);
                    }
                    return Err(Fault::DuplicateInduce);
                }
                induces = Some((key.duplicate(), *chance));
            },
            AspectStatement::Trigger { x } => {
                let ghost old_xts = xtriggers@;
                xtriggers.push(x.clone());
                proof {
                    assert(xts_view(xtriggers@) =~= xts_view(old_xts).push(x@));
                }
            },
        }
        i = i + 1;
    }
    proof {
        assert(sv.take(n as int) =~= sv);
    }
    Ok(
        Aspect {
            id,
            label,
            description,
            icon,
            verbicon,
            induces,
            decays_to,
            hidden,
            xtriggers,
            others,
        },
    )
}

/// The keyword `set`.
pub open spec fn bytes_set() -> Seq<u8> {
    seq![0x73u8, 0x65, 0x74]
}

/// The keyword `induce`.
pub open spec fn bytes_induce() -> Seq<u8> {
    seq![0x69u8, 0x6e, 0x64, 0x75, 0x63, 0x65]
}

/// The keyword `aspect`.
pub open spec fn bytes_aspect() -> Seq<u8> {
    seq![0x61u8, 0x73, 0x70, 0x65, 0x63, 0x74]
}

/// A `set <key> = <literal>` statement at `i`.
pub open spec fn asp_set_scan(s: Seq<u8>, i: int) -> Option<(int, AspectStatementV)> {
    let i0 = crate::parser::ws_scan(s, i);
    if crate::parser::tag_nc_matches(s, i0, bytes_set()) {
        match crate::parser::key_at(s, crate::parser::ws_scan(s, i0 + 3)) {
            Some((i3, k)) => {
                let i4 = crate::parser::ws_scan(s, i3);
                if i4 < s.len() && s[i4] == 0x3d {
                    match crate::literal::lit_scan(s, i4 + 1) {
                        Some((i6, v)) => Some((i6, AspectStatementV::Assign { key: k, value: v })),
                        None => None,
                    }
                } else {
                    None
                }
            },
            None => None,
        }
    } else {
        None
    }
}

/// An `induce <key> <chance>` statement at `i`.
pub open spec fn asp_induce_scan(s: Seq<u8>, i: int) -> Option<(int, AspectStatementV)> {
    let i0 = crate::parser::ws_scan(s, i);
    if crate::parser::tag_nc_matches(s, i0, bytes_induce()) {
        match crate::parser::key_at(s, crate::parser::ws_scan(s, i0 + 6)) {
            Some((i3, k)) => {
                match crate::parser::chance_at(s, crate::parser::ws_scan(s, i3)) {
                    Some((i5, c)) => Some((i5, AspectStatementV::Induce { key: k, chance: c })),
                    None => None,
                }
            },
            None => None,
        }
    } else {
        None
    }
}

/// One aspect statement at `i`: `set`, `induce`, or `xtrigger`, tried
/// in that order.
pub open spec fn asp_stmt_scan(s: Seq<u8>, i: int) -> Option<(int, AspectStatementV)> {
    match asp_set_scan(s, i) {
        Some(r) => Some(r),
        None => match asp_induce_scan(s, i) {
            Some(r) => Some(r),
            None => match crate::parser::xtrigger_scan(s, i) {
                Some((j, x)) => Some((j, AspectStatementV::Trigger { x })),
                None => None,
            },
        },
    }
}

/// An aspect's statement block from just past its `{` to just past
/// its `}`: statements separated by line breaks.
pub open spec fn asp_body_scan(s: Seq<u8>, i: int) -> Option<(int, Seq<AspectStatementV>)>
    decreases s.len() - i when 0 <= i <= s.len()
{
    let c0 = crate::parser::ws_scan(s, i);
    if !(i <= c0 <= s.len()) {
        // whitespace skipping never retreats; this arm is never taken
        None
    } else if c0 < s.len() && s[c0] == 0x7d {
        Some(((c0 + 1) as int, Seq::empty()))
    } else {
        match asp_stmt_scan(s, c0) {
            Some((j, st)) => if c0 < j <= s.len() {
                match crate::parser::sep_scan(s, j) {
                    Some(j2) => if j <= j2 <= s.len() {
                        match asp_body_scan(s, j2) {
                            Some((j3, rest)) => Some((j3, seq![st] + rest)),
                            None => None,
                        }
                    } else {
                        // the separator never retreats; never taken
                        None
                    },
                    None => None,
                }
            } else {
                // a scanned statement always advances; never taken
                None
            },
            None => None,
        }
    }
}

/// A whole aspect declaration, scanned.
pub struct AspectDeclV {
    pub hidden: bool,
    pub id: Seq<u8>,
    pub label: Seq<u8>,
    pub description: Seq<u8>,
    pub decays_to: Option<Seq<u8>>,
    pub stmts: Seq<AspectStatementV>,
}

/// An aspect declaration at `i`:
/// `[hidden|?] aspect <id> <label> <description> [-> <decay>]
/// { <statements> }`.
pub open spec fn aspect_scan(s: Seq<u8>, i: int) -> Option<(int, AspectDeclV)> {
    let h0 = crate::parser::ws_scan(s, i);
    let hm = match crate::parser::hidden_at(s, h0) {
        Some(j) => (j, true),
        None => (h0, false),
    };
    let i2 = crate::parser::ws_scan(s, hm.0);
    if !crate::parser::tag_nc_matches(s, i2, bytes_aspect()) {
        None
    } else {
        match crate::parser::key_at(s, crate::parser::ws_scan(s, i2 + 6)) {
            Some((i5, id)) => match crate::parser::string_at(s, crate::parser::ws_scan(s, i5)) {
                Some((i7, label)) => match crate::parser::string_at(
                    s,
                    crate::parser::ws_scan(s, i7),
                ) {
                    Some((i9, description)) => {
                        let d0 = crate::parser::ws_scan(s, i9);
                        let dm: (int, Option<Seq<u8>>, bool) = if crate::parser::tag_matches(
                            s,
                            d0,
                            crate::parser::bytes_arrow(),
                        ) {
                            match crate::parser::key_at(s, crate::parser::ws_scan(s, d0 + 2)) {
                                Some((j3, k)) => (j3, Some(k), true),
                                None => (0, None, false),
                            }
                        } else {
                            (i9, None, true)
                        };
                        if !dm.2 {
                            None
                        } else {
                            let b0 = crate::parser::ws_scan(s, dm.0);
                            if b0 < s.len() && s[b0] == 0x7b {
                                match asp_body_scan(s, b0 + 1) {
                                    Some((j, stmts)) => Some(
                                        (
                                            j,
                                            AspectDeclV {
                                                hidden: hm.1,
                                                id,
                                                label,
                                                description,
                                                decays_to: dm.1,
                                                stmts,
                                            },
                                        ),
                                    ),
                                    None => None,
                                }
                            } else {
                                None
                            }
                        }
                    },
                    None => None,
                },
                None => None,
            },
            None => None,
        }
    }
}

/// Parse a `set <key> = <literal>` statement, exactly as
/// [`asp_set_scan`] describes.
fn p_asp_set(s: &[u8], i: usize) -> (r: Result<(usize, AspectStatement), ParseError>)
    requires
        i <= s@.len(),
    ensures
        r is Ok <==> asp_set_scan(s@, i as int) is Some,
        r matches Ok((j, st)) ==> asp_set_scan(s@, i as int) == Some((j as int, st@)) && i < j
            <= s@.len(),
        r matches Err(e) ==> e is Syntax,
{
    let set_kw: [u8; 3] = [0x73, 0x65, 0x74];  // "set"
    proof {
        assert(set_kw@ =~= bytes_set());
    }
    let i0 = crate::parser::skip_ws(s, i);
    let i1 = match crate::parser::p_tag_nc(s, i0, set_kw.as_slice()) {
        Ok(j) => j,
        Err(e) => {
            return Err(e);
        },
    };
    let i2 = crate::parser::skip_ws(s, i1);
    let (i3, key) = match crate::parser::p_key(s, i2) {
        Ok(v) => v,
        Err(e) => {
            return Err(e);
        },
    };
    let i4 = crate::parser::skip_ws(s, i3);
    let i5 = match crate::parser::p_byte(s, i4, 0x3d) {
        Ok(j) => j,
        Err(e) => {
            return Err(e);
        },
    };
    match crate::literal::parse(s, i5) {
        Ok((i6, value)) => Ok((i6, AspectStatement::Assign { key, value })),
        Err(e) => Err(e),
    }
}

/// Parse an `induce <key> <chance>` statement, exactly as
/// [`asp_induce_scan`] describes.
fn p_asp_induce(s: &[u8], i: usize) -> (r: Result<(usize, AspectStatement), ParseError>)
    requires
        i <= s@.len(),
    ensures
        r is Ok <==> asp_induce_scan(s@, i as int) is Some,
        r matches Ok((j, st)) ==> asp_induce_scan(s@, i as int) == Some((j as int, st@)) && i < j
            <= s@.len(),
        r matches Err(e) ==> e is Syntax,
{
    let induce_kw: [u8; 6] = [0x69, 0x6e, 0x64, 0x75, 0x63, 0x65];  // "induce"
    proof {
        assert(induce_kw@ =~= bytes_induce());
    }
    let i0 = crate::parser::skip_ws(s, i);
    let i1 = match crate::parser::p_tag_nc(s, i0, induce_kw.as_slice()) {
        Ok(j) => j,
        Err(e) => {
            return Err(e);
        },
    };
    let i2 = crate::parser::skip_ws(s, i1);
    let (i3, key) = match crate::parser::p_key(s, i2) {
        Ok(v) => v,
        Err(e) => {
            return Err(e);
        },
    };
    let i4 = crate::parser::skip_ws(s, i3);
    match crate::parser::p_chance(s, i4) {
        Ok((i5, chance)) => Ok((i5, AspectStatement::Induce { key, chance })),
        Err(e) => Err(e),
    }
}

/// Parse one aspect statement: `set`, `induce`, or `xtrigger`, tried
/// in that order, exactly as [`asp_stmt_scan`] describes; a mismatch
/// of all three is a syntax error.
pub fn p_aspect_statement(s: &[u8], i: usize) -> (r: Result<(usize, AspectStatement), ParseError>)
    requires
        i <= s@.len(),
    ensures
        r is Ok <==> asp_stmt_scan(s@, i as int) is Some,
        r matches Ok((j, st)) ==> asp_stmt_scan(s@, i as int) == Some((j as int, st@)) && i < j
            <= s@.len(),
        r matches Err(e) ==> e is Syntax,
{
    match p_asp_set(s, i) {
        Ok(v) => {
            return Ok(v);
        },
        Err(_) => {},
    }
    match p_asp_induce(s, i) {
        Ok(v) => {
            return Ok(v);
        },
        Err(_) => {},
    }
    match crate::parser::p_xtrigger(s, i) {
        Ok((j, x)) => Ok((j, AspectStatement::Trigger { x })),
        Err(e) => Err(e),
    }
}

/// Parse an aspect declaration:
/// `[hidden|?] aspect <id> <label> <description> [-> <decay>] { ... }`,
/// then build the record. The grammar is exactly [`aspect_scan`]; the
/// record is exactly the scanned body's [`asp_fold`]. A body that
/// violates a record invariant is a fatal `Fail`, never recovered by
/// backtracking.
#[verifier::loop_isolation(false)]
pub fn parse(s: &[u8], i: usize) -> (r: Result<(usize, crate::parser::Component), ParseError>)
    requires
        i <= s@.len(),
    ensures
        aspect_scan(s@, i as int) is None ==> (r matches Err(e) && e is Syntax),
        aspect_scan(s@, i as int) matches Some(q) ==> {
            &&& asp_fold(q.1.stmts) matches Err(f) ==> (r matches Err(e) && (
            e matches ParseError::Fail { fault, .. } && fault@ == f))
            &&& asp_fold(q.1.stmts) matches Ok(sem) ==> (r matches Ok((j, c)) && j == q.0 && (
            c matches crate::parser::Component::Aspect(a) && {
                &&& a.id@ == q.1.id
                &&& a.label@ == q.1.label
                &&& a.description@ == q.1.description
                &&& a.hidden == q.1.hidden
                &&& opt_key(a.decays_to) == q.1.decays_to
                &&& opt_bytes(a.icon) == sem.icon
                &&& opt_bytes(a.verbicon) == sem.verbicon
                &&& opt_induce(a.induces) == sem.induces
                &&& xts_view(a.xtriggers@) == sem.xtriggers
                &&& others_view(a.others@) == sem.others
            }))
        },
        r matches Ok((j, c)) ==> i < j <= s@.len() && (c matches crate::parser::Component::Aspect(
            a,
        ) && a.id.wf() && crate::parser::others_distinct(others_view(a.others@))),
{
    let aspect_kw: [u8; 6] = [0x61, 0x73, 0x70, 0x65, 0x63, 0x74];  // "aspect"
    proof {
        assert(aspect_kw@ =~= bytes_aspect());
    }
    let n: usize = s.len();
    let h0 = crate::parser::skip_ws(s, i);
    let (i1, hidden) = match crate::parser::p_hidden(s, h0) {
        Ok(j) => (j, true),
        Err(_) => (h0, false),
    };
    let i2 = crate::parser::skip_ws(s, i1);
    let i3 = match crate::parser::p_tag_nc(s, i2, aspect_kw.as_slice()) {
        Ok(j) => j,
        Err(e) => {
            return Err(e);
        },
    };
    let i4 = crate::parser::skip_ws(s, i3);
    let (i5, id) = match crate::parser::p_key(s, i4) {
        Ok(v) => v,
        Err(e) => {
            return Err(e);
        },
    };
    let i6 = crate::parser::skip_ws(s, i5);
    let (i7, label) = match crate::parser::p_string(s, i6) {
        Ok(v) => v,
        Err(e) => {
            return Err(e);
        },
    };
    let i8 = crate::parser::skip_ws(s, i7);
    let (i9, description) = match crate::parser::p_string(s, i8) {
        Ok(v) => v,
        Err(e) => {
            return Err(e);
        },
    };
    // optional decay marker `-> <key>`
    let arrow: [u8; 2] = [0x2d, 0x3e];
    let d0 = crate::parser::skip_ws(s, i9);
    let (i10, decays_to) = match crate::parser::p_tag(s, d0, arrow.as_slice()) {
        Ok(j1) => {
            let j2 = crate::parser::skip_ws(s, j1);
            match crate::parser::p_key(s, j2) {
                Ok((j3, k)) => (j3, Some(k)),
                Err(e) => {
                    return Err(e);
                },
            }
        },
        Err(_) => (i9, None),
    };
    let b0 = crate::parser::skip_ws(s, i10);
    let b1 = match crate::parser::p_byte(s, b0, 0x7b) {
        Ok(j) => j,
        Err(e) => {
            return Err(e);
        },
    };
    let mut statements: Vec<AspectStatement> = Vec::new();
    let mut cur: usize = b1;
    proof {
        crate::parser::lemma_cat_scan_empty(asp_body_scan(s@, b1 as int));
        assert(asp_stmts_view(statements@) =~= Seq::<AspectStatementV>::empty());
    }
    loop
        invariant
            i < cur <= s@.len(),
            valid_key(id@),
            crate::parser::cat_scan(
                asp_stmts_view(statements@),
                asp_body_scan(s@, cur as int),
            ) == asp_body_scan(s@, b1 as int),
        decreases s@.len() - cur,
    {
        let c0 = crate::parser::skip_ws(s, cur);
        if c0 < s.len() && s[c0] == 0x7d {
            let ghost sv = asp_stmts_view(statements@);
            match aspect_from_tokens(id, label, description, hidden, decays_to, statements) {
                Ok(a) => {
                    proof {
                        lemma_asp_fold_others_distinct(sv);
                    }
                    return Ok(
                        (c0 + 1, crate::parser::Component::Aspect(Box::new(a))),
                    );
                },
                Err(f) => {
                    return Err(ParseError::Fail { pos: c0, fault: f });
                },
            }
        }
        match p_aspect_statement(s, c0) {
            Ok((j, st)) => {
                match crate::parser::stmt_sep(s, j) {
                    Ok(j2) => {
                        proof {
                            crate::parser::lemma_cat_scan_assoc(
                                asp_stmts_view(statements@),
                                seq![st@],
                                asp_body_scan(s@, j2 as int),
                            );
                            assert(asp_stmts_view(statements@) + seq![st@] =~= asp_stmts_view(
                                statements@.push(st),
                            ));
                        }
                        statements.push(st);
                        cur = j2;
                    },
                    Err(e) => {
                        return Err(e);
                    },
                }
            },
            Err(e) => {
                return Err(e);
            },
        }
    }
}

} // verus!
