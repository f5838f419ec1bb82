//! The `card` component: signature (with its declared aspect list),
//! statement block, and semantic construction of the [`Card`] record.

use vstd::prelude::*;
use crate::errors::Fault;
use crate::errors::FaultV;
use crate::errors::ParseError;
use crate::lantern::Card;
use crate::lantern::DefKey;
use crate::lantern::Probability;
use crate::lantern::Slot;
use crate::lantern::SlotV;
use crate::lantern::Xtrigger;
use crate::lantern::XtriggerV;
use crate::lantern::valid_key;
use crate::lantern::dup_bytes;
use crate::lantern::opt_bytes;
use crate::lantern::opt_induce;
use crate::lantern::opt_key;
use crate::literal::LitV;
use crate::literal::Literal;
use crate::parser::bytes_description;
use crate::parser::bytes_icon;
use crate::parser::bytes_id;
use crate::parser::bytes_label;
use crate::parser::bytes_resaturate;
use crate::parser::bytes_verbicon;
use crate::parser::find_key;
use crate::parser::has_key;
use crate::parser::others_view;
use crate::parser::xts_view;

verus! {

/// One statement of a card body.
#[derive(Debug)]
pub enum CardStatement {
    /// `set <key> = <literal>`
    Assign { key: DefKey, value: Literal },
    /// `induce <key> <chance>`
    Induce { key: DefKey, chance: Probability },
    /// `unique` (flag) or `unique <group>`
    Unique { group: Option<DefKey> },
    /// `<verb> -> <slot-def>`
    SlotDef { verb: DefKey, slot: Slot },
    /// An `xtrigger` statement.
    Trigger { x: Xtrigger },
}

/// Ghost shape of a [`CardStatement`].
pub enum CardStatementV {
    Assign { key: Seq<u8>, value: LitV },
    Induce { key: Seq<u8>, chance: u8 },
    Unique { group: Option<Seq<u8>> },
    SlotDef { verb: Seq<u8>, slot: SlotV },
    Trigger { x: XtriggerV },
}

impl View for CardStatement {
    type V = CardStatementV;

    open spec fn view(&self) -> CardStatementV {
        match self {
            CardStatement::Assign { key, value } => CardStatementV::Assign {
                key: key@,
                value: value@,
            },
            CardStatement::Induce { key, chance } => CardStatementV::Induce {
                key: key@,
                chance: chance.spec_value(),
            },
            CardStatement::Unique { group } => CardStatementV::Unique {
                group: crate::lantern::opt_key(*group),
            },
            CardStatement::SlotDef { verb, slot } => CardStatementV::SlotDef {
                verb: verb@,
                slot: slot@,
            },
            CardStatement::Trigger { x } => CardStatementV::Trigger { x: x@ },
        }
    }
}

/// View of a statement list.
pub open spec fn card_stmts_view(v: Seq<CardStatement>) -> Seq<CardStatementV> {
    Seq::new(v.len(), |i: int| v[i]@)
}

/// View of a card's slot groups.
pub open spec fn slots_view(v: Seq<(DefKey, Vec<Slot>)>) -> Seq<(Seq<u8>, Seq<SlotV>)> {
    Seq::new(v.len(), |i: int| (v[i].0@, Seq::new(v[i].1@.len(), |j: int| v[i].1@[j]@)))
}

/// No two slot groups share a verb.
pub open spec fn slots_keys_distinct(s: Seq<(Seq<u8>, Seq<SlotV>)>) -> bool {
    forall|i: int, j: int| 0 <= i < j < s.len() ==> (#[trigger] s[i]).0 != (#[trigger] s[j]).0
}

/// Append one slot under its verb: to the verb's existing group, else
/// as a new group at the end.
pub open spec fn slots_append(
    s: Seq<(Seq<u8>, Seq<SlotV>)>,
    verb: Seq<u8>,
    sl: SlotV,
) -> Seq<(Seq<u8>, Seq<SlotV>)> {
    if exists|i: int| 0 <= i < s.len() && (#[trigger] s[i]).0 == verb {
        let i = choose|i: int| 0 <= i < s.len() && (#[trigger] s[i]).0 == verb;
        s.update(i, (verb, s[i].1.push(sl)))
    } else {
        s.push((verb, seq![sl]))
    }
}

/// The ghost state folded over a card body.
pub struct CardSem {
    pub icon: Option<Seq<u8>>,
    pub verbicon: Option<Seq<u8>>,
    pub resaturate: Option<bool>,
    pub induces: Option<(Seq<u8>, u8)>,
    pub unique: Option<bool>,
    pub uniqueness_group: Option<Seq<u8>>,
    pub slots: Seq<(Seq<u8>, Seq<SlotV>)>,
    pub xtriggers: Seq<XtriggerV>,
    pub others: Seq<(Seq<u8>, LitV)>,
}

/// The state before any statement: every optional field unset.
pub open spec fn card_init() -> CardSem {
    CardSem {
        icon: None,
        verbicon: None,
        resaturate: None,
        induces: None,
        unique: None,
        uniqueness_group: None,
        slots: Seq::empty(),
        xtriggers: Seq::empty(),
        others: Seq::empty(),
    }
}

/// One statement applied to the state. `set` routes `icon`, `verbicon`
/// (string-typed) and `resaturate` (boolean-typed) with single
/// assignment, rejects the signature-only keys, and collects other
/// keys once; `induce` at most once; `unique` in either form at most
/// once over both, the flag and the group being mutually exclusive;
/// slots accumulate under their verb; `xtrigger` statements accumulate
/// in order.
pub open spec fn card_step(st: CardSem, stmt: CardStatementV) -> Result<CardSem, FaultV> {
    match stmt {
        CardStatementV::Assign { key, value } => {
            if key == bytes_id() || key == bytes_label() || key == bytes_description() {
                Err(FaultV::ReservedKey { key })
            } else if key == bytes_icon() {
                if st.icon is Some {
                    Err(FaultV::DuplicateAssignment { key })
                } else {
                    match value {
                        LitV::Str(sv) => Ok(CardSem { icon: Some(sv), ..st }),
                        _ => Err(FaultV::TypeMismatch { key }),
                    }
                }
            } else if key == bytes_verbicon() {
                if st.verbicon is Some {
                    Err(FaultV::DuplicateAssignment { key })
                } else {
                    match value {
                        LitV::Str(sv) => Ok(CardSem { verbicon: Some(sv), ..st }),
                        _ => Err(FaultV::TypeMismatch { key }),
                    }
                }
            } else if key == bytes_resaturate() {
                if st.resaturate is Some {
                    Err(FaultV::DuplicateAssignment { key })
                } else {
                    match value {
                        LitV::Boolean(b) => Ok(CardSem { resaturate: Some(b), ..st }),
                        _ => Err(FaultV::TypeMismatch { key }),
                    }
                }
            } else if has_key(st.others, key) {
                Err(FaultV::DuplicateAssignment { key })
            } else {
                Ok(CardSem { others: st.others.push((key, value)), ..st })
            }
        },
        CardStatementV::Induce { key, chance } => {
            if st.induces is Some {
                Err(FaultV::DuplicateInduce)
            } else {
                Ok(CardSem { induces: Some((key, chance)), ..st })
            }
        },
        CardStatementV::Unique { group } => {
            if st.unique is Some || st.uniqueness_group is Some {
                Err(FaultV::UniqueConflict)
            } else {
                match group {
                    Some(g) => Ok(CardSem { uniqueness_group: Some(g), ..st }),
                    None => Ok(CardSem { unique: Some(true), ..st }),
                }
            }
        },
        CardStatementV::SlotDef { verb, slot } => Ok(
            CardSem { slots: slots_append(st.slots, verb, slot), ..st },
        ),
        CardStatementV::Trigger { x } => Ok(CardSem { xtriggers: st.xtriggers.push(x), ..st }),
    }
}

/// The whole body folded in source order; the first violating
/// statement's fault is the result.
pub open spec fn card_fold(stmts: Seq<CardStatementV>) -> Result<CardSem, FaultV>
    decreases stmts.len(),
{
    if stmts.len() == 0 {
        Ok(card_init())
    } else {
        match card_fold(stmts.drop_last()) {
            Ok(st) => card_step(st, stmts.last()),
            Err(f) => Err(f),
        }
    }
}

/// Once a prefix of the body faults, the whole body faults the same.
pub proof fn lemma_card_fold_err_extends(stmts: Seq<CardStatementV>, k: int)
    requires
        0 <= k <= stmts.len(),
        card_fold(stmts.take(k)) is Err,
    ensures
        card_fold(stmts) == card_fold(stmts.take(k)),
    decreases stmts.len() - k,
{
    if k < stmts.len() {
        assert(stmts.take(k + 1).drop_last() =~= stmts.take(k));
        assert(card_fold(stmts.take(k + 1)) == card_fold(stmts.take(k)));
        lemma_card_fold_err_extends(stmts, k + 1);
    } else {
        assert(stmts.take(k) =~= stmts);
    }
}

/// Appending a slot keeps the verbs of the groups distinct.
proof fn lemma_slots_append_distinct(s: Seq<(Seq<u8>, Seq<SlotV>)>, verb: Seq<u8>, sl: SlotV)
    requires
        slots_keys_distinct(s),
    ensures
        slots_keys_distinct(slots_append(s, verb, sl)),
{
    let b = slots_append(s, verb, sl);
    if exists|i: int| 0 <= i < s.len() && (#[trigger] s[i]).0 == verb {
        let w = choose|i: int| 0 <= i < s.len() && (#[trigger] s[i]).0 == verb;
        assert forall|i: int, j: int| 0 <= i < j < b.len() implies (#[trigger] b[i]).0 != (
        #[trigger] b[j]).0 by {
            assert(b[i].0 == s[i].0 && b[j].0 == s[j].0);
        }
    } else {
        assert forall|i: int, j: int| 0 <= i < j < b.len() implies (#[trigger] b[i]).0 != (
        #[trigger] b[j]).0 by {
            if j < b.len() - 1 {
                assert(b[i] == s[i] && b[j] == s[j]);
            } else {
                assert(b[i] == s[i]);
            }
        }
    }
}

/// A successful fold never binds a key twice in the open bag, and no
/// two slot groups share a verb.
pub proof fn lemma_card_fold_wf(stmts: Seq<CardStatementV>)
    requires
        card_fold(stmts) is Ok,
    ensures
        crate::parser::others_distinct((card_fold(stmts) -> Ok_0).others),
        slots_keys_distinct((card_fold(stmts) -> Ok_0).slots),
    decreases stmts.len(),
{
    if stmts.len() > 0 {
        lemma_card_fold_wf(stmts.drop_last());
        let prev = card_fold(stmts.drop_last()) -> Ok_0;
        let sem = card_fold(stmts) -> Ok_0;
        if sem.others != prev.others {
            match stmts.last() {
                CardStatementV::Assign { key, value } => {
                    assert(sem.others == prev.others.push((key, value)));
                    assert(!has_key(prev.others, key));
                    assert forall|i: int, j: int| 0 <= i < j < sem.others.len() implies (
                    #[trigger] sem.others[i]).0 != (#[trigger] sem.others[j]).0 by {
                        if j < sem.others.len() - 1 {
                            assert(sem.others[i] == prev.others[i]);
                            assert(sem.others[j] == prev.others[j]);
                        } else {
                            assert(sem.others[i] == prev.others[i]);
                        }
                    }
                },
                _ => {},
            }
        }
        if sem.slots != prev.slots {
            match stmts.last() {
                CardStatementV::SlotDef { verb, slot } => {
                    lemma_slots_append_distinct(prev.slots, verb, slot);
                },
                _ => {},
            }
        }
    }
}

/// The declared aspect list carries no aspect twice.
pub open spec fn aspects_view(v: Seq<(DefKey, u32)>) -> Seq<(Seq<u8>, u32)> {
    Seq::new(v.len(), |i: int| (v[i].0@, v[i].1))
}

pub open spec fn distinct_aspect_keys(s: Seq<(Seq<u8>, u32)>) -> bool {
    forall|i: int, j: int| 0 <= i < j < s.len() ==> (#[trigger] s[i]).0 != (#[trigger] s[j]).0
}

/// Check a card's declared aspect list: it passes through unchanged
/// exactly when no aspect repeats; a repeat is a `DuplicateAspect`
/// fault naming the repeated aspect, and the card is never built.
pub fn check_card_aspects(pairs: Vec<(DefKey, u32)>) -> (r: Result<Vec<(DefKey, u32)>, Fault>)
    ensures
        r is Ok <==> distinct_aspect_keys(aspects_view(pairs@)),
        r matches Ok(v) ==> v@ == pairs@,
        r matches Err(f) ==> f@ matches FaultV::DuplicateAspect { key } && has_aspect_key(
            aspects_view(pairs@),
            key,
        ),
{
    let n: usize = pairs.len();
    let mut j: usize = 0;
    while j < n
        invariant
            j <= n,
            n == pairs.len(),
            forall|a: int, b: int| 0 <= a < b < j ==> (#[trigger] aspects_view(pairs@)[a]).0 != (
            #[trigger] aspects_view(pairs@)[b]).0,
        decreases n - j,
    {
        let mut a: usize = 0;
        while a < j
            invariant
                a <= j < n,
                n == pairs.len(),
                forall|q: int| 0 <= q < a ==> (#[trigger] aspects_view(pairs@)[q]).0 != aspects_view(
                    pairs@,
                )[j as int].0,
            decreases j - a,
        {
            if pairs[a].0.eq_key(&pairs[j].0) {
                assert(aspects_view(pairs@)[a as int].0 == aspects_view(pairs@)[j as int].0);
                return Err(Fault::DuplicateAspect { key: pairs[j].0.duplicate() });
            }
            assert(aspects_view(pairs@)[a as int].0 == pairs@[a as int].0@);
            assert(aspects_view(pairs@)[j as int].0 == pairs@[j as int].0@);
            a = a + 1;
        }
        j = j + 1;
    }
    Ok(pairs)
}

/// Whether the list declares this aspect at all.
pub open spec fn has_aspect_key(s: Seq<(Seq<u8>, u32)>, k: Seq<u8>) -> bool {
    exists|i: int| 0 <= i < s.len() && (#[trigger] s[i]).0 == k
}

/// Build a [`Card`] from its signature parts and its body, exactly as
/// [`card_fold`] describes: the fold's record on success, its first
/// fault otherwise. The `unique` flag and `resaturate` default to
/// false where their statements are absent.
pub fn card_from_tokens(
    id: DefKey,
    label: Vec<u8>,
    description: Vec<u8>,
    hidden: bool,
    decays_to: Option<DefKey>,
    lifetime: Option<u32>,
    aspects: Vec<(DefKey, u32)>,
    statements: Vec<CardStatement>,
) -> (r: Result<Card, Fault>)
    ensures
        card_fold(card_stmts_view(statements@)) matches Ok(sem) ==> (r matches Ok(c) && {
            &&& c.id@ == id@
            &&& c.label@ == label@
            &&& c.description@ == description@
            &&& c.hidden == hidden
            &&& opt_key(c.decays_to) == opt_key(decays_to)
            &&& c.lifetime == lifetime
            &&& aspects_view(c.aspects@) == aspects_view(aspects@)
            &&& opt_bytes(c.icon) == sem.icon
            &&& opt_bytes(c.verbicon) == sem.verbicon
            &&& c.resaturate == (sem.resaturate == Some(true))
            &&& opt_induce(c.induces) == sem.induces
            &&& c.unique == (sem.unique == Some(true))
            &&& opt_key(c.uniqueness_group) == sem.uniqueness_group
            &&& slots_view(c.slots@) == sem.slots
            &&& xts_view(c.xtriggers@) == sem.xtriggers
            &&& others_view(c.others@) == sem.others
        }),
        card_fold(card_stmts_view(statements@)) matches Err(f) ==> (r matches Err(g) && g@ == f),
{
    let ghost sv = card_stmts_view(statements@);
    let n: usize = statements.len();
    let mut icon: Option<Vec<u8>> = None;
    let mut verbicon: Option<Vec<u8>> = None;
    let mut resaturate: Option<bool> = None;
    let mut induces: Option<(DefKey, Probability)> = None;
    let mut unique: Option<bool> = None;
    let mut uniqueness_group: Option<DefKey> = None;
    let mut slots: Vec<(DefKey, Vec<Slot>)> = Vec::new();
    let mut xtriggers: Vec<Xtrigger> = Vec::new();
    let mut others: Vec<(DefKey, Literal)> = Vec::new();
    let mut i: usize = 0;
    let t_id: [u8; 2] = [0x69, 0x64];  // "id"
    let t_label: [u8; 5] = [0x6c, 0x61, 0x62, 0x65, 0x6c];  // "label"
    let t_desc: [u8; 11] = [
        0x64,
        0x65,
        0x73,
        0x63,
        0x72,
        0x69,
        0x70,
        0x74,
        0x69,
        0x6f,
        0x6e,
    ];  // "description"
    let t_icon: [u8; 4] = [0x69, 0x63, 0x6f, 0x6e];  // "icon"
    let t_verbicon: [u8; 8] = [0x76, 0x65, 0x72, 0x62, 0x69, 0x63, 0x6f, 0x6e];  // "verbicon"
    let t_resat: [u8; 10] = [0x72, 0x65, 0x73, 0x61, 0x74, 0x75, 0x72, 0x61, 0x74, 0x65];  // "resaturate"
    proof {
        assert(t_id@ =~= bytes_id());
        assert(t_label@ =~= bytes_label());
        assert(t_desc@ =~= bytes_description());
        assert(t_icon@ =~= bytes_icon());
        assert(t_verbicon@ =~= bytes_verbicon());
        assert(t_resat@ =~= bytes_resaturate());
        assert(sv.take(0) =~= Seq::<CardStatementV>::empty());
        assert(xts_view(xtriggers@) =~= Seq::<XtriggerV>::empty());
        assert(others_view(others@) =~= Seq::<(Seq<u8>, LitV)>::empty());
        assert(slots_view(slots@) =~= Seq::<(Seq<u8>, Seq<SlotV>)>::empty());
    }
    while i < n
        invariant
            i <= n,
            n == statements.len(),
            sv == card_stmts_view(statements@),
            sv.len() == n,
            t_id@ == bytes_id(),
            t_label@ == bytes_label(),
            t_desc@ == bytes_description(),
            t_icon@ == bytes_icon(),
            t_verbicon@ == bytes_verbicon(),
            t_resat@ == bytes_resaturate(),
            slots_keys_distinct(slots_view(slots@)),
            card_fold(sv.take(i as int)) == Ok::<CardSem, FaultV>(
                CardSem {
                    icon: opt_bytes(icon),
                    verbicon: opt_bytes(verbicon),
                    resaturate,
                    induces: opt_induce(induces),
                    unique,
                    uniqueness_group: opt_key(uniqueness_group),
                    slots: slots_view(slots@),
                    xtriggers: xts_view(xtriggers@),
                    others: others_view(others@),
                },
            ),
        decreases n - i,
    {
        proof {
            assert(sv.take(i + 1).drop_last() =~= sv.take(i as int));
            assert(sv.take(i + 1).last() == sv[i as int]);
            assert(sv[i as int] == statements@[i as int]@);
        }
        match &statements[i] {
            CardStatement::Assign { key, value } => {
                if key.is_text(t_id.as_slice()) || key.is_text(t_label.as_slice())
                    || key.is_text(t_desc.as_slice()) {
                    proof {
                        lemma_card_fold_err_extends(sv, i + 1);
                    }
                    return Err(Fault::ReservedKey { key: key.duplicate() });
                } else if key.is_text(t_icon.as_slice()) {
                    if icon.is_some() {
                        proof {
                            lemma_card_fold_err_extends(sv, i + 1);
                        }
                        return Err(Fault::DuplicateAssignment { key: key.duplicate() });
                    }
                    match value {
                        Literal::Str(sb) => {
                            icon = Some(dup_bytes(sb));
                        },
                        _ => {
                            proof {
                                lemma_card_fold_err_extends(sv, i + 1);
                            }
                            return Err(Fault::TypeMismatch { key: key.duplicate() });
                        },
                    }
                } else if key.is_text(t_verbicon.as_slice()) {
                    if verbicon.is_some() {
                        proof {
                            lemma_card_fold_err_extends(sv, i + 1);
                        }
                        return Err(Fault::DuplicateAssignment { key: key.duplicate() });
                    }
                    match value {
                        Literal::Str(sb) => {
                            verbicon = Some(dup_bytes(sb));
                        },
                        _ => {
                            proof {
                                lemma_card_fold_err_extends(sv, i + 1);
                            }
                            return Err(Fault::TypeMismatch { key: key.duplicate() });
                        },
                    }
                } else if key.is_text(t_resat.as_slice()) {
                    if resaturate.is_some() {
                        proof {
                            lemma_card_fold_err_extends(sv, i + 1);
                        }
                        return Err(Fault::DuplicateAssignment { key: key.duplicate() });
                    }
                    match value {
                        Literal::Boolean(b) => {
                            resaturate = Some(*b);
                        },
                        _ => {
                            proof {
                                lemma_card_fold_err_extends(sv, i + 1);
                            }
                            return Err(Fault::TypeMismatch { key: key.duplicate() });
                        },
                    }
                } else if find_key(&others, key) {
                    proof {
                        lemma_card_fold_err_extends(sv, i + 1);
                    }
                    return Err(Fault::DuplicateAssignment { key: key.duplicate() });
                } else {
                    let ghost old_others = others@;
                    others.push((key.duplicate(), value.duplicate()));
                    proof {
                        assert(others_view(others@) =~= others_view(old_others).push(
                            (key@, value@),
                        ));
                    }
                }
            },
            CardStatement::Induce { key, chance } => {
                if induces.is_some() {
                    proof {
                        lemma_card_fold_err_extends(sv, i + 1);
                    }
                    return Err(Fault::DuplicateInduce);
                }
                induces = Some((key.duplicate(), *chance));
            },
            CardStatement::Unique { group } => {
                if unique.is_some() || uniqueness_group.is_some() {
                    proof {
                        lemma_card_fold_err_extends(sv, i + 1);
                    }
                    return Err(Fault::UniqueConflict);
                }
                match group {
                    Some(g) => {
                        uniqueness_group = Some(g.duplicate());
                    },
                    None => {
                        unique = Some(true);
                    },
                }
            },
            CardStatement::SlotDef { verb, slot } => {
                let ghost old_slots = slots_view(slots@);
                let m: usize = slots.len();
                let mut idx: usize = 0;
                let mut found: bool = false;
                while idx < m && !found
                    invariant
                        idx <= m,
                        m == slots.len(),
                        found ==> idx < m && (slots_view(slots@)[idx as int]).0 == verb@,
                        !found ==> forall|q: int| 0 <= q < idx
                            ==> (#[trigger] slots_view(slots@)[q]).0 != verb@,
                    decreases m - idx + (if found {
                        0int
                    } else {
                        1int
                    }),
                {
                    if slots[idx].0.eq_key(verb) {
                        assert(slots_view(slots@)[idx as int].0 == verb@);
                        found = true;
                    } else {
                        assert(slots_view(slots@)[idx as int].0 == slots@[idx as int].0@);
                        idx = idx + 1;
                    }
                }
                if found {
                    let mut pair = slots.remove(idx);
                    pair.1.push(slot.clone());
                    slots.insert(idx, pair);
                    proof {
                        let iw = choose|q: int| 0 <= q < old_slots.len() && (
                        #[trigger] old_slots[q]).0 == verb@;
                        assert(iw == idx as int);
                        assert(slots_view(slots@) =~~= slots_append(old_slots, verb@, slot@));
                        assert(slots_keys_distinct(slots_view(slots@)));
                    }
                } else {
                    let mut group: Vec<Slot> = Vec::new();
                    group.push(slot.clone());
                    slots.push((verb.duplicate(), group));
                    proof {
                        assert(!(exists|q: int| 0 <= q < old_slots.len() && (
                        #[trigger] old_slots[q]).0 == verb@));
                        assert(slots_view(slots@) =~~= slots_append(old_slots, verb@, slot@));
                        assert(slots_keys_distinct(slots_view(slots@)));
                    }
                }
            },
            CardStatement::Trigger { x } => {
                let ghost old_xts = xtriggers@;
                xtriggers.push(x.clone());
                proof {
                    assert(xts_view(xtriggers@) =~= xts_view(old_xts).push(x@));
                }
            },
        }
        i = i + 1;
    }
    proof {
        assert(sv.take(n as int) =~= sv);
    }
    let resat_flag: bool = match &resaturate {
        Some(b) => *b,
        None => false,
    };
    let unique_flag: bool = match &unique {
        Some(b) => *b,
        None => false,
    };
    let c = Card {
        id,
        label,
        description,
        icon,
        verbicon,
        induces,
        decays_to,
        hidden,
        aspects,
        lifetime,
        resaturate: resat_flag,
        unique: unique_flag,
        uniqueness_group,
        slots,
        xtriggers,
        others,
    };
    Ok(c)
}

/// The keyword `card`.
pub open spec fn bytes_card() -> Seq<u8> {
    seq![0x63u8, 0x61, 0x72, 0x64]
}

/// The keyword `unique`.
pub open spec fn bytes_unique() -> Seq<u8> {
    seq![0x75u8, 0x6e, 0x69, 0x71, 0x75, 0x65]
}

/// A `set <key> = <literal>` statement at `i`.
pub open spec fn card_set_scan(s: Seq<u8>, i: int) -> Option<(int, CardStatementV)> {
    let i0 = crate::parser::ws_scan(s, i);
    if crate::parser::tag_nc_matches(s, i0, crate::parser::aspect::bytes_set()) {
        match crate::parser::key_at(s, crate::parser::ws_scan(s, i0 + 3)) {
            Some((i3, k)) => {
                let i4 = crate::parser::ws_scan(s, i3);
                if i4 < s.len() && s[i4] == 0x3d {
                    match crate::literal::lit_scan(s, i4 + 1) {
                        Some((i6, v)) => Some((i6, CardStatementV::Assign { key: k, value: v })),
                        None => None,
                    }
                } else {
                    None
                }
            },
            None => None,
        }
    } else {
        None
    }
}

/// An `induce <key> <chance>` statement at `i`.
pub open spec fn card_induce_scan(s: Seq<u8>, i: int) -> Option<(int, CardStatementV)> {
    let i0 = crate::parser::ws_scan(s, i);
    if crate::parser::tag_nc_matches(s, i0, crate::parser::aspect::bytes_induce()) {
        match crate::parser::key_at(s, crate::parser::ws_scan(s, i0 + 6)) {
            Some((i3, k)) => {
                match crate::parser::chance_at(s, crate::parser::ws_scan(s, i3)) {
                    Some((i5, c)) => Some((i5, CardStatementV::Induce { key: k, chance: c })),
                    None => None,
                }
            },
            None => None,
        }
    } else {
        None
    }
}

/// A `unique [<group>]` statement at `i`; the optional group must
/// stand on the same line.
pub open spec fn card_unique_scan(s: Seq<u8>, i: int) -> Option<(int, CardStatementV)> {
    let i0 = crate::parser::ws_scan(s, i);
    if crate::parser::tag_nc_matches(s, i0, bytes_unique()) {
        match crate::parser::key_at(s, crate::parser::inline_end(s, i0 + 6)) {
            Some((i3, g)) => Some((i3, CardStatementV::Unique { group: Some(g) })),
            None => Some((i0 + 6, CardStatementV::Unique { group: None })),
        }
    } else {
        None
    }
}

/// A `<verb> -> <slot-def>` statement at `i`.
pub open spec fn card_slot_scan(s: Seq<u8>, i: int) -> Option<(int, CardStatementV)> {
    match crate::parser::key_at(s, crate::parser::ws_scan(s, i)) {
        Some((i1, verb)) => {
            let i2 = crate::parser::ws_scan(s, i1);
            if crate::parser::tag_matches(s, i2, crate::parser::bytes_arrow()) {
                match crate::parser::slot_scan(s, i2 + 2) {
                    Some((i4, sl)) => Some((i4, CardStatementV::SlotDef { verb, slot: sl })),
                    None => None,
                }
            } else {
                None
            }
        },
        None => None,
    }
}

/// One card statement at `i`: `set`, `induce`, `unique`, a slot
/// definition, or an `xtrigger`, tried in that order.
pub open spec fn card_stmt_scan(s: Seq<u8>, i: int) -> Option<(int, CardStatementV)> {
    match card_set_scan(s, i) {
        Some(r) => Some(r),
        None => match card_induce_scan(s, i) {
            Some(r) => Some(r),
            None => match card_unique_scan(s, i) {
                Some(r) => Some(r),
                None => match card_slot_scan(s, i) {
                    Some(r) => Some(r),
                    None => match crate::parser::xtrigger_scan(s, i) {
                        Some((j, x)) => Some((j, CardStatementV::Trigger { x })),
                        None => None,
                    },
                },
            },
        },
    }
}

/// A card's statement block from just past its `{` to just past its
/// `}`.
pub open spec fn card_body_scan(s: Seq<u8>, i: int) -> Option<(int, Seq<CardStatementV>)>
    decreases s.len() - i when 0 <= i <= s.len()
{
    let c0 = crate::parser::ws_scan(s, i);
    if !(i <= c0 <= s.len()) {
        // whitespace skipping never retreats; this arm is never taken
        None
    } else if c0 < s.len() && s[c0] == 0x7d {
        Some(((c0 + 1) as int, Seq::empty()))
    } else {
        match card_stmt_scan(s, c0) {
            Some((j, st)) => if c0 < j <= s.len() {
                match crate::parser::sep_scan(s, j) {
                    Some(j2) => if j <= j2 <= s.len() {
                        match card_body_scan(s, j2) {
                            Some((j3, rest)) => Some((j3, seq![st] + rest)),
                            None => None,
                        }
                    } else {
                        // the separator never retreats; never taken
                        None
                    },
                    None => None,
                }
            } else {
                // a scanned statement always advances; never taken
                None
            },
            None => None,
        }
    }
}

/// The rest of a card's aspect list starting at an entry, through the
/// closing `)`: `<key>[:<amount>]`, an omitted amount being 1.
pub open spec fn card_aspect_items_scan(s: Seq<u8>, i: int) -> Option<(int, Seq<(Seq<u8>, u32)>)>
    decreases s.len() - i when 0 <= i <= s.len()
{
    match crate::parser::key_at(s, crate::parser::ws_scan(s, i)) {
        Some((c1, k)) => if i < c1 <= s.len() {
            let c2 = crate::parser::ws_scan(s, c1);
            let am: (int, u32, bool) = if c2 < s.len() && s[c2] == 0x3a {
                match crate::parser::u32_at(s, crate::parser::ws_scan(s, c2 + 1)) {
                    Some((j, v)) => (j, v, true),
                    None => (0, 0, false),
                }
            } else {
                (c1, 1u32, true)
            };
            if !am.2 {
                None
            } else if !(i < am.0 <= s.len()) {
                // every entry advances; this arm is never taken
                None
            } else {
                let c4 = crate::parser::ws_scan(s, am.0);
                if !(am.0 <= c4 <= s.len()) {
                    // whitespace skipping never retreats; never taken
                    None
                } else if c4 < s.len() && s[c4] == 0x2c {
                    match card_aspect_items_scan(s, c4 + 1) {
                        Some((j5, rest)) => Some((j5, seq![(k, am.1)] + rest)),
                        None => None,
                    }
                } else if c4 < s.len() && s[c4] == 0x29 {
                    Some(((c4 + 1) as int, seq![(k, am.1)]))
                } else {
                    None
                }
            }
        } else {
            // a scanned key always advances; never taken
            None
        },
        None => None,
    }
}

/// A card's parenthesized aspect list at `i`.
pub open spec fn card_aspects_scan(s: Seq<u8>, i: int) -> Option<(int, Seq<(Seq<u8>, u32)>)> {
    let i0 = crate::parser::ws_scan(s, i);
    if i0 < s.len() && s[i0] == 0x28 {
        let first = crate::parser::ws_scan(s, i0 + 1);
        if first < s.len() && s[first] == 0x29 {
            Some(((first + 1) as int, Seq::empty()))
        } else {
            card_aspect_items_scan(s, i0 + 1)
        }
    } else {
        None
    }
}

/// A card's signature through its aspect list.
pub struct CardSigV {
    pub hidden: bool,
    pub id: Seq<u8>,
    pub label: Seq<u8>,
    pub description: Seq<u8>,
    pub pairs: Seq<(Seq<u8>, u32)>,
    pub rest: int,
}

/// A card signature at `i`:
/// `[hidden|?] card <id> <title> [<description>] (<aspects>)`.
pub open spec fn card_sig_scan(s: Seq<u8>, i: int) -> Option<CardSigV> {
    let h0 = crate::parser::ws_scan(s, i);
    let hm = match crate::parser::hidden_at(s, h0) {
        Some(j) => (j, true),
        None => (h0, false),
    };
    let i2 = crate::parser::ws_scan(s, hm.0);
    if !crate::parser::tag_nc_matches(s, i2, bytes_card()) {
        None
    } else {
        match crate::parser::key_at(s, crate::parser::ws_scan(s, i2 + 4)) {
            Some((i5, id)) => match crate::parser::string_at(s, crate::parser::ws_scan(s, i5)) {
                Some((i7, label)) => {
                    let dm: (int, Seq<u8>) = match crate::parser::string_at(
                        s,
                        crate::parser::ws_scan(s, i7),
                    ) {
                        Some((j, d)) => (j, d),
                        None => (i7, Seq::empty()),
                    };
                    match card_aspects_scan(s, dm.0) {
                        Some((i9, pairs)) => Some(
                            CardSigV {
                                hidden: hm.1,
                                id,
                                label,
                                description: dm.1,
                                pairs,
                                rest: i9,
                            },
                        ),
                        None => None,
                    }
                },
                None => None,
            },
            None => None,
        }
    }
}

/// A whole card declaration, scanned.
pub struct CardDeclV {
    pub sig: CardSigV,
    pub decays_to: Option<Seq<u8>>,
    pub lifetime: Option<u32>,
    pub stmts: Seq<CardStatementV>,
}

/// A card declaration at `i`: the signature, an optional
/// `-> [<decay>] [<lifetime>]`, and the statement block.
pub open spec fn card_scan(s: Seq<u8>, i: int) -> Option<(int, CardDeclV)> {
    match card_sig_scan(s, i) {
        Some(sig) => {
            let e0 = crate::parser::ws_scan(s, sig.rest);
            let dm: (int, Option<Seq<u8>>, Option<u32>) = if crate::parser::tag_matches(
                s,
                e0,
                crate::parser::bytes_arrow(),
            ) {
                let km: (int, Option<Seq<u8>>) = match crate::parser::key_at(
                    s,
                    crate::parser::ws_scan(s, e0 + 2),
                ) {
                    Some((j3, k)) => (j3, Some(k)),
                    None => (e0 + 2, None),
                };
                match crate::parser::u32_at(s, crate::parser::ws_scan(s, km.0)) {
                    Some((j5, v)) => (j5, km.1, Some(v)),
                    None => (km.0, km.1, None),
                }
            } else {
                (sig.rest, None, None)
            };
            let b0 = crate::parser::ws_scan(s, dm.0);
            if b0 < s.len() && s[b0] == 0x7b {
                match card_body_scan(s, b0 + 1) {
                    Some((j, stmts)) => Some(
                        (j, CardDeclV { sig, decays_to: dm.1, lifetime: dm.2, stmts }),
                    ),
                    None => None,
                }
            } else {
                None
            }
        },
        None => None,
    }
}

/// Parse a `set <key> = <literal>` statement, exactly as
/// [`card_set_scan`] describes.
fn p_card_set(s: &[u8], i: usize) -> (r: Result<(usize, CardStatement), ParseError>)
    requires
        i <= s@.len(),
    ensures
        r is Ok <==> card_set_scan(s@, i as int) is Some,
        r matches Ok((j, st)) ==> card_set_scan(s@, i as int) == Some((j as int, st@)) && i < j
            <= s@.len(),
        r matches Err(e) ==> e is Syntax,
{
    let set_kw: [u8; 3] = [0x73, 0x65, 0x74];  // "set"
    proof {
        assert(set_kw@ =~= crate::parser::aspect::bytes_set());
    }
    let i0 = crate::parser::skip_ws(s, i);
    let i1 = match crate::parser::p_tag_nc(s, i0, set_kw.as_slice()) {
        Ok(j) => j,
        Err(e) => {
            return Err(e);
        },
    };
    let i2 = crate::parser::skip_ws(s, i1);
    let (i3, key) = match crate::parser::p_key(s, i2) {
        Ok(v) => v,
        Err(e) => {
            return Err(e);
        },
    };
    let i4 = crate::parser::skip_ws(s, i3);
    let i5 = match crate::parser::p_byte(s, i4, 0x3d) {
        Ok(j) => j,
        Err(e) => {
            return Err(e);
        },
    };
    match crate::literal::parse(s, i5) {
        Ok((i6, value)) => Ok((i6, CardStatement::Assign { key, value })),
        Err(e) => Err(e),
    }
}

/// Parse an `induce <key> <chance>` statement, exactly as
/// [`card_induce_scan`] describes.
fn p_card_induce(s: &[u8], i: usize) -> (r: Result<(usize, CardStatement), ParseError>)
    requires
        i <= s@.len(),
    ensures
        r is Ok <==> card_induce_scan(s@, i as int) is Some,
        r matches Ok((j, st)) ==> card_induce_scan(s@, i as int) == Some((j as int, st@)) && i < j
            <= s@.len(),
        r matches Err(e) ==> e is Syntax,
{
    let induce_kw: [u8; 6] = [0x69, 0x6e, 0x64, 0x75, 0x63, 0x65];  // "induce"
    proof {
        assert(induce_kw@ =~= crate::parser::aspect::bytes_induce());
    }
    let i0 = crate::parser::skip_ws(s, i);
    let i1 = match crate::parser::p_tag_nc(s, i0, induce_kw.as_slice()) {
        Ok(j) => j,
        Err(e) => {
            return Err(e);
        },
    };
    let i2 = crate::parser::skip_ws(s, i1);
    let (i3, key) = match crate::parser::p_key(s, i2) {
        Ok(v) => v,
        Err(e) => {
            return Err(e);
        },
    };
    let i4 = crate::parser::skip_ws(s, i3);
    match crate::parser::p_chance(s, i4) {
        Ok((i5, chance)) => Ok((i5, CardStatement::Induce { key, chance })),
        Err(e) => Err(e),
    }
}

/// Parse a `unique [<group>]` statement, exactly as
/// [`card_unique_scan`] describes; the optional group must stand on
/// the same line.
fn p_card_unique(s: &[u8], i: usize) -> (r: Result<(usize, CardStatement), ParseError>)
    requires
        i <= s@.len(),
    ensures
        r is Ok <==> card_unique_scan(s@, i as int) is Some,
        r matches Ok((j, st)) ==> card_unique_scan(s@, i as int) == Some((j as int, st@)) && i < j
            <= s@.len(),
        r matches Err(e) ==> e is Syntax,
{
    let unique_kw: [u8; 6] = [0x75, 0x6e, 0x69, 0x71, 0x75, 0x65];  // "unique"
    proof {
        assert(unique_kw@ =~= bytes_unique());
    }
    let i0 = crate::parser::skip_ws(s, i);
    let i1 = match crate::parser::p_tag_nc(s, i0, unique_kw.as_slice()) {
        Ok(j) => j,
        Err(e) => {
            return Err(e);
        },
    };
    let i2 = crate::parser::skip_inline(s, i1);
    match crate::parser::p_key(s, i2) {
        Ok((i3, g)) => Ok((i3, CardStatement::Unique { group: Some(g) })),
        Err(_) => Ok((i1, CardStatement::Unique { group: None })),
    }
}

/// Parse a `<verb> -> <slot-def>` statement, exactly as
/// [`card_slot_scan`] describes.
fn p_card_slot(s: &[u8], i: usize) -> (r: Result<(usize, CardStatement), ParseError>)
    requires
        i <= s@.len(),
    ensures
        r is Ok <==> card_slot_scan(s@, i as int) is Some,
        r matches Ok((j, st)) ==> card_slot_scan(s@, i as int) == Some((j as int, st@)) && i < j
            <= s@.len(),
        r matches Err(e) ==> e is Syntax,
{
    let arrow: [u8; 2] = [0x2d, 0x3e];  // "->"
    let i0 = crate::parser::skip_ws(s, i);
    let (i1, verb) = match crate::parser::p_key(s, i0) {
        Ok(v) => v,
        Err(e) => {
            return Err(e);
        },
    };
    let i2 = crate::parser::skip_ws(s, i1);
    let i3 = match crate::parser::p_tag(s, i2, arrow.as_slice()) {
        Ok(j) => j,
        Err(e) => {
            return Err(e);
        },
    };
    match crate::parser::p_slot(s, i3) {
        Ok((i4, slot)) => Ok((i4, CardStatement::SlotDef { verb, slot })),
        Err(e) => Err(e),
    }
}

/// Parse one card statement: `set`, `induce`, `unique`, a slot
/// definition, or an `xtrigger`, tried in that order, exactly as
/// [`card_stmt_scan`] describes.
pub fn p_card_statement(s: &[u8], i: usize) -> (r: Result<(usize, CardStatement), ParseError>)
    requires
        i <= s@.len(),
    ensures
        r is Ok <==> card_stmt_scan(s@, i as int) is Some,
        r matches Ok((j, st)) ==> card_stmt_scan(s@, i as int) == Some((j as int, st@)) && i < j
            <= s@.len(),
        r matches Err(e) ==> e is Syntax,
{
    match p_card_set(s, i) {
        Ok(v) => {
            return Ok(v);
        },
        Err(_) => {},
    }
    match p_card_induce(s, i) {
        Ok(v) => {
            return Ok(v);
        },
        Err(_) => {},
    }
    match p_card_unique(s, i) {
        Ok(v) => {
            return Ok(v);
        },
        Err(_) => {},
    }
    match p_card_slot(s, i) {
        Ok(v) => {
            return Ok(v);
        },
        Err(_) => {},
    }
    match crate::parser::p_xtrigger(s, i) {
        Ok((j, x)) => Ok((j, CardStatement::Trigger { x })),
        Err(e) => Err(e),
    }
}

/// Parse the parenthesized aspect list of a card signature:
/// `( [<key>[:<amount>] [, ...]] )`, an omitted amount being 1,
/// exactly as [`card_aspects_scan`] describes.
#[verifier::loop_isolation(false)]
pub fn p_card_aspects(s: &[u8], i: usize) -> (r: Result<(usize, Vec<(DefKey, u32)>), ParseError>)
    requires
        i <= s@.len(),
    ensures
        r is Ok <==> card_aspects_scan(s@, i as int) is Some,
        r matches Ok((j, v)) ==> card_aspects_scan(s@, i as int) == Some(
            (j as int, aspects_view(v@)),
        ) && i < j <= s@.len(),
        r matches Err(e) ==> e is Syntax,
{
    let n: usize = s.len();
    let i0 = crate::parser::skip_ws(s, i);
    let i1 = match crate::parser::p_byte(s, i0, 0x28) {
        Ok(j) => j,
        Err(e) => {
            return Err(e);
        },
    };
    let mut pairs: Vec<(DefKey, u32)> = Vec::new();
    let first = crate::parser::skip_ws(s, i1);
    if first < n && s[first] == 0x29 {
        proof {
            assert(aspects_view(pairs@) =~= Seq::<(Seq<u8>, u32)>::empty());
        }
        return Ok((first + 1, pairs));
    }
    let mut cur: usize = i1;
    proof {
        crate::parser::lemma_cat_scan_empty(card_aspect_items_scan(s@, i1 as int));
        assert(aspects_view(pairs@) =~= Seq::<(Seq<u8>, u32)>::empty());
    }
    loop
        invariant
            i < cur <= s@.len(),
            crate::parser::cat_scan(
                aspects_view(pairs@),
                card_aspect_items_scan(s@, cur as int),
            ) == card_aspect_items_scan(s@, i1 as int),
        decreases s@.len() - cur,
    {
        let c0 = crate::parser::skip_ws(s, cur);
        let (c1, key) = match crate::parser::p_key(s, c0) {
            Ok(v) => v,
            Err(e) => {
                return Err(e);
            },
        };
        let c2 = crate::parser::skip_ws(s, c1);
        let (c3, amount) = if c2 < s.len() && s[c2] == 0x3a {
            let c2b = crate::parser::skip_ws(s, c2 + 1);
            match crate::parser::p_u32(s, c2b) {
                Ok(v) => v,
                Err(e) => {
                    return Err(e);
                },
            }
        } else {
            (c1, 1u32)
        };
        let c4 = crate::parser::skip_ws(s, c3);
        if c4 < s.len() && s[c4] == 0x2c {
            proof {
                crate::parser::lemma_cat_scan_assoc(
                    aspects_view(pairs@),
                    seq![(key@, amount)],
                    card_aspect_items_scan(s@, c4 + 1),
                );
                assert(aspects_view(pairs@) + seq![(key@, amount)] =~= aspects_view(
                    pairs@.push((key, amount)),
                ));
            }
            pairs.push((key, amount));
            cur = c4 + 1;
        } else if c4 < s.len() && s[c4] == 0x29 {
            proof {
                assert(aspects_view(pairs@) + seq![(key@, amount)] =~= aspects_view(
                    pairs@.push((key, amount)),
                ));
            }
            pairs.push((key, amount));
            return Ok((c4 + 1, pairs));
        } else {
            return Err(ParseError::Syntax { pos: c4 });
        }
    }
}

/// Parse a card declaration:
/// `[hidden|?] card <id> <title> [<description>] (<aspects>)
/// [-> [<decay>] [<lifetime>]] { ... }`, then build the record. The
/// grammar is exactly [`card_sig_scan`]/[`card_scan`]; the record is
/// exactly the scanned body's [`card_fold`]. A repeated aspect in the
/// signature list, like any other record invariant violation, is a
/// fatal `Fail`: the card is never built.
#[verifier::loop_isolation(false)]
pub fn parse(s: &[u8], i: usize) -> (r: Result<(usize, crate::parser::Component), ParseError>)
    requires
        i <= s@.len(),
    ensures
        card_sig_scan(s@, i as int) is None ==> (r matches Err(e) && e is Syntax),
        card_sig_scan(s@, i as int) matches Some(sig) ==> {
            &&& !distinct_aspect_keys(sig.pairs) ==> (r matches Err(e) && (
            e matches ParseError::Fail { fault, .. } && (
            fault@ matches FaultV::DuplicateAspect { key } && has_aspect_key(sig.pairs, key))))
            &&& distinct_aspect_keys(sig.pairs) && card_scan(s@, i as int) is None ==> (
            r matches Err(e) && e is Syntax)
        },
        card_scan(s@, i as int) matches Some(q) ==> distinct_aspect_keys(q.1.sig.pairs) ==> {
            &&& card_fold(q.1.stmts) matches Err(f) ==> (r matches Err(e) && (
            e matches ParseError::Fail { fault, .. } && fault@ == f))
            &&& card_fold(q.1.stmts) matches Ok(sem) ==> (r matches Ok((j, c)) && j == q.0 && (
            c matches crate::parser::Component::Card(cd) && {
                &&& cd.id@ == q.1.sig.id
                &&& cd.label@ == q.1.sig.label
                &&& cd.description@ == q.1.sig.description
                &&& cd.hidden == q.1.sig.hidden
                &&& aspects_view(cd.aspects@) == q.1.sig.pairs
                &&& opt_key(cd.decays_to) == q.1.decays_to
                &&& cd.lifetime == q.1.lifetime
                &&& opt_bytes(cd.icon) == sem.icon
                &&& opt_bytes(cd.verbicon) == sem.verbicon
                &&& cd.resaturate == (sem.resaturate == Some(true))
                &&& opt_induce(cd.induces) == sem.induces
                &&& cd.unique == (sem.unique == Some(true))
                &&& opt_key(cd.uniqueness_group) == sem.uniqueness_group
                &&& slots_view(cd.slots@) == sem.slots
                &&& xts_view(cd.xtriggers@) == sem.xtriggers
                &&& others_view(cd.others@) == sem.others
            }))
        },
        r matches Ok((j, c)) ==> i < j <= s@.len() && (c matches crate::parser::Component::Card(
            cd,
        ) && cd.id.wf() && distinct_aspect_keys(aspects_view(cd.aspects@))
            && crate::parser::others_distinct(others_view(cd.others@)) && slots_keys_distinct(
            slots_view(cd.slots@),
        )),
{
    let card_kw: [u8; 4] = [0x63, 0x61, 0x72, 0x64];  // "card"
    proof {
        assert(card_kw@ =~= bytes_card());
    }
    let h0 = crate::parser::skip_ws(s, i);
    let (i1, hidden) = match crate::parser::p_hidden(s, h0) {
        Ok(j) => (j, true),
        Err(_) => (h0, false),
    };
    let i2 = crate::parser::skip_ws(s, i1);
    let i3 = match crate::parser::p_tag_nc(s, i2, card_kw.as_slice()) {
        Ok(j) => j,
        Err(e) => {
            return Err(e);
        },
    };
    let i4 = crate::parser::skip_ws(s, i3);
    let (i5, id) = match crate::parser::p_key(s, i4) {
        Ok(v) => v,
        Err(e) => {
            return Err(e);
        },
    };
    let i6 = crate::parser::skip_ws(s, i5);
    let (i7, label) = match crate::parser::p_string(s, i6) {
        Ok(v) => v,
        Err(e) => {
            return Err(e);
        },
    };
    let d0 = crate::parser::skip_ws(s, i7);
    let (i8, description) = match crate::parser::p_string(s, d0) {
        Ok((j, d)) => (j, d),
        Err(_) => (i7, Vec::new()),
    };
    let (i9, raw_aspects) = match p_card_aspects(s, i8) {
        Ok(v) => v,
        Err(e) => {
            return Err(e);
        },
    };
    // the declared aspect list must not repeat an aspect
    let aspects = match check_card_aspects(raw_aspects) {
        Ok(v) => v,
        Err(f) => {
            return Err(ParseError::Fail { pos: i9, fault: f });
        },
    };
    // optional decay marker `-> [<key>] [<lifetime>]`
    let arrow: [u8; 2] = [0x2d, 0x3e];
    let e0 = crate::parser::skip_ws(s, i9);
    let (i10, decays_to, lifetime) = match crate::parser::p_tag(s, e0, arrow.as_slice()) {
        Ok(j1) => {
            let j2 = crate::parser::skip_ws(s, j1);
            let (j3, dk) = match crate::parser::p_key(s, j2) {
                Ok((j3, k)) => (j3, Some(k)),
                Err(_) => (j1, None),
            };
            let j4 = crate::parser::skip_ws(s, j3);
            let (j5, lt) = match crate::parser::p_u32(s, j4) {
                Ok((j5, v)) => (j5, Some(v)),
                Err(_) => (j3, None),
            };
            (j5, dk, lt)
        },
        Err(_) => (i9, None, None),
    };
    let b0 = crate::parser::skip_ws(s, i10);
    let b1 = match crate::parser::p_byte(s, b0, 0x7b) {
        Ok(j) => j,
        Err(e) => {
            return Err(e);
        },
    };
    let mut statements: Vec<CardStatement> = Vec::new();
    let mut cur: usize = b1;
    proof {
        crate::parser::lemma_cat_scan_empty(card_body_scan(s@, b1 as int));
        assert(card_stmts_view(statements@) =~= Seq::<CardStatementV>::empty());
    }
    loop
        invariant
            i < cur <= s@.len(),
            valid_key(id@),
            distinct_aspect_keys(aspects_view(aspects@)),
            crate::parser::cat_scan(
                card_stmts_view(statements@),
                card_body_scan(s@, cur as int),
            ) == card_body_scan(s@, b1 as int),
        decreases s@.len() - cur,
    {
        let c0 = crate::parser::skip_ws(s, cur);
        if c0 < s.len() && s[c0] == 0x7d {
            let ghost sv = card_stmts_view(statements@);
            match card_from_tokens(
                id,
                label,
                description,
                hidden,
                decays_to,
                lifetime,
                aspects,
                statements,
            ) {
                Ok(c) => {
                    proof {
                        lemma_card_fold_wf(sv);
                    }
                    return Ok((c0 + 1, crate::parser::Component::Card(Box::new(c))));
                },
                Err(f) => {
                    return Err(ParseError::Fail { pos: c0, fault: f });
                },
            }
        }
        match p_card_statement(s, c0) {
            Ok((j, st)) => {
                match crate::parser::stmt_sep(s, j) {
                    Ok(j2) => {
                        proof {
                            crate::parser::lemma_cat_scan_assoc(
                                card_stmts_view(statements@),
                                seq![st@],
                                card_body_scan(s@, j2 as int),
                            );
                            assert(card_stmts_view(statements@) + seq![st@] =~= card_stmts_view(
                                statements@.push(st),
                            ));
                        }
                        statements.push(st);
                        cur = j2;
                    },
                    Err(e) => {
                        return Err(e);
                    },
                }
            },
            Err(e) => {
                return Err(e);
            },
        }
    }
}

} // verus!
