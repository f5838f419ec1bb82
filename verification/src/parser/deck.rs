//! The `deck` component: signature, content entries, and semantic
//! construction of the [`Deck`] record.

use vstd::prelude::*;
use crate::errors::Fault;
use crate::errors::FaultV;
use crate::errors::ParseError;
use crate::lantern::Deck;
use crate::lantern::DefKey;
use crate::lantern::dup_bytes;
use crate::lantern::valid_key;
use crate::lantern::opt_bytes;
use crate::lantern::opt_key;

verus! {

/// One parsed deck entry: the `default` marker, the card, and the
/// optional draw message.
#[derive(Debug)]
pub struct DeckItem {
    pub is_default: bool,
    pub card: DefKey,
    pub message: Option<Vec<u8>>,
}

impl View for DeckItem {
    type V = (bool, Seq<u8>, Option<Seq<u8>>);

    open spec fn view(&self) -> (bool, Seq<u8>, Option<Seq<u8>>) {
        (self.is_default, self.card@, opt_bytes(self.message))
    }
}

/// View of an entry list.
pub open spec fn items_view(v: Seq<DeckItem>) -> Seq<(bool, Seq<u8>, Option<Seq<u8>>)> {
    Seq::new(v.len(), |i: int| v[i]@)
}

/// The ghost state folded over a deck body.
pub struct DeckSem {
    pub default: Option<Seq<u8>>,
    pub cards: Seq<(Seq<u8>, Option<Seq<u8>>)>,
    pub portal: bool,
}

pub open spec fn deck_init() -> DeckSem {
    DeckSem { default: None, cards: Seq::empty(), portal: false }
}

/// One entry applied to the state: at most one entry may carry the
/// `default` marker; every entry joins the card list in order; any
/// draw message marks the deck as a portal deck.
pub open spec fn deck_step(st: DeckSem, e: (bool, Seq<u8>, Option<Seq<u8>>)) -> Result<
    DeckSem,
    FaultV,
> {
    if e.0 && st.default is Some {
        Err(FaultV::DuplicateDefault)
    } else {
        Ok(
            DeckSem {
                default: if e.0 {
                    Some(e.1)
                } else {
                    st.default
                },
                cards: st.cards.push((e.1, e.2)),
                portal: st.portal || e.2 is Some,
            },
        )
    }
}

/// The whole body folded in source order.
pub open spec fn deck_fold(entries: Seq<(bool, Seq<u8>, Option<Seq<u8>>)>) -> Result<
    DeckSem,
    FaultV,
>
    decreases entries.len(),
{
    if entries.len() == 0 {
        Ok(deck_init())
    } else {
        match deck_fold(entries.drop_last()) {
            Ok(st) => deck_step(st, entries.last()),
            Err(f) => Err(f),
        }
    }
}

/// Once a prefix of the body faults, the whole body faults the same.
pub proof fn lemma_deck_fold_err_extends(entries: Seq<(bool, Seq<u8>, Option<Seq<u8>>)>, k: int)
    requires
        0 <= k <= entries.len(),
        deck_fold(entries.take(k)) is Err,
    ensures
        deck_fold(entries) == deck_fold(entries.take(k)),
    decreases entries.len() - k,
{
    if k < entries.len() {
        assert(entries.take(k + 1).drop_last() =~= entries.take(k));
        assert(deck_fold(entries.take(k + 1)) == deck_fold(entries.take(k)));
        lemma_deck_fold_err_extends(entries, k + 1);
    } else {
        assert(entries.take(k) =~= entries);
    }
}

/// If the whole body folds to a record, so does every prefix.
pub proof fn lemma_deck_fold_prefix_ok(entries: Seq<(bool, Seq<u8>, Option<Seq<u8>>)>, k: int)
    requires
        0 <= k <= entries.len(),
        deck_fold(entries) is Ok,
    ensures
        deck_fold(entries.take(k)) is Ok,
{
    if deck_fold(entries.take(k)) is Err {
        lemma_deck_fold_err_extends(entries, k);
    }
}

/// Past a default-marked entry, every successful fold records a
/// default.
proof fn lemma_deck_default_marks(entries: Seq<(bool, Seq<u8>, Option<Seq<u8>>)>, a: int, m: int)
    requires
        0 <= a < entries.len(),
        entries[a].0,
        a < m <= entries.len(),
        deck_fold(entries.take(m)) is Ok,
    ensures
        (deck_fold(entries.take(m)) -> Ok_0).default is Some,
    decreases m,
{
    assert(entries.take(m).drop_last() =~= entries.take(m - 1));
    assert(entries.take(m).last() == entries[m - 1]);
    let prev = deck_fold(entries.take(m - 1));
    assert(prev is Ok);
    if m - 1 > a {
        lemma_deck_default_marks(entries, a, m - 1);
    }
}

/// A body with two default-marked entries never folds to a record: the
/// second marker is always a `DuplicateDefault` fault.
pub proof fn lemma_deck_two_defaults_fail(
    entries: Seq<(bool, Seq<u8>, Option<Seq<u8>>)>,
    a: int,
    b: int,
)
    requires
        0 <= a < b < entries.len(),
        entries[a].0,
        entries[b].0,
    ensures
        deck_fold(entries) is Err,
{
    if deck_fold(entries) is Ok {
        lemma_deck_fold_prefix_ok(entries, b + 1);
        lemma_deck_fold_prefix_ok(entries, b);
        lemma_deck_default_marks(entries, a, b);
        assert(entries.take(b + 1).drop_last() =~= entries.take(b));
        assert(entries.take(b + 1).last() == entries[b]);
    }
}

/// A successful fold marks the deck as a portal deck exactly when some
/// entry carries a draw message.
pub proof fn lemma_deck_portal_iff(entries: Seq<(bool, Seq<u8>, Option<Seq<u8>>)>)
    requires
        deck_fold(entries) is Ok,
    ensures
        (deck_fold(entries) -> Ok_0).portal <==> exists|q: int|
            0 <= q < (deck_fold(entries) -> Ok_0).cards.len() && (#[trigger] (deck_fold(entries)
                -> Ok_0).cards[q]).1 is Some,
    decreases entries.len(),
{
    if entries.len() > 0 {
        let prev = deck_fold(entries.drop_last()) -> Ok_0;
        let sem = deck_fold(entries) -> Ok_0;
        lemma_deck_portal_iff(entries.drop_last());
        let e = entries.last();
        assert(sem.cards == prev.cards.push((e.1, e.2)));
        if sem.portal {
            if prev.portal {
                let w = choose|q: int| 0 <= q < prev.cards.len() && (#[trigger] prev.cards[q]).1
                    is Some;
                assert(sem.cards[w].1 is Some);
            } else {
                assert(sem.cards[sem.cards.len() - 1].1 is Some);
            }
        } else {
            assert forall|q: int| 0 <= q < sem.cards.len() implies !((
            #[trigger] sem.cards[q]).1 is Some) by {
                if q < sem.cards.len() - 1 {
                    assert(sem.cards[q] == prev.cards[q]);
                }
            }
        }
    }
}

/// Build a [`Deck`] from its signature parts and its entries, exactly
/// as [`deck_fold`] describes. An omitted label or description is
/// empty; the deck is a portal deck exactly when some entry carries a
/// draw message.
pub fn deck_from_tokens(
    id: DefKey,
    label: Option<Vec<u8>>,
    description: Option<Vec<u8>>,
    contents: Vec<DeckItem>,
) -> (r: Result<Deck, Fault>)
    ensures
        deck_fold(items_view(contents@)) matches Ok(sem) ==> (r matches Ok(d) && {
            &&& d.id@ == id@
            &&& d.label@ == (match label {
                Some(l) => l@,
                None => Seq::<u8>::empty(),
            })
            &&& d.description@ == (match description {
                Some(l) => l@,
                None => Seq::<u8>::empty(),
            })
            &&& opt_key(d.default) == sem.default
            &&& cards_view(d.cards@) == sem.cards
            &&& d.is_portal_deck == sem.portal
        }),
        deck_fold(items_view(contents@)) matches Err(f) ==> (r matches Err(g) && g@ == f),
{
    let ghost sv = items_view(contents@);
    let n: usize = contents.len();
    let mut default: Option<DefKey> = None;
    let mut cards: Vec<(DefKey, Option<Vec<u8>>)> = Vec::new();
    let mut portal: bool = false;
    let mut i: usize = 0;
    proof {
        assert(sv.take(0) =~= Seq::<(bool, Seq<u8>, Option<Seq<u8>>)>::empty());
        assert(cards_view(cards@) =~= Seq::<(Seq<u8>, Option<Seq<u8>>)>::empty());
    }
    while i < n
        invariant
            i <= n,
            n == contents.len(),
            sv == items_view(contents@),
            sv.len() == n,
            deck_fold(sv.take(i as int)) == Ok::<DeckSem, FaultV>(
                DeckSem { default: opt_key(default), cards: cards_view(cards@), portal },
            ),
        decreases n - i,
    {
        proof {
            assert(sv.take(i + 1).drop_last() =~= sv.take(i as int));
            assert(sv.take(i + 1).last() == sv[i as int]);
            assert(sv[i as int] == contents@[i as int]@);
        }
        let item = &contents[i];
        if item.is_default {
            if default.is_some() {
                proof {
                    lemma_deck_fold_err_extends(sv, i + 1);
                }
                return Err(Fault::DuplicateDefault);
            }
            default = Some(item.card.duplicate());
        }
        let msg: Option<Vec<u8>> = match &item.message {
            Some(m) => {
                portal = true;
                Some(dup_bytes(m))
            },
            None => None,
        };
        let ghost old_cards = cards@;
        cards.push((item.card.duplicate(), msg));
        proof {
            assert(cards_view(cards@) =~= cards_view(old_cards).push(
                (contents@[i as int].card@, opt_bytes(contents@[i as int].message)),
            ));
        }
        i = i + 1;
    }
    proof {
        assert(sv.take(n as int) =~= sv);
    }
    let label_v: Vec<u8> = match label {
        Some(l) => l,
        None => Vec::new(),
    };
    let description_v: Vec<u8> = match description {
        Some(l) => l,
        None => Vec::new(),
    };
    Ok(
        Deck {
            id,
            label: label_v,
            description: description_v,
            default,
            cards,
            is_portal_deck: portal,
        },
    )
}

/// View of a deck's card list.
pub open spec fn cards_view(v: Seq<(DefKey, Option<Vec<u8>>)>) -> Seq<(Seq<u8>, Option<Seq<u8>>)> {
    Seq::new(v.len(), |i: int| (v[i].0@, opt_bytes(v[i].1)))
}

/// The keyword `deck`.
pub open spec fn bytes_deck() -> Seq<u8> {
    seq![0x64u8, 0x65, 0x63, 0x6b]
}

/// The marker word `default`.
pub open spec fn bytes_default() -> Seq<u8> {
    seq![0x64u8, 0x65, 0x66, 0x61, 0x75, 0x6c, 0x74]
}

/// One deck entry at `i`: `[!|default] <card> [<message>]`. The word
/// `default` counts as the marker only when not directly followed by
/// an identifier byte; the optional message must stand on the same
/// line.
pub open spec fn deck_item_scan(s: Seq<u8>, i: int) -> Option<
    (int, (bool, Seq<u8>, Option<Seq<u8>>)),
> {
    let i0 = crate::parser::ws_scan(s, i);
    let m: (int, bool) = if i0 < s.len() && s[i0] == 0x21 {
        (i0 + 1, true)
    } else if crate::parser::tag_nc_matches(s, i0, bytes_default()) {
        if i0 + 7 < s.len() && crate::lantern::is_key_byte(s[i0 + 7]) {
            (i0, false)
        } else {
            (i0 + 7, true)
        }
    } else {
        (i0, false)
    };
    match crate::parser::key_at(s, crate::parser::inline_end(s, m.0)) {
        Some((i3, card)) => {
            match crate::parser::string_at(s, crate::parser::inline_end(s, i3)) {
                Some((i5, msg)) => Some((i5, (m.1, card, Some(msg)))),
                None => Some((i3, (m.1, card, None))),
            }
        },
        None => None,
    }
}

/// A deck's entry block from just past its `{` to just past its `}`.
pub open spec fn deck_body_scan(s: Seq<u8>, i: int) -> Option<
    (int, Seq<(bool, Seq<u8>, Option<Seq<u8>>)>),
>
    decreases s.len() - i when 0 <= i <= s.len()
{
    let c0 = crate::parser::ws_scan(s, i);
    if !(i <= c0 <= s.len()) {
        // whitespace skipping never retreats; this arm is never taken
        None
    } else if c0 < s.len() && s[c0] == 0x7d {
        Some(((c0 + 1) as int, Seq::empty()))
    } else {
        match deck_item_scan(s, c0) {
            Some((j, e)) => if c0 < j <= s.len() {
                match crate::parser::sep_scan(s, j) {
                    Some(j2) => if j <= j2 <= s.len() {
                        match deck_body_scan(s, j2) {
                            Some((j3, rest)) => Some((j3, seq![e] + rest)),
                            None => None,
                        }
                    } else {
                        // the separator never retreats; never taken
                        None
                    },
                    None => None,
                }
            } else {
                // a scanned entry always advances; never taken
                None
            },
            None => None,
        }
    }
}

/// A whole deck declaration, scanned.
pub struct DeckDeclV {
    pub id: Seq<u8>,
    pub label: Option<Seq<u8>>,
    pub description: Option<Seq<u8>>,
    pub entries: Seq<(bool, Seq<u8>, Option<Seq<u8>>)>,
}

/// A deck declaration at `i`:
/// `deck <id> [<label>] [<description>] { <entries> }`.
pub open spec fn deck_scan(s: Seq<u8>, i: int) -> Option<(int, DeckDeclV)> {
    let i0 = crate::parser::ws_scan(s, i);
    if !crate::parser::tag_nc_matches(s, i0, bytes_deck()) {
        None
    } else {
        match crate::parser::key_at(s, crate::parser::ws_scan(s, i0 + 4)) {
            Some((i3, id)) => {
                let lm: (int, Option<Seq<u8>>) = match crate::parser::string_at(
                    s,
                    crate::parser::ws_scan(s, i3),
                ) {
                    Some((j, l)) => (j, Some(l)),
                    None => (i3, None),
                };
                let dm: (int, Option<Seq<u8>>) = match crate::parser::string_at(
                    s,
                    crate::parser::ws_scan(s, lm.0),
                ) {
                    Some((j, d)) => (j, Some(d)),
                    None => (lm.0, None),
                };
                let b0 = crate::parser::ws_scan(s, dm.0);
                if b0 < s.len() && s[b0] == 0x7b {
                    match deck_body_scan(s, b0 + 1) {
                        Some((j, entries)) => Some(
                            (j, DeckDeclV { id, label: lm.1, description: dm.1, entries }),
                        ),
                        None => None,
                    }
                } else {
                    None
                }
            },
            None => None,
        }
    }
}

/// Parse one deck entry, exactly as [`deck_item_scan`] describes.
pub fn p_deck_item(s: &[u8], i: usize) -> (r: Result<(usize, DeckItem), ParseError>)
    requires
        i <= s@.len(),
    ensures
        r is Ok <==> deck_item_scan(s@, i as int) is Some,
        r matches Ok((j, it)) ==> deck_item_scan(s@, i as int) == Some((j as int, it@)) && i < j
            <= s@.len(),
        r matches Err(e) ==> e is Syntax,
{
    let default_kw: [u8; 7] = [0x64, 0x65, 0x66, 0x61, 0x75, 0x6c, 0x74];  // "default"
    proof {
        assert(default_kw@ =~= bytes_default());
    }
    let n: usize = s.len();
    let i0 = crate::parser::skip_ws(s, i);
    let (i1, is_default) = match crate::parser::p_byte(s, i0, 0x21) {
        Ok(j) => (j, true),
        Err(_) => {
            match crate::parser::p_tag_nc(s, i0, default_kw.as_slice()) {
                Ok(j) => {
                    if j < n && crate::parser::is_key_byte_exec(s[j]) {
                        // part of a longer identifier, not the marker
                        (i0, false)
                    } else {
                        (j, true)
                    }
                },
                Err(_) => (i0, false),
            }
        },
    };
    let i2 = crate::parser::skip_inline(s, i1);
    let (i3, card) = match crate::parser::p_key(s, i2) {
        Ok(v) => v,
        Err(e) => {
            return Err(e);
        },
    };
    let i4 = crate::parser::skip_inline(s, i3);
    match crate::parser::p_string(s, i4) {
        Ok((i5, m)) => Ok((i5, DeckItem { is_default, card, message: Some(m) })),
        Err(_) => Ok((i3, DeckItem { is_default, card, message: None })),
    }
}

/// Parse a deck declaration:
/// `deck <id> [<label>] [<description>] { <entries> }`, then build the
/// record. The grammar is exactly [`deck_scan`]; the record is exactly
/// the scanned entries' [`deck_fold`]; a second `default` marker is a
/// fatal `Fail`.
#[verifier::loop_isolation(false)]
pub fn parse(s: &[u8], i: usize) -> (r: Result<(usize, crate::parser::Component), ParseError>)
    requires
        i <= s@.len(),
    ensures
        deck_scan(s@, i as int) is None ==> (r matches Err(e) && e is Syntax),
        deck_scan(s@, i as int) matches Some(q) ==> {
            &&& deck_fold(q.1.entries) matches Err(f) ==> (r matches Err(e) && (
            e matches ParseError::Fail { fault, .. } && fault@ == f))
            &&& deck_fold(q.1.entries) matches Ok(sem) ==> (r matches Ok((j, c)) && j == q.0 && (
            c matches crate::parser::Component::Deck(d) && {
                &&& d.id@ == q.1.id
                &&& d.label@ == (match q.1.label {
                    Some(l) => l,
                    None => Seq::<u8>::empty(),
                })
                &&& d.description@ == (match q.1.description {
                    Some(l) => l,
                    None => Seq::<u8>::empty(),
                })
                &&& opt_key(d.default) == sem.default
                &&& cards_view(d.cards@) == sem.cards
                &&& d.is_portal_deck == sem.portal
            }))
        },
        r matches Ok((j, c)) ==> i < j <= s@.len() && (c matches crate::parser::Component::Deck(
            d,
        ) && d.id.wf() && (d.is_portal_deck <==> exists|q: int|
            0 <= q < d.cards@.len() && (#[trigger] cards_view(d.cards@)[q]).1 is Some)),
{
    let deck_kw: [u8; 4] = [0x64, 0x65, 0x63, 0x6b];  // "deck"
    proof {
        assert(deck_kw@ =~= bytes_deck());
    }
    let i0 = crate::parser::skip_ws(s, i);
    let i1 = match crate::parser::p_tag_nc(s, i0, deck_kw.as_slice()) {
        Ok(j) => j,
        Err(e) => {
            return Err(e);
        },
    };
    let i2 = crate::parser::skip_ws(s, i1);
    let (i3, id) = match crate::parser::p_key(s, i2) {
        Ok(v) => v,
        Err(e) => {
            return Err(e);
        },
    };
    let l0 = crate::parser::skip_ws(s, i3);
    let (i4, label) = match crate::parser::p_string(s, l0) {
        Ok((j, l)) => (j, Some(l)),
        Err(_) => (i3, None),
    };
    let d0 = crate::parser::skip_ws(s, i4);
    let (i5, description) = match crate::parser::p_string(s, d0) {
        Ok((j, d)) => (j, Some(d)),
        Err(_) => (i4, None),
    };
    let b0 = crate::parser::skip_ws(s, i5);
    let b1 = match crate::parser::p_byte(s, b0, 0x7b) {
        Ok(j) => j,
        Err(e) => {
            return Err(e);
        },
    };
    let mut contents: Vec<DeckItem> = Vec::new();
    let mut cur: usize = b1;
    proof {
        crate::parser::lemma_cat_scan_empty(deck_body_scan(s@, b1 as int));
        assert(items_view(contents@) =~= Seq::<(bool, Seq<u8>, Option<Seq<u8>>)>::empty());
    }
    loop
        invariant
            i < cur <= s@.len(),
            valid_key(id@),
            crate::parser::cat_scan(items_view(contents@), deck_body_scan(s@, cur as int))
                == deck_body_scan(s@, b1 as int),
        decreases s@.len() - cur,
    {
        let c0 = crate::parser::skip_ws(s, cur);
        if c0 < s.len() && s[c0] == 0x7d {
            let ghost sv = items_view(contents@);
            match deck_from_tokens(id, label, description, contents) {
                Ok(d) => {
                    proof {
                        lemma_deck_portal_iff(sv);
                    }
                    return Ok((c0 + 1, crate::parser::Component::Deck(Box::new(d))));
                },
                Err(f) => {
                    return Err(ParseError::Fail { pos: c0, fault: f });
                },
            }
        }
        match p_deck_item(s, c0) {
            Ok((j, it)) => {
                match crate::parser::stmt_sep(s, j) {
                    Ok(j2) => {
                        proof {
                            crate::parser::lemma_cat_scan_assoc(
                                items_view(contents@),
                                seq![it@],
                                deck_body_scan(s@, j2 as int),
                            );
                            assert(items_view(contents@) + seq![it@] =~= items_view(
                                contents@.push(it),
                            ));
                        }
                        contents.push(it);
                        cur = j2;
                    },
                    Err(e) => {
                        return Err(e);
                    },
                }
            },
            Err(e) => {
                return Err(e);
            },
        }
    }
}

} // verus!
