//! The corpus merge engine: combines the per-file unit trees of every
//! input file into one [`Lantern`], assigning fully-qualified keys,
//! rejecting duplicate definitions, and resolving deferred `from`
//! inheritance once every file has merged.

use vstd::prelude::*;
use crate::errors::CompileError;
use crate::errors::ComponentKind;
use crate::errors::ParseError;
use crate::lantern::Attribute;
use crate::lantern::DefKey;
use crate::lantern::Lantern;
use crate::lantern::NamespaceMeta;
use crate::lantern::dup_bytes;
use crate::lantern::map_distinct;
use crate::lantern::map_insert;
use crate::lantern::map_keys;
use crate::parser::Component;
use crate::parser::Crucible;
use crate::parser::Unit;

verus! {

broadcast use vstd::std_specs::vec::axiom_vec_index_decreases, vstd::seq::axiom_seq_index_decreases;

/// `b` extends `a`: every entry of `a` is still in place, unchanged.
pub open spec fn grows<T>(a: Seq<T>, b: Seq<T>) -> bool {
    a.len() <= b.len() && forall|i: int| 0 <= i < a.len() ==> a[i] == #[trigger] b[i]
}

/// Copy an attribute; the copy reads back the same.
fn dup_attribute(a: &Attribute) -> (r: Attribute)
    ensures
        r@ == a@,
{
    Attribute {
        key: a.key.duplicate(),
        value: match &a.value {
            Some(v) => Some(v.duplicate()),
            None => None,
        },
    }
}

/// Copy a string.
pub fn dup_string(s: &String) -> (r: String)
    ensures
        r@ == s@,
{
    s.as_str().to_owned()
}

/// One recorded `from` clause: the fully-qualified child that declared
/// it, the parent it names, the child's kind, and the file it came
/// from. Resolved only after every file has merged, so that a parent
/// may be defined later or in another file.
#[derive(Debug)]
pub struct PendingInherit {
    pub kind: ComponentKind,
    pub child: DefKey,
    pub parent: DefKey,
    pub file: String,
}

/// Qualify an id with the enclosing namespace path.
pub fn qualify(prefix: &Vec<u8>, id: &DefKey) -> (k: DefKey)
    ensures
        k@ == prefix@ + id@,
{
    let mut out = dup_bytes(prefix);
    let n: usize = id.0.len();
    let mut i: usize = 0;
    while i < n
        invariant
            i <= n,
            n == id.0@.len(),
            out@ =~= prefix@ + id.0@.take(i as int),
        decreases n - i,
    {
        out.push(id.0[i]);
        assert(out@ =~= prefix@ + id.0@.take(i + 1));
        i = i + 1;
    }
    assert(out@ =~= prefix@ + id@);
    DefKey(out)
}

/// Whether a per-kind map of the corpus binds `k`, by kind tag.
pub open spec fn kind_has(l: Lantern, kind: ComponentKind, k: Seq<u8>) -> bool {
    match kind {
        ComponentKind::Aspect => map_keys(l.aspects@).contains(k),
        ComponentKind::Card => map_keys(l.cards@).contains(k),
        ComponentKind::Deck => map_keys(l.decks@).contains(k),
        ComponentKind::Recipe => map_keys(l.recipes@).contains(k),
        ComponentKind::Verb => map_keys(l.verbs@).contains(k),
        ComponentKind::Legacy => map_keys(l.legacies@).contains(k),
        ComponentKind::Ending => map_keys(l.endings@).contains(k),
    }
}

/// Every record of the corpus is stored under its own id: the binding
/// key of each entry is the contained record's fully-qualified id.
pub open spec fn ids_match(l: Lantern) -> bool {
    &&& forall|i: int| 0 <= i < l.aspects@.len() ==> (#[trigger] l.aspects@[i]).1.id@
        == l.aspects@[i].0@
    &&& forall|i: int| 0 <= i < l.cards@.len() ==> (#[trigger] l.cards@[i]).1.id@
        == l.cards@[i].0@
    &&& forall|i: int| 0 <= i < l.decks@.len() ==> (#[trigger] l.decks@[i]).1.id@
        == l.decks@[i].0@
    &&& forall|i: int| 0 <= i < l.recipes@.len() ==> (#[trigger] l.recipes@[i]).1.id@
        == l.recipes@[i].0@
    &&& forall|i: int| 0 <= i < l.verbs@.len() ==> (#[trigger] l.verbs@[i]).1.id@
        == l.verbs@[i].0@
    &&& forall|i: int| 0 <= i < l.legacies@.len() ==> (#[trigger] l.legacies@[i]).1.id@
        == l.legacies@[i].0@
    &&& forall|i: int| 0 <= i < l.endings@.len() ==> (#[trigger] l.endings@[i]).1.id@
        == l.endings@[i].0@
}

/// All per-kind key sequences of `b` equal those of `a`.
pub open spec fn same_keys(a: Lantern, b: Lantern) -> bool {
    &&& map_keys(a.namespaces@) == map_keys(b.namespaces@)
    &&& map_keys(a.aspects@) == map_keys(b.aspects@)
    &&& map_keys(a.cards@) == map_keys(b.cards@)
    &&& map_keys(a.decks@) == map_keys(b.decks@)
    &&& map_keys(a.recipes@) == map_keys(b.recipes@)
    &&& map_keys(a.verbs@) == map_keys(b.verbs@)
    &&& map_keys(a.legacies@) == map_keys(b.legacies@)
    &&& map_keys(a.endings@) == map_keys(b.endings@)
}

/// The corpus only gains entries: nothing is lost or overwritten in
/// the component maps, and no namespace key disappears.
pub open spec fn corpus_grows(a: Lantern, b: Lantern) -> bool {
    &&& grows(map_keys(a.namespaces@), map_keys(b.namespaces@))
    &&& grows(a.aspects@, b.aspects@)
    &&& grows(a.cards@, b.cards@)
    &&& grows(a.decks@, b.decks@)
    &&& grows(a.recipes@, b.recipes@)
    &&& grows(a.verbs@, b.verbs@)
    &&& grows(a.legacies@, b.legacies@)
    &&& grows(a.endings@, b.endings@)
}

/// One definition a unit tree contributes: its kind, its
/// fully-qualified key, and its inheritance clause.
pub struct DefV {
    pub kind: ComponentKind,
    pub key: Seq<u8>,
    pub inherits: Option<Seq<u8>>,
}

/// The definitions of one unit under a namespace prefix, in merge
/// order.
pub open spec fn unit_defs(u: Unit, prefix: Seq<u8>) -> Seq<DefV>
    decreases u,
{
    match u {
        Unit::ComponentUnit { id, component, inherits, .. } => seq![
            DefV {
                kind: component.spec_kind(),
                key: prefix + id@,
                inherits: crate::lantern::opt_key(inherits),
            },
        ],
        Unit::Namespace { id, units, .. } => child_defs(
            units,
            prefix + id@ + seq![0x2eu8],
        ).flatten(),
    }
}

/// The definitions of each child unit, one sequence per child.
pub open spec fn child_defs(units: Vec<Unit>, prefix: Seq<u8>) -> Seq<Seq<DefV>>
    decreases units,
{
    Seq::new(
        units@.len(),
        |k: int|
            if 0 <= k < units@.len() {
                unit_defs(units@[k], prefix)
            } else {
                Seq::empty()
            },
    )
}

/// The per-kind key sequences of the seven component maps.
pub struct KeysV {
    pub aspects: Seq<Seq<u8>>,
    pub cards: Seq<Seq<u8>>,
    pub decks: Seq<Seq<u8>>,
    pub recipes: Seq<Seq<u8>>,
    pub verbs: Seq<Seq<u8>>,
    pub legacies: Seq<Seq<u8>>,
    pub endings: Seq<Seq<u8>>,
}

pub open spec fn keys_of(l: Lantern) -> KeysV {
    KeysV {
        aspects: map_keys(l.aspects@),
        cards: map_keys(l.cards@),
        decks: map_keys(l.decks@),
        recipes: map_keys(l.recipes@),
        verbs: map_keys(l.verbs@),
        legacies: map_keys(l.legacies@),
        endings: map_keys(l.endings@),
    }
}

pub open spec fn kind_keys(ks: KeysV, kind: ComponentKind) -> Seq<Seq<u8>> {
    match kind {
        ComponentKind::Aspect => ks.aspects,
        ComponentKind::Card => ks.cards,
        ComponentKind::Deck => ks.decks,
        ComponentKind::Recipe => ks.recipes,
        ComponentKind::Verb => ks.verbs,
        ComponentKind::Legacy => ks.legacies,
        ComponentKind::Ending => ks.endings,
    }
}

pub open spec fn with_kind(ks: KeysV, kind: ComponentKind, v: Seq<Seq<u8>>) -> KeysV {
    match kind {
        ComponentKind::Aspect => KeysV { aspects: v, ..ks },
        ComponentKind::Card => KeysV { cards: v, ..ks },
        ComponentKind::Deck => KeysV { decks: v, ..ks },
        ComponentKind::Recipe => KeysV { recipes: v, ..ks },
        ComponentKind::Verb => KeysV { verbs: v, ..ks },
        ComponentKind::Legacy => KeysV { legacies: v, ..ks },
        ComponentKind::Ending => KeysV { endings: v, ..ks },
    }
}

/// One definition placed: appended to its kind's keys exactly when the
/// key is not yet bound there.
pub open spec fn place(ks: KeysV, d: DefV) -> KeysV {
    if kind_keys(ks, d.kind).contains(d.key) {
        ks
    } else {
        with_kind(ks, d.kind, kind_keys(ks, d.kind).push(d.key))
    }
}

/// A sequence of definitions placed in order.
pub open spec fn place_all(ks: KeysV, defs: Seq<DefV>) -> KeysV
    decreases defs.len(),
{
    if defs.len() == 0 {
        ks
    } else {
        place(place_all(ks, defs.drop_last()), defs.last())
    }
}

/// How many definitions hit an already-bound key at their turn.
pub open spec fn n_dups(ks: KeysV, defs: Seq<DefV>) -> nat
    decreases defs.len(),
{
    if defs.len() == 0 {
        0
    } else {
        n_dups(ks, defs.drop_last()) + (if kind_keys(place_all(ks, defs.drop_last()), defs.last().kind).contains(
            defs.last().key,
        ) {
            1nat
        } else {
            0nat
        })
    }
}

/// How many definitions insert and carry an inheritance clause.
pub open spec fn n_inherits(ks: KeysV, defs: Seq<DefV>) -> nat
    decreases defs.len(),
{
    if defs.len() == 0 {
        0
    } else {
        n_inherits(ks, defs.drop_last()) + (if !kind_keys(
            place_all(ks, defs.drop_last()),
            defs.last().kind,
        ).contains(defs.last().key) && defs.last().inherits is Some {
            1nat
        } else {
            0nat
        })
    }
}

/// The definitions that hit an already-bound key at their turn, in
/// order.
pub open spec fn dup_list(ks: KeysV, defs: Seq<DefV>) -> Seq<DefV>
    decreases defs.len(),
{
    if defs.len() == 0 {
        Seq::empty()
    } else {
        dup_list(ks, defs.drop_last()) + (if kind_keys(
            place_all(ks, defs.drop_last()),
            defs.last().kind,
        ).contains(defs.last().key) {
            seq![defs.last()]
        } else {
            Seq::empty()
        })
    }
}

/// The definitions that insert and carry an inheritance clause, in
/// order.
pub open spec fn inh_list(ks: KeysV, defs: Seq<DefV>) -> Seq<DefV>
    decreases defs.len(),
{
    if defs.len() == 0 {
        Seq::empty()
    } else {
        inh_list(ks, defs.drop_last()) + (if !kind_keys(
            place_all(ks, defs.drop_last()),
            defs.last().kind,
        ).contains(defs.last().key) && defs.last().inherits is Some {
            seq![defs.last()]
        } else {
            Seq::empty()
        })
    }
}

/// The counts are the lengths of the collected lists.
pub proof fn lemma_list_counts(ks: KeysV, defs: Seq<DefV>)
    ensures
        n_dups(ks, defs) == dup_list(ks, defs).len(),
        n_inherits(ks, defs) == inh_list(ks, defs).len(),
    decreases defs.len(),
{
    if defs.len() > 0 {
        lemma_list_counts(ks, defs.drop_last());
    }
}

/// Placing a concatenation places the parts in order; the counts and
/// the collected lists add up the same way.
pub proof fn lemma_place_all_concat(ks: KeysV, a: Seq<DefV>, b: Seq<DefV>)
    ensures
        place_all(ks, a + b) == place_all(place_all(ks, a), b),
        n_dups(ks, a + b) == n_dups(ks, a) + n_dups(place_all(ks, a), b),
        n_inherits(ks, a + b) == n_inherits(ks, a) + n_inherits(place_all(ks, a), b),
        dup_list(ks, a + b) == dup_list(ks, a) + dup_list(place_all(ks, a), b),
        inh_list(ks, a + b) == inh_list(ks, a) + inh_list(place_all(ks, a), b),
    decreases b.len(),
{
    if b.len() == 0 {
        assert(a + b =~= a);
        assert(dup_list(ks, a) + dup_list(place_all(ks, a), b) =~= dup_list(ks, a));
        assert(inh_list(ks, a) + inh_list(place_all(ks, a), b) =~= inh_list(ks, a));
    } else {
        lemma_place_all_concat(ks, a, b.drop_last());
        assert((a + b).drop_last() =~= a + b.drop_last());
        assert((a + b).last() == b.last());
        assert(dup_list(ks, a) + (dup_list(place_all(ks, a), b.drop_last()) + dup_list(
            ks,
            a + b,
        ).skip(dup_list(ks, a + b.drop_last()).len() as int)) =~= dup_list(ks, a) + dup_list(
            place_all(ks, a),
            b.drop_last(),
        ) + dup_list(ks, a + b).skip(dup_list(ks, a + b.drop_last()).len() as int));
        assert((dup_list(ks, a) + dup_list(place_all(ks, a), b.drop_last())) + (
        if kind_keys(place_all(ks, (a + b).drop_last()), (a + b).last().kind).contains(
            (a + b).last().key,
        ) {
            seq![(a + b).last()]
        } else {
            Seq::<DefV>::empty()
        }) =~= dup_list(ks, a) + (dup_list(place_all(ks, a), b.drop_last()) + (
        if kind_keys(place_all(ks, (a + b).drop_last()), (a + b).last().kind).contains(
            (a + b).last().key,
        ) {
            seq![(a + b).last()]
        } else {
            Seq::<DefV>::empty()
        })));
        assert((inh_list(ks, a) + inh_list(place_all(ks, a), b.drop_last())) + (
        if !kind_keys(place_all(ks, (a + b).drop_last()), (a + b).last().kind).contains(
            (a + b).last().key,
        ) && (a + b).last().inherits is Some {
            seq![(a + b).last()]
        } else {
            Seq::<DefV>::empty()
        }) =~= inh_list(ks, a) + (inh_list(place_all(ks, a), b.drop_last()) + (
        if !kind_keys(place_all(ks, (a + b).drop_last()), (a + b).last().kind).contains(
            (a + b).last().key,
        ) && (a + b).last().inherits is Some {
            seq![(a + b).last()]
        } else {
            Seq::<DefV>::empty()
        })));
    }
}

/// View of a key list.
pub open spec fn dkeys_view(v: Seq<DefKey>) -> Seq<Seq<u8>> {
    Seq::new(v.len(), |i: int| v[i]@)
}

/// Copy a key list.
fn dup_keys(v: &Vec<DefKey>) -> (r: Vec<DefKey>)
    ensures
        dkeys_view(r@) == dkeys_view(v@),
{
    let n: usize = v.len();
    let mut out: Vec<DefKey> = Vec::new();
    let mut i: usize = 0;
    while i < n
        invariant
            i <= n,
            n == v@.len(),
            out@.len() == i,
            forall|q: int| 0 <= q < i ==> (#[trigger] out@[q])@ == v@[q]@,
        decreases n - i,
    {
        out.push(v[i].duplicate());
        i = i + 1;
    }
    assert(dkeys_view(out@) =~= dkeys_view(v@));
    out
}

/// Copy an attribute list.
fn dup_attrs(v: &Vec<Attribute>) -> (r: Vec<Attribute>)
    ensures
        crate::parser::attrs_view(r@) == crate::parser::attrs_view(v@),
{
    let n: usize = v.len();
    let mut out: Vec<Attribute> = Vec::new();
    let mut i: usize = 0;
    while i < n
        invariant
            i <= n,
            n == v@.len(),
            out@.len() == i,
            forall|q: int| 0 <= q < i ==> (#[trigger] out@[q])@ == v@[q]@,
        decreases n - i,
    {
        out.push(dup_attribute(&v[i]));
        i = i + 1;
    }
    assert(crate::parser::attrs_view(out@) =~= crate::parser::attrs_view(v@));
    out
}

/// Record a namespace's metadata: extend the existing entry for this
/// path with the given attributes and component keys, or open a new
/// one holding exactly them; every other binding stays in place,
/// untouched.
#[verifier::loop_isolation(false)]
fn ns_upsert(
    namespaces: &mut Vec<(DefKey, NamespaceMeta)>,
    key: &DefKey,
    attrs: &Vec<Attribute>,
    comps: &Vec<DefKey>,
)
    requires
        map_distinct(old(namespaces)@),
    ensures
        map_distinct(final(namespaces)@),
        grows(map_keys(old(namespaces)@), map_keys(final(namespaces)@)),
        forall|qi: int| 0 <= qi < old(namespaces)@.len()
            && (#[trigger] old(namespaces)@[qi]).0@ != key@ ==> final(namespaces)@[qi] == old(
            namespaces,
        )@[qi],
        forall|qi: int, qj: int| (0 <= qi < final(namespaces)@.len()
            && (#[trigger] final(namespaces)@[qi]).0@ == key@ && 0 <= qj < old(
            namespaces,
        )@.len() && (#[trigger] old(namespaces)@[qj]).0@ == key@) ==> {
            &&& crate::parser::attrs_view(final(namespaces)@[qi].1.attributes@)
                == crate::parser::attrs_view(old(namespaces)@[qj].1.attributes@)
                + crate::parser::attrs_view(attrs@)
            &&& dkeys_view(final(namespaces)@[qi].1.components@) == dkeys_view(
                old(namespaces)@[qj].1.components@,
            ) + dkeys_view(comps@)
        },
        !crate::lantern::map_has_key(old(namespaces)@, key@) ==> forall|qi: int|
            0 <= qi < final(namespaces)@.len() && (#[trigger] final(namespaces)@[qi]).0@ == key@
            ==> crate::parser::attrs_view(final(namespaces)@[qi].1.attributes@)
            == crate::parser::attrs_view(attrs@) && dkeys_view(
            final(namespaces)@[qi].1.components@,
        ) == dkeys_view(comps@),
{
    let ghost oldv = namespaces@;
    let n: usize = namespaces.len();
    let mut idx: usize = 0;
    let mut found: bool = false;
    while idx < n && !found
        invariant
            idx <= n,
            n == namespaces@.len(),
            namespaces@ == oldv,
            found ==> idx < n && namespaces@[idx as int].0@ == key@,
            !found ==> forall|q: int| 0 <= q < idx ==> (#[trigger] namespaces@[q]).0@ != key@,
        decreases n - idx + (if found {
            0int
        } else {
            1int
        }),
    {
        if namespaces[idx].0.eq_key(key) {
            found = true;
        } else {
            idx = idx + 1;
        }
    }
    if found {
        let mut pair = namespaces.remove(idx);
        let ghost base_attrs = crate::parser::attrs_view(pair.1.attributes@);
        let ghost base_comps = dkeys_view(pair.1.components@);
        let mut k: usize = 0;
        let an: usize = attrs.len();
        proof {
            assert(base_attrs + crate::parser::attrs_view(attrs@).take(0) =~= base_attrs);
        }
        while k < an
            invariant
                k <= an,
                an == attrs@.len(),
                pair.0@ == oldv[idx as int].0@,
                pair.1.components@ == oldv[idx as int].1.components@,
                crate::parser::attrs_view(pair.1.attributes@) == base_attrs
                    + crate::parser::attrs_view(attrs@).take(k as int),
            decreases an - k,
        {
            let a = dup_attribute(&attrs[k]);
            proof {
                assert(crate::parser::attrs_view(pair.1.attributes@.push(a))
                    =~= crate::parser::attrs_view(pair.1.attributes@).push(a@));
                assert(base_attrs + crate::parser::attrs_view(attrs@).take(k + 1) =~= (
                base_attrs + crate::parser::attrs_view(attrs@).take(k as int)).push(
                    crate::parser::attrs_view(attrs@)[k as int],
                ));
            }
            pair.1.attributes.push(a);
            k = k + 1;
        }
        proof {
            assert(crate::parser::attrs_view(attrs@).take(an as int) =~= crate::parser::attrs_view(
                attrs@,
            ));
        }
        let mut k2: usize = 0;
        let cn: usize = comps.len();
        proof {
            assert(base_comps + dkeys_view(comps@).take(0) =~= base_comps);
        }
        while k2 < cn
            invariant
                k2 <= cn,
                cn == comps@.len(),
                pair.0@ == oldv[idx as int].0@,
                crate::parser::attrs_view(pair.1.attributes@) == base_attrs
                    + crate::parser::attrs_view(attrs@),
                dkeys_view(pair.1.components@) == base_comps + dkeys_view(comps@).take(
                    k2 as int,
                ),
            decreases cn - k2,
        {
            let c = comps[k2].duplicate();
            proof {
                assert(dkeys_view(pair.1.components@.push(c)) =~= dkeys_view(
                    pair.1.components@,
                ).push(c@));
                assert(base_comps + dkeys_view(comps@).take(k2 + 1) =~= (base_comps
                    + dkeys_view(comps@).take(k2 as int)).push(dkeys_view(comps@)[k2 as int]));
            }
            pair.1.components.push(c);
            k2 = k2 + 1;
        }
        proof {
            assert(dkeys_view(comps@).take(cn as int) =~= dkeys_view(comps@));
            assert(pair.0@ == oldv[idx as int].0@);
        }
        namespaces.insert(idx, pair);
        proof {
            assert forall|i: int| 0 <= i < namespaces@.len() implies (
            #[trigger] namespaces@[i]).0@ == oldv[i].0@ by {
                if i < idx {
                } else if i == idx {
                } else {
                }
            }
            assert(map_keys(namespaces@) =~= map_keys(oldv));
        }
    } else {
        let meta = NamespaceMeta { components: dup_keys(comps), attributes: dup_attrs(attrs) };
        namespaces.push((key.duplicate(), meta));
        proof {
            assert(!crate::lantern::map_has_key(oldv, key@));
            assert forall|i: int, j: int| 0 <= i < j < namespaces@.len() implies (
            #[trigger] namespaces@[i]).0@ != (#[trigger] namespaces@[j]).0@ by {
                if j < namespaces@.len() - 1 {
                    assert(namespaces@[i] == oldv[i] && namespaces@[j] == oldv[j]);
                } else {
                    assert(namespaces@[i] == oldv[i]);
                }
            }
        }
    }
}

/// The first recorded origin of this kind and key, or the fallback
/// when none is recorded.
pub open spec fn origin_of(
    placed: Seq<(ComponentKind, DefKey, String)>,
    kind: ComponentKind,
    k: Seq<u8>,
    fallback: Seq<char>,
) -> Seq<char>
    decreases placed.len(),
{
    if placed.len() == 0 {
        fallback
    } else if placed.first().0 == kind && placed.first().1@ == k {
        placed.first().2@
    } else {
        origin_of(placed.drop_first(), kind, k, fallback)
    }
}

/// The file that first placed a key of this kind, for naming both
/// sides of a duplicate definition, exactly as [`origin_of`]
/// describes.
fn find_origin(
    placed: &Vec<(ComponentKind, DefKey, String)>,
    kind: ComponentKind,
    key: &DefKey,
    fallback: &String,
) -> (r: String)
    ensures
        r@ == origin_of(placed@, kind, key@, fallback@),
{
    let n: usize = placed.len();
    let mut i: usize = 0;
    proof {
        assert(placed@.skip(0) =~= placed@);
    }
    while i < n
        invariant
            i <= n,
            n == placed@.len(),
            origin_of(placed@, kind, key@, fallback@) == origin_of(
                placed@.skip(i as int),
                kind,
                key@,
                fallback@,
            ),
        decreases n - i,
    {
        proof {
            assert(placed@.skip(i as int).first() == placed@[i as int]);
            assert(placed@.skip(i as int).drop_first() =~= placed@.skip(i + 1));
        }
        if placed[i].0 == kind && placed[i].1.eq_key(key) {
            return dup_string(&placed[i].2);
        }
        i = i + 1;
    }
    proof {
        assert(placed@.skip(n as int) =~= Seq::<(ComponentKind, DefKey, String)>::empty());
    }
    dup_string(fallback)
}

/// An origin entry is recorded for this kind and key.
pub open spec fn placed_has(
    pl: Seq<(ComponentKind, DefKey, String)>,
    kind: ComponentKind,
    key: Seq<u8>,
) -> bool {
    exists|w: int| 0 <= w < pl.len() && (#[trigger] pl[w]).0 == kind && pl[w].1@ == key
}

/// Every bound key has a recorded origin.
pub open spec fn placed_covers(pl: Seq<(ComponentKind, DefKey, String)>, ks: KeysV) -> bool {
    forall|kind: ComponentKind, key: Seq<u8>| #[trigger] kind_keys(ks, kind).contains(key)
        ==> placed_has(pl, kind, key)
}

/// Appending origin entries never changes the first recorded origin of
/// a kind and key that already has one.
proof fn lemma_origin_stable(
    p1: Seq<(ComponentKind, DefKey, String)>,
    p2: Seq<(ComponentKind, DefKey, String)>,
    kind: ComponentKind,
    k: Seq<u8>,
    fb1: Seq<char>,
    fb2: Seq<char>,
)
    requires
        grows(p1, p2),
        placed_has(p1, kind, k),
    ensures
        origin_of(p2, kind, k, fb2) == origin_of(p1, kind, k, fb1),
    decreases p1.len(),
{
    assert(p1.len() > 0);
    assert(p2[0] == p1[0]);
    if p1.first().0 == kind && p1.first().1@ == k {
    } else {
        let w = choose|w: int| 0 <= w < p1.len() && (#[trigger] p1[w]).0 == kind && p1[w].1@
            == k;
        assert(p1.drop_first()[w - 1] == p1[w]);
        assert(placed_has(p1.drop_first(), kind, k));
        assert(grows(p1.drop_first(), p2.drop_first())) by {
            assert forall|q: int| 0 <= q < p1.drop_first().len() implies p1.drop_first()[q] == (
            #[trigger] p2.drop_first()[q]) by {
                assert(p1.drop_first()[q] == p1[q + 1]);
                assert(p2.drop_first()[q] == p2[q + 1]);
            }
        }
        lemma_origin_stable(p1.drop_first(), p2.drop_first(), kind, k, fb1, fb2);
    }
}

/// Merge one unit into the corpus under the given namespace prefix.
///
/// A component's fully-qualified key is the prefix joined to its id;
/// inserting a key already bound in its kind's map adds a
/// `DuplicateDefinition` error naming the file that first defined it,
/// and never overwrites. A `from` clause is recorded for deferred
/// resolution. The keys of the components declared directly in this
/// unit are returned for the enclosing namespace's metadata.
#[verifier::loop_isolation(false)]
fn merge_unit(
    lantern: &mut Lantern,
    unit: &Unit,
    prefix: &Vec<u8>,
    path: &String,
    pending: &mut Vec<PendingInherit>,
    errors: &mut Vec<(String, CompileError)>,
    placed: &mut Vec<(ComponentKind, DefKey, String)>,
) -> (own_keys: Vec<DefKey>)
    requires
        old(lantern).wf(),
        ids_match(*old(lantern)),
        placed_covers(old(placed)@, keys_of(*old(lantern))),
    ensures
        final(lantern).wf(),
        ids_match(*final(lantern)),
        corpus_grows(*old(lantern), *final(lantern)),
        grows(old(errors)@, final(errors)@),
        grows(old(pending)@, final(pending)@),
        grows(old(placed)@, final(placed)@),
        placed_covers(final(placed)@, keys_of(*final(lantern))),
        final(lantern).attributes == old(lantern).attributes,
        keys_of(*final(lantern)) == place_all(keys_of(*old(lantern)), unit_defs(*unit, prefix@)),
        final(errors)@.len() == old(errors)@.len() + dup_list(
            keys_of(*old(lantern)),
            unit_defs(*unit, prefix@),
        ).len(),
        forall|m: int| old(errors)@.len() <= m < final(errors)@.len() ==> {
            let d = dup_list(keys_of(*old(lantern)), unit_defs(*unit, prefix@))[m - old(
                errors,
            )@.len()];
            &&& (#[trigger] final(errors)@[m]).0@ == path@
            &&& final(errors)@[m].1 matches CompileError::DuplicateDefinition {
                kind,
                key,
                first_file,
            } && kind == d.kind && key@ == d.key && first_file@ == origin_of(
                final(placed)@,
                d.kind,
                d.key,
                path@,
            )
            &&& placed_has(final(placed)@, d.kind, d.key)
        },
        final(pending)@.len() == old(pending)@.len() + inh_list(
            keys_of(*old(lantern)),
            unit_defs(*unit, prefix@),
        ).len(),
        forall|m: int| old(pending)@.len() <= m < final(pending)@.len() ==> {
            let d = inh_list(keys_of(*old(lantern)), unit_defs(*unit, prefix@))[m - old(
                pending,
            )@.len()];
            &&& (#[trigger] final(pending)@[m]).kind == d.kind
            &&& final(pending)@[m].child@ == d.key
            &&& d.inherits == Some(final(pending)@[m].parent@)
            &&& final(pending)@[m].file@ == path@
        },
    decreases unit,
{
    let mut own_keys: Vec<DefKey> = Vec::new();
    match unit {
        Unit::ComponentUnit { id, attrs, component, inherits } => {
            let fq = qualify(prefix, id);
            proof {
                let d = DefV {
                    kind: component.spec_kind(),
                    key: prefix@ + id@,
                    inherits: crate::lantern::opt_key(*inherits),
                };
                assert(unit_defs(*unit, prefix@) =~= seq![d]);
                assert(seq![d].drop_last() =~= Seq::<DefV>::empty());
                lemma_keys_has(lantern.aspects@, fq@);
                lemma_keys_has(lantern.cards@, fq@);
                lemma_keys_has(lantern.decks@, fq@);
                lemma_keys_has(lantern.recipes@, fq@);
                lemma_keys_has(lantern.verbs@, fq@);
                lemma_keys_has(lantern.legacies@, fq@);
                lemma_keys_has(lantern.endings@, fq@);
            }
            let ghost oldl = *lantern;
            let kind: ComponentKind = match component {
                Component::Aspect(_) => ComponentKind::Aspect,
                Component::Card(_) => ComponentKind::Card,
                Component::Deck(_) => ComponentKind::Deck,
                Component::Recipe(_) => ComponentKind::Recipe,
                Component::Verb(_) => ComponentKind::Verb,
                Component::Legacy(_) => ComponentKind::Legacy,
                Component::Ending(_) => ComponentKind::Ending,
            };
            let inserted: bool = match component {
                Component::Aspect(b) => {
                    let mut rec = (**b).clone();
                    rec.id = fq.duplicate();
                    map_insert(&mut lantern.aspects, fq.duplicate(), rec)
                },
                Component::Card(b) => {
                    let mut rec = (**b).clone();
                    rec.id = fq.duplicate();
                    map_insert(&mut lantern.cards, fq.duplicate(), rec)
                },
                Component::Deck(b) => {
                    let mut rec = (**b).clone();
                    rec.id = fq.duplicate();
                    map_insert(&mut lantern.decks, fq.duplicate(), rec)
                },
                Component::Recipe(b) => {
                    let mut rec = (**b).clone();
                    rec.id = fq.duplicate();
                    map_insert(&mut lantern.recipes, fq.duplicate(), rec)
                },
                Component::Verb(b) => {
                    let mut rec = (**b).clone();
                    rec.id = fq.duplicate();
                    map_insert(&mut lantern.verbs, fq.duplicate(), rec)
                },
                Component::Legacy(b) => {
                    let mut rec = (**b).clone();
                    rec.id = fq.duplicate();
                    map_insert(&mut lantern.legacies, fq.duplicate(), rec)
                },
                Component::Ending(b) => {
                    let mut rec = (**b).clone();
                    rec.id = fq.duplicate();
                    map_insert(&mut lantern.endings, fq.duplicate(), rec)
                },
            };
            proof {
                if inserted {
                    match component {
                        Component::Aspect(_) => {
                            assert(map_keys(lantern.aspects@) =~= map_keys(oldl.aspects@).push(
                                fq@,
                            ));
                        },
                        Component::Card(_) => {
                            assert(map_keys(lantern.cards@) =~= map_keys(oldl.cards@).push(fq@));
                        },
                        Component::Deck(_) => {
                            assert(map_keys(lantern.decks@) =~= map_keys(oldl.decks@).push(fq@));
                        },
                        Component::Recipe(_) => {
                            assert(map_keys(lantern.recipes@) =~= map_keys(oldl.recipes@).push(
                                fq@,
                            ));
                        },
                        Component::Verb(_) => {
                            assert(map_keys(lantern.verbs@) =~= map_keys(oldl.verbs@).push(fq@));
                        },
                        Component::Legacy(_) => {
                            assert(map_keys(lantern.legacies@) =~= map_keys(
                                oldl.legacies@,
                            ).push(fq@));
                        },
                        Component::Ending(_) => {
                            assert(map_keys(lantern.endings@) =~= map_keys(oldl.endings@).push(
                                fq@,
                            ));
                        },
                    }
                }
                let ds = unit_defs(*unit, prefix@);
                assert(ds.len() == 1);
                let d = ds[0];
                assert(ds =~= seq![d]);
                assert(ds.drop_last() =~= Seq::<DefV>::empty());
                assert(place_all(keys_of(oldl), Seq::<DefV>::empty()) == keys_of(oldl));
                assert(n_dups(keys_of(oldl), Seq::<DefV>::empty()) == 0);
                assert(n_inherits(keys_of(oldl), Seq::<DefV>::empty()) == 0);
                assert(dup_list(keys_of(oldl), Seq::<DefV>::empty()) == Seq::<DefV>::empty());
                assert(inh_list(keys_of(oldl), Seq::<DefV>::empty()) == Seq::<DefV>::empty());
                assert(place_all(keys_of(oldl), ds) == place(keys_of(oldl), d));
                assert(d.key == fq@);
                assert(d.kind == component.spec_kind());
                assert(inserted == !kind_keys(keys_of(oldl), d.kind).contains(d.key));
                assert(keys_of(*lantern) == place(keys_of(oldl), d));
                assert(n_dups(keys_of(oldl), ds) == (if inserted {
                    0nat
                } else {
                    1nat
                }));
                assert(n_inherits(keys_of(oldl), ds) == (
                if inserted && crate::lantern::opt_key(*inherits) is Some {
                    1nat
                } else {
                    0nat
                }));
                assert(dup_list(keys_of(oldl), ds) =~= (if inserted {
                    Seq::<DefV>::empty()
                } else {
                    seq![d]
                }));
                assert(inh_list(keys_of(oldl), ds) =~= (
                if inserted && crate::lantern::opt_key(*inherits) is Some {
                    seq![d]
                } else {
                    Seq::<DefV>::empty()
                }));
            }
            if inserted {
                let ghost old_placed = placed@;
                placed.push((kind, fq.duplicate(), dup_string(path)));
                proof {
                    assert forall|kind2: ComponentKind, key2: Seq<u8>| #[trigger] kind_keys(
                        keys_of(*lantern),
                        kind2,
                    ).contains(key2) implies placed_has(placed@, kind2, key2) by {
                        if kind2 == kind && key2 == fq@ {
                            assert(placed@[placed@.len() - 1].0 == kind);
                            assert(placed@[placed@.len() - 1].1@ == fq@);
                        } else {
                            assert(kind_keys(keys_of(oldl), kind2).contains(key2));
                            assert(placed_has(old_placed, kind2, key2));
                            let w = choose|w: int| 0 <= w < old_placed.len() && (
                            #[trigger] old_placed[w]).0 == kind2 && old_placed[w].1@ == key2;
                            assert(placed@[w] == old_placed[w]);
                        }
                    }
                }
                match inherits {
                    Some(parent) => {
                        pending.push(
                            PendingInherit {
                                kind,
                                child: fq.duplicate(),
                                parent: parent.duplicate(),
                                file: dup_string(path),
                            },
                        );
                    },
                    None => {},
                }
            } else {
                proof {
                    assert(kind_keys(keys_of(oldl), kind).contains(fq@));
                    assert(placed_has(placed@, kind, fq@));
                }
                let first_file = find_origin(placed, kind, &fq, path);
                errors.push(
                    (
                        dup_string(path),
                        CompileError::DuplicateDefinition {
                            kind,
                            key: fq.duplicate(),
                            first_file,
                        },
                    ),
                );
            }
            own_keys.push(fq);
            own_keys
        },
        Unit::Namespace { id, attrs, units } => {
            let fqns = qualify(prefix, id);
            // the nested prefix: this namespace's path, then a dot
            let mut sub_prefix = dup_bytes(&fqns.0);
            sub_prefix.push(0x2e);
            let ghost cds = child_defs(*units, sub_prefix@);
            proof {
                assert(sub_prefix@ =~= prefix@ + id@ + seq![0x2eu8]);
                assert(unit_defs(*unit, prefix@) == child_defs(
                    *units,
                    prefix@ + id@ + seq![0x2eu8],
                ).flatten());
                assert(cds.take(0) =~= Seq::<Seq<DefV>>::empty());
                assert(Seq::<Seq<DefV>>::empty().flatten() =~= Seq::<DefV>::empty());
            }
            let n: usize = units.len();
            let mut child_keys: Vec<DefKey> = Vec::new();
            let mut i: usize = 0;
            while i < n
                invariant
                    i <= n,
                    n == units@.len(),
                    lantern.wf(),
                    ids_match(*lantern),
                    lantern.attributes == old(lantern).attributes,
                    corpus_grows(*old(lantern), *lantern),
                    grows(old(errors)@, errors@),
                    grows(old(pending)@, pending@),
                    grows(old(placed)@, placed@),
                    placed_covers(placed@, keys_of(*lantern)),
                    sub_prefix@ == fqns.0@ + seq![0x2eu8],
                    cds == child_defs(*units, sub_prefix@),
                    keys_of(*lantern) == place_all(
                        keys_of(*old(lantern)),
                        cds.take(i as int).flatten(),
                    ),
                    errors@.len() == old(errors)@.len() + dup_list(
                        keys_of(*old(lantern)),
                        cds.take(i as int).flatten(),
                    ).len(),
                    forall|m: int| old(errors)@.len() <= m < errors@.len() ==> {
                        let d = dup_list(
                            keys_of(*old(lantern)),
                            cds.take(i as int).flatten(),
                        )[m - old(errors)@.len()];
                        &&& (#[trigger] errors@[m]).0@ == path@
                        &&& errors@[m].1 matches CompileError::DuplicateDefinition {
                            kind,
                            key,
                            first_file,
                        } && kind == d.kind && key@ == d.key && first_file@ == origin_of(
                            placed@,
                            d.kind,
                            d.key,
                            path@,
                        )
                        &&& placed_has(placed@, d.kind, d.key)
                    },
                    pending@.len() == old(pending)@.len() + inh_list(
                        keys_of(*old(lantern)),
                        cds.take(i as int).flatten(),
                    ).len(),
                    forall|m: int| old(pending)@.len() <= m < pending@.len() ==> {
                        let d = inh_list(
                            keys_of(*old(lantern)),
                            cds.take(i as int).flatten(),
                        )[m - old(pending)@.len()];
                        &&& (#[trigger] pending@[m]).kind == d.kind
                        &&& pending@[m].child@ == d.key
                        &&& d.inherits == Some(pending@[m].parent@)
                        &&& pending@[m].file@ == path@
                    },
                decreases n - i,
            {
                proof {
                    assert(cds.take(i + 1) =~= cds.take(i as int).push(cds[i as int]));
                    cds.take(i as int).lemma_flatten_push(cds[i as int]);
                    assert(cds[i as int] == unit_defs(units@[i as int], sub_prefix@));
                    lemma_place_all_concat(
                        keys_of(*old(lantern)),
                        cds.take(i as int).flatten(),
                        cds[i as int],
                    );
                }
                let ghost placed_before = placed@;
                let mut ks = merge_unit(
                    lantern,
                    &units[i],
                    &sub_prefix,
                    path,
                    pending,
                    errors,
                    placed,
                );
                proof {
                    assert forall|kind2: ComponentKind, k2: Seq<u8>| placed_has(
                        placed_before,
                        kind2,
                        k2,
                    ) implies placed_has(placed@, kind2, k2) && origin_of(
                        placed@,
                        kind2,
                        k2,
                        path@,
                    ) == origin_of(placed_before, kind2, k2, path@) by {
                        let w = choose|w: int| 0 <= w < placed_before.len() && (
                        #[trigger] placed_before[w]).0 == kind2 && placed_before[w].1@ == k2;
                        assert(placed@[w] == placed_before[w]);
                        lemma_origin_stable(placed_before, placed@, kind2, k2, path@, path@);
                    }
                }
                child_keys.append(&mut ks);
                i = i + 1;
            }
            proof {
                assert(cds.take(n as int) =~= cds);
            }
            ns_upsert(&mut lantern.namespaces, &fqns, attrs, &child_keys);
            own_keys
        },
    }
}

/// The definitions one parsed file contributes, in merge order, fully
/// qualified from the root.
pub open spec fn file_defs(c: Crucible) -> Seq<DefV> {
    child_defs(c.units, Seq::empty()).flatten()
}

/// Merge one parsed file into the corpus: its global attributes join
/// the corpus attributes, and its units merge at the root prefix.
/// Each definition of the file's tree is inserted under its
/// fully-qualified key exactly when that key was unbound
/// ([`place_all`]); each collision instead appends one
/// `DuplicateDefinition` error attributed to this file; each inserted
/// `from` clause is recorded for deferred resolution.
#[verifier::loop_isolation(false)]
pub fn merge_file(
    lantern: &mut Lantern,
    file: &Crucible,
    path: &String,
    pending: &mut Vec<PendingInherit>,
    errors: &mut Vec<(String, CompileError)>,
    placed: &mut Vec<(ComponentKind, DefKey, String)>,
)
    requires
        old(lantern).wf(),
        ids_match(*old(lantern)),
        placed_covers(old(placed)@, keys_of(*old(lantern))),
    ensures
        final(lantern).wf(),
        ids_match(*final(lantern)),
        corpus_grows(*old(lantern), *final(lantern)),
        grows(old(errors)@, final(errors)@),
        grows(old(pending)@, final(pending)@),
        grows(old(placed)@, final(placed)@),
        placed_covers(final(placed)@, keys_of(*final(lantern))),
        keys_of(*final(lantern)) == place_all(keys_of(*old(lantern)), file_defs(*file)),
        crate::parser::attrs_view(final(lantern).attributes@) == crate::parser::attrs_view(
            old(lantern).attributes@,
        ) + crate::parser::attrs_view(file.attributes@),
        final(errors)@.len() == old(errors)@.len() + dup_list(
            keys_of(*old(lantern)),
            file_defs(*file),
        ).len(),
        forall|m: int| old(errors)@.len() <= m < final(errors)@.len() ==> {
            let d = dup_list(keys_of(*old(lantern)), file_defs(*file))[m - old(errors)@.len()];
            &&& (#[trigger] final(errors)@[m]).0@ == path@
            &&& final(errors)@[m].1 matches CompileError::DuplicateDefinition {
                kind,
                key,
                first_file,
            } && kind == d.kind && key@ == d.key && first_file@ == origin_of(
                final(placed)@,
                d.kind,
                d.key,
                path@,
            )
            &&& placed_has(final(placed)@, d.kind, d.key)
        },
        final(pending)@.len() == old(pending)@.len() + inh_list(
            keys_of(*old(lantern)),
            file_defs(*file),
        ).len(),
        forall|m: int| old(pending)@.len() <= m < final(pending)@.len() ==> {
            let d = inh_list(keys_of(*old(lantern)), file_defs(*file))[m - old(
                pending,
            )@.len()];
            &&& (#[trigger] final(pending)@[m]).kind == d.kind
            &&& final(pending)@[m].child@ == d.key
            &&& d.inherits == Some(final(pending)@[m].parent@)
            &&& final(pending)@[m].file@ == path@
        },
{
    let an: usize = file.attributes.len();
    let mut k: usize = 0;
    proof {
        assert(crate::parser::attrs_view(lantern.attributes@) + crate::parser::attrs_view(
            file.attributes@,
        ).take(0) =~= crate::parser::attrs_view(lantern.attributes@));
    }
    while k < an
        invariant
            k <= an,
            an == file.attributes@.len(),
            lantern.wf(),
            ids_match(*lantern),
            corpus_grows(*old(lantern), *lantern),
            grows(old(errors)@, errors@),
            grows(old(pending)@, pending@),
            keys_of(*lantern) == keys_of(*old(lantern)),
            crate::parser::attrs_view(lantern.attributes@) == crate::parser::attrs_view(
                old(lantern).attributes@,
            ) + crate::parser::attrs_view(file.attributes@).take(k as int),
            errors@ == old(errors)@,
            pending@ == old(pending)@,
        decreases an - k,
    {
        let a = dup_attribute(&file.attributes[k]);
        proof {
            assert(crate::parser::attrs_view(lantern.attributes@.push(a))
                =~= crate::parser::attrs_view(lantern.attributes@).push(a@));
            assert(crate::parser::attrs_view(old(lantern).attributes@)
                + crate::parser::attrs_view(file.attributes@).take(k + 1)
                =~= (crate::parser::attrs_view(old(lantern).attributes@)
                + crate::parser::attrs_view(file.attributes@).take(k as int)).push(
                crate::parser::attrs_view(file.attributes@)[k as int],
            ));
        }
        lantern.attributes.push(a);
        k = k + 1;
    }
    proof {
        assert(crate::parser::attrs_view(file.attributes@).take(an as int)
            =~= crate::parser::attrs_view(file.attributes@));
    }
    let root: Vec<u8> = Vec::new();
    let ghost cds = child_defs(file.units, Seq::<u8>::empty());
    proof {
        assert(root@ =~= Seq::<u8>::empty());
        assert(cds.take(0) =~= Seq::<Seq<DefV>>::empty());
        assert(Seq::<Seq<DefV>>::empty().flatten() =~= Seq::<DefV>::empty());
        assert(place_all(keys_of(*lantern), Seq::<DefV>::empty()) == keys_of(*lantern));
        assert(n_dups(keys_of(*lantern), Seq::<DefV>::empty()) == 0);
        assert(n_inherits(keys_of(*lantern), Seq::<DefV>::empty()) == 0);
        assert(dup_list(keys_of(*lantern), Seq::<DefV>::empty()) == Seq::<DefV>::empty());
        assert(inh_list(keys_of(*lantern), Seq::<DefV>::empty()) == Seq::<DefV>::empty());
    }
    let n: usize = file.units.len();
    let mut i: usize = 0;
    while i < n
        invariant
            i <= n,
            n == file.units@.len(),
            lantern.wf(),
            ids_match(*lantern),
            crate::parser::attrs_view(lantern.attributes@) == crate::parser::attrs_view(
                old(lantern).attributes@,
            ) + crate::parser::attrs_view(file.attributes@),
            corpus_grows(*old(lantern), *lantern),
            grows(old(errors)@, errors@),
            grows(old(pending)@, pending@),
            grows(old(placed)@, placed@),
            placed_covers(placed@, keys_of(*lantern)),
            root@.len() == 0,
            keys_of(*lantern) == place_all(
                keys_of(*old(lantern)),
                cds.take(i as int).flatten(),
            ),
            errors@.len() == old(errors)@.len() + dup_list(
                keys_of(*old(lantern)),
                cds.take(i as int).flatten(),
            ).len(),
            forall|m: int| old(errors)@.len() <= m < errors@.len() ==> {
                let d = dup_list(
                    keys_of(*old(lantern)),
                    cds.take(i as int).flatten(),
                )[m - old(errors)@.len()];
                &&& (#[trigger] errors@[m]).0@ == path@
                &&& errors@[m].1 matches CompileError::DuplicateDefinition {
                    kind,
                    key,
                    first_file,
                } && kind == d.kind && key@ == d.key && first_file@ == origin_of(
                    placed@,
                    d.kind,
                    d.key,
                    path@,
                )
                &&& placed_has(placed@, d.kind, d.key)
            },
            pending@.len() == old(pending)@.len() + inh_list(
                keys_of(*old(lantern)),
                cds.take(i as int).flatten(),
            ).len(),
            forall|m: int| old(pending)@.len() <= m < pending@.len() ==> {
                let d = inh_list(
                    keys_of(*old(lantern)),
                    cds.take(i as int).flatten(),
                )[m - old(pending)@.len()];
                &&& (#[trigger] pending@[m]).kind == d.kind
                &&& pending@[m].child@ == d.key
                &&& d.inherits == Some(pending@[m].parent@)
                &&& pending@[m].file@ == path@
            },
        decreases n - i,
    {
        proof {
            assert(cds.take(i + 1) =~= cds.take(i as int).push(cds[i as int]));
            cds.take(i as int).lemma_flatten_push(cds[i as int]);
            assert(cds[i as int] == unit_defs(file.units@[i as int], Seq::<u8>::empty()));
            lemma_place_all_concat(
                keys_of(*old(lantern)),
                cds.take(i as int).flatten(),
                cds[i as int],
            );
        }
        let ghost placed_before = placed@;
        let _ = merge_unit(lantern, &file.units[i], &root, path, pending, errors, placed);
        proof {
            assert forall|kind2: ComponentKind, k2: Seq<u8>| placed_has(
                placed_before,
                kind2,
                k2,
            ) implies placed_has(placed@, kind2, k2) && origin_of(placed@, kind2, k2, path@)
                == origin_of(placed_before, kind2, k2, path@) by {
                let w = choose|w: int| 0 <= w < placed_before.len() && (
                #[trigger] placed_before[w]).0 == kind2 && placed_before[w].1@ == k2;
                assert(placed@[w] == placed_before[w]);
                lemma_origin_stable(placed_before, placed@, kind2, k2, path@, path@);
            }
        }
        i = i + 1;
    }
    proof {
        assert(cds.take(n as int) =~= cds);
    }
}

/// Look a key up in an association map; in a well-formed map the
/// returned value is the key's one binding.
pub fn map_get<'a, T>(v: &'a Vec<(DefKey, T)>, key: &DefKey) -> (r: Option<&'a T>)
    ensures
        r is Some <==> crate::lantern::map_has_key(v@, key@),
        map_distinct(v@) ==> (r matches Some(t) ==> forall|q: int|
            0 <= q < v@.len() && (#[trigger] v@[q]).0@ == key@ ==> v@[q].1 == *t),
{
    let n: usize = v.len();
    let mut i: usize = 0;
    while i < n
        invariant
            i <= n,
            n == v@.len(),
            forall|q: int| 0 <= q < i ==> (#[trigger] v@[q]).0@ != key@,
        decreases n - i,
    {
        if v[i].0.eq_key(key) {
            return Some(&v[i].1);
        }
        i = i + 1;
    }
    None
}

/// Copy the unrecognized-keys bag.
fn dup_others(v: &Vec<(DefKey, crate::literal::Literal)>) -> (r: Vec<
    (DefKey, crate::literal::Literal),
>)
    ensures
        crate::parser::others_view(r@) == crate::parser::others_view(v@),
{
    let n: usize = v.len();
    let mut out: Vec<(DefKey, crate::literal::Literal)> = Vec::new();
    let mut i: usize = 0;
    while i < n
        invariant
            i <= n,
            n == v@.len(),
            out@.len() == i,
            forall|q: int| 0 <= q < i ==> (#[trigger] out@[q]).0@ == v@[q].0@ && out@[q].1@
                == v@[q].1@,
        decreases n - i,
    {
        out.push((v[i].0.duplicate(), v[i].1.duplicate()));
        i = i + 1;
    }
    assert(crate::parser::others_view(out@) =~= crate::parser::others_view(v@));
    out
}

/// Copy an aspect record; the copy's fields read back the same.
fn dup_aspect_record(a: &crate::lantern::Aspect) -> (r: crate::lantern::Aspect)
    ensures
        r.id@ == a.id@,
        r.label@ == a.label@,
        r.description@ == a.description@,
        crate::lantern::opt_bytes(r.icon) == crate::lantern::opt_bytes(a.icon),
        crate::lantern::opt_bytes(r.verbicon) == crate::lantern::opt_bytes(a.verbicon),
        crate::lantern::opt_induce(r.induces) == crate::lantern::opt_induce(a.induces),
        crate::lantern::opt_key(r.decays_to) == crate::lantern::opt_key(a.decays_to),
        r.hidden == a.hidden,
        crate::parser::xts_view(r.xtriggers@) == crate::parser::xts_view(a.xtriggers@),
        crate::parser::others_view(r.others@) == crate::parser::others_view(a.others@),
{
    crate::lantern::Aspect {
        id: a.id.duplicate(),
        label: dup_bytes(&a.label),
        description: dup_bytes(&a.description),
        icon: match &a.icon {
            Some(v) => Some(dup_bytes(v)),
            None => None,
        },
        verbicon: match &a.verbicon {
            Some(v) => Some(dup_bytes(v)),
            None => None,
        },
        induces: match &a.induces {
            Some((k, c)) => Some((k.duplicate(), *c)),
            None => None,
        },
        decays_to: match &a.decays_to {
            Some(k) => Some(k.duplicate()),
            None => None,
        },
        hidden: a.hidden,
        xtriggers: dup_xts(&a.xtriggers),
        others: dup_others(&a.others),
    }
}

/// Take the binding of `key` out of an association map, remembering
/// where it stood.
fn map_take<T>(v: &mut Vec<(DefKey, T)>, key: &DefKey) -> (r: Option<(usize, (DefKey, T))>)
    ensures
        r matches Some(q) ==> {
            &&& (q.0 as int) < old(v)@.len()
            &&& old(v)@[q.0 as int] == q.1
            &&& q.1.0@ == key@
            &&& final(v)@ == old(v)@.remove(q.0 as int)
        },
        r is None ==> final(v)@ == old(v)@ && !crate::lantern::map_has_key(old(v)@, key@),
{
    let n: usize = v.len();
    let mut i: usize = 0;
    while i < n
        invariant
            i <= n,
            n == v@.len(),
            v@ == old(v)@,
            forall|q: int| 0 <= q < i ==> (#[trigger] v@[q]).0@ != key@,
        decreases n - i,
    {
        if v[i].0.eq_key(key) {
            let pair = v.remove(i);
            return Some((i, pair));
        }
        i = i + 1;
    }
    None
}

/// Putting a same-keyed binding back where it was taken from keeps
/// the key sequence, and so the map's well-formedness.
proof fn lemma_remove_insert_keys<T>(a: Seq<(DefKey, T)>, idx: int, p_new: (DefKey, T))
    requires
        0 <= idx < a.len(),
        p_new.0@ == a[idx].0@,
    ensures
        map_keys(a.remove(idx).insert(idx, p_new)) == map_keys(a),
        map_distinct(a) ==> map_distinct(a.remove(idx).insert(idx, p_new)),
{
    let b = a.remove(idx).insert(idx, p_new);
    assert(b.len() == a.len());
    assert forall|i: int| 0 <= i < a.len() implies (#[trigger] b[i]).0@ == a[i].0@ by {
        if i < idx {
        } else if i == idx {
        } else {
        }
    }
    assert(map_keys(b) =~= map_keys(a));
    if map_distinct(a) {
        assert forall|i: int, j: int| 0 <= i < j < b.len() implies (#[trigger] b[i]).0@ != (
        #[trigger] b[j]).0@ by {
            assert(b[i].0@ == a[i].0@ && b[j].0@ == a[j].0@);
        }
    }
}

/// A key is in the key sequence exactly when the map binds it.
proof fn lemma_keys_has<T>(v: Seq<(DefKey, T)>, k: Seq<u8>)
    ensures
        map_keys(v).contains(k) <==> crate::lantern::map_has_key(v, k),
{
    if crate::lantern::map_has_key(v, k) {
        let i = choose|i: int| 0 <= i < v.len() && (#[trigger] v[i]).0@ == k;
        assert(map_keys(v)[i] == k);
    }
    if map_keys(v).contains(k) {
        let i = choose|i: int| 0 <= i < map_keys(v).len() && map_keys(v)[i] == k;
        assert(v[i].0@ == k);
    }
}

/// Union an unrecognized-keys bag with entries to add, skipping any
/// key the bag holds by the time it is reached.
pub open spec fn merged_others(
    base: Seq<(Seq<u8>, crate::literal::LitV)>,
    add: Seq<(Seq<u8>, crate::literal::LitV)>,
) -> Seq<(Seq<u8>, crate::literal::LitV)>
    decreases add.len(),
{
    if add.len() == 0 {
        base
    } else {
        let nb = if crate::parser::has_key(base, add[0].0) {
            base
        } else {
            base.push(add[0])
        };
        merged_others(nb, add.drop_first())
    }
}

/// Copy the parent's unrecognized keys that the child lacks.
#[verifier::loop_isolation(false)]
fn fill_others(
    child: &mut Vec<(DefKey, crate::literal::Literal)>,
    parent: &Vec<(DefKey, crate::literal::Literal)>,
)
    ensures
        crate::parser::others_view(final(child)@) == merged_others(
            crate::parser::others_view(old(child)@),
            crate::parser::others_view(parent@),
        ),
{
    let n: usize = parent.len();
    let ghost pv = crate::parser::others_view(parent@);
    let mut i: usize = 0;
    proof {
        assert(pv.skip(0) =~= pv);
    }
    while i < n
        invariant
            i <= n,
            n == parent@.len(),
            merged_others(crate::parser::others_view(old(child)@), pv) == merged_others(
                crate::parser::others_view(child@),
                pv.skip(i as int),
            ),
        decreases n - i,
    {
        let ghost cv = crate::parser::others_view(child@);
        proof {
            assert(pv.skip(i as int)[0] == pv[i as int]);
            assert(pv.skip(i as int).drop_first() =~= pv.skip(i + 1));
            assert(pv[i as int].0 == parent@[i as int].0@);
        }
        if !crate::parser::find_key(child, &parent[i].0) {
            let ghost oldc = child@;
            child.push((parent[i].0.duplicate(), parent[i].1.duplicate()));
            proof {
                assert(crate::parser::others_view(child@) =~= crate::parser::others_view(
                    oldc,
                ).push(pv[i as int]));
            }
        }
        i = i + 1;
    }
    proof {
        assert(pv.skip(n as int) =~= Seq::<(Seq<u8>, crate::literal::LitV)>::empty());
    }
}

/// Copy the trigger list.
fn dup_xts(v: &Vec<crate::lantern::Xtrigger>) -> (r: Vec<crate::lantern::Xtrigger>)
    ensures
        crate::parser::xts_view(r@) == crate::parser::xts_view(v@),
{
    let n: usize = v.len();
    let mut out: Vec<crate::lantern::Xtrigger> = Vec::new();
    let mut i: usize = 0;
    while i < n
        invariant
            i <= n,
            n == v@.len(),
            out@.len() == i,
            forall|q: int| 0 <= q < i ==> #[trigger] out@[q]@ == v@[q]@,
        decreases n - i,
    {
        out.push(v[i].clone());
        i = i + 1;
    }
    assert(crate::parser::xts_view(out@) =~= crate::parser::xts_view(v@));
    out
}

/// Apply a parent's fields to an aspect that left them unset: each
/// optional field falls back to the parent where the child has none,
/// the hidden flag falls back where the child left it false, and an
/// empty trigger list takes the parent's; the open bag gains every
/// parent key the child lacks. The child's signature fields stay its
/// own.
pub fn inherit_aspect(child: &mut crate::lantern::Aspect, parent: &crate::lantern::Aspect)
    ensures
        final(child).id@ == old(child).id@,
        final(child).label@ == old(child).label@,
        final(child).description@ == old(child).description@,
        crate::lantern::opt_bytes(final(child).icon) == (if old(child).icon is Some {
            crate::lantern::opt_bytes(old(child).icon)
        } else {
            crate::lantern::opt_bytes(parent.icon)
        }),
        crate::lantern::opt_bytes(final(child).verbicon) == (if old(child).verbicon is Some {
            crate::lantern::opt_bytes(old(child).verbicon)
        } else {
            crate::lantern::opt_bytes(parent.verbicon)
        }),
        crate::lantern::opt_induce(final(child).induces) == (if old(child).induces is Some {
            crate::lantern::opt_induce(old(child).induces)
        } else {
            crate::lantern::opt_induce(parent.induces)
        }),
        crate::lantern::opt_key(final(child).decays_to) == (if old(child).decays_to is Some {
            crate::lantern::opt_key(old(child).decays_to)
        } else {
            crate::lantern::opt_key(parent.decays_to)
        }),
        final(child).hidden == (old(child).hidden || parent.hidden),
        crate::parser::xts_view(final(child).xtriggers@) == (if old(child).xtriggers@.len() > 0 {
            crate::parser::xts_view(old(child).xtriggers@)
        } else {
            crate::parser::xts_view(parent.xtriggers@)
        }),
        crate::parser::others_view(final(child).others@) == merged_others(
            crate::parser::others_view(old(child).others@),
            crate::parser::others_view(parent.others@),
        ),
{
    if child.icon.is_none() {
        child.icon = match &parent.icon {
            Some(v) => Some(dup_bytes(v)),
            None => None,
        };
    }
    if child.verbicon.is_none() {
        child.verbicon = match &parent.verbicon {
            Some(v) => Some(dup_bytes(v)),
            None => None,
        };
    }
    if child.induces.is_none() {
        child.induces = match &parent.induces {
            Some((k, c)) => Some((k.duplicate(), *c)),
            None => None,
        };
    }
    if child.decays_to.is_none() {
        child.decays_to = match &parent.decays_to {
            Some(k) => Some(k.duplicate()),
            None => None,
        };
    }
    if !child.hidden {
        child.hidden = parent.hidden;
    }
    if child.xtriggers.len() == 0 {
        child.xtriggers = dup_xts(&parent.xtriggers);
    }
    fill_others(&mut child.others, &parent.others);
}

/// Copy a card record; the copy's fields read back the same.
fn dup_card_record(c: &crate::lantern::Card) -> (r: crate::lantern::Card)
    ensures
        r.id@ == c.id@,
        r.label@ == c.label@,
        r.description@ == c.description@,
        crate::lantern::opt_bytes(r.icon) == crate::lantern::opt_bytes(c.icon),
        crate::lantern::opt_bytes(r.verbicon) == crate::lantern::opt_bytes(c.verbicon),
        crate::lantern::opt_induce(r.induces) == crate::lantern::opt_induce(c.induces),
        crate::lantern::opt_key(r.decays_to) == crate::lantern::opt_key(c.decays_to),
        r.hidden == c.hidden,
        r.lifetime == c.lifetime,
        r.resaturate == c.resaturate,
        r.unique == c.unique,
        crate::lantern::opt_key(r.uniqueness_group) == crate::lantern::opt_key(
            c.uniqueness_group,
        ),
        crate::parser::card::aspects_view(r.aspects@) == crate::parser::card::aspects_view(
            c.aspects@,
        ),
        crate::parser::card::slots_view(r.slots@) == crate::parser::card::slots_view(c.slots@),
        crate::parser::xts_view(r.xtriggers@) == crate::parser::xts_view(c.xtriggers@),
        crate::parser::others_view(r.others@) == crate::parser::others_view(c.others@),
{
    crate::lantern::Card {
        id: c.id.duplicate(),
        label: dup_bytes(&c.label),
        description: dup_bytes(&c.description),
        icon: match &c.icon {
            Some(v) => Some(dup_bytes(v)),
            None => None,
        },
        verbicon: match &c.verbicon {
            Some(v) => Some(dup_bytes(v)),
            None => None,
        },
        induces: match &c.induces {
            Some((k, p)) => Some((k.duplicate(), *p)),
            None => None,
        },
        decays_to: match &c.decays_to {
            Some(k) => Some(k.duplicate()),
            None => None,
        },
        hidden: c.hidden,
        aspects: dup_aspect_pairs(&c.aspects),
        lifetime: c.lifetime,
        resaturate: c.resaturate,
        unique: c.unique,
        uniqueness_group: match &c.uniqueness_group {
            Some(k) => Some(k.duplicate()),
            None => None,
        },
        slots: dup_slots(&c.slots),
        xtriggers: dup_xts(&c.xtriggers),
        others: dup_others(&c.others),
    }
}

/// Copy a deck's entry list.
fn dup_deck_cards(v: &Vec<(DefKey, Option<Vec<u8>>)>) -> (r: Vec<(DefKey, Option<Vec<u8>>)>)
    ensures
        crate::parser::deck::cards_view(r@) == crate::parser::deck::cards_view(v@),
{
    let n: usize = v.len();
    let mut out: Vec<(DefKey, Option<Vec<u8>>)> = Vec::new();
    let mut i: usize = 0;
    while i < n
        invariant
            i <= n,
            n == v@.len(),
            out@.len() == i,
            forall|q: int| 0 <= q < i ==> (#[trigger] out@[q]).0@ == v@[q].0@
                && crate::lantern::opt_bytes(out@[q].1) == crate::lantern::opt_bytes(v@[q].1),
        decreases n - i,
    {
        let msg: Option<Vec<u8>> = match &v[i].1 {
            Some(m) => Some(dup_bytes(m)),
            None => None,
        };
        out.push((v[i].0.duplicate(), msg));
        i = i + 1;
    }
    assert(crate::parser::deck::cards_view(out@) =~= crate::parser::deck::cards_view(v@));
    out
}

/// Copy a deck record; the copy's fields read back the same.
fn dup_deck_record(d: &crate::lantern::Deck) -> (r: crate::lantern::Deck)
    ensures
        r.id@ == d.id@,
        r.label@ == d.label@,
        r.description@ == d.description@,
        crate::lantern::opt_key(r.default) == crate::lantern::opt_key(d.default),
        crate::parser::deck::cards_view(r.cards@) == crate::parser::deck::cards_view(d.cards@),
        r.is_portal_deck == d.is_portal_deck,
{
    crate::lantern::Deck {
        id: d.id.duplicate(),
        label: dup_bytes(&d.label),
        description: dup_bytes(&d.description),
        default: match &d.default {
            Some(k) => Some(k.duplicate()),
            None => None,
        },
        cards: dup_deck_cards(&d.cards),
        is_portal_deck: d.is_portal_deck,
    }
}

/// Copy a verb record; the copy's fields read back the same.
fn dup_verb_record(v: &crate::lantern::Verb) -> (r: crate::lantern::Verb)
    ensures
        r.id@ == v.id@,
        r.label@ == v.label@,
        r.description@ == v.description@,
        (match (r.slot, v.slot) {
            (Some(a), Some(b)) => a@ == b@,
            (None, None) => true,
            _ => false,
        }),
{
    crate::lantern::Verb {
        id: v.id.duplicate(),
        label: dup_bytes(&v.label),
        description: dup_bytes(&v.description),
        slot: match &v.slot {
            Some(sl) => Some(sl.clone()),
            None => None,
        },
    }
}

/// Copy an ending record; the copy's fields read back the same.
fn dup_ending_record(e: &crate::lantern::Ending) -> (r: crate::lantern::Ending)
    ensures
        r.id@ == e.id@,
        r.label@ == e.label@,
        r.description@ == e.description@,
        r.image@ == e.image@,
        r.music == e.music,
        r.animation == e.animation,
        r.achievement@ == e.achievement@,
{
    crate::lantern::Ending {
        id: e.id.duplicate(),
        label: dup_bytes(&e.label),
        description: dup_bytes(&e.description),
        image: dup_bytes(&e.image),
        music: e.music,
        animation: e.animation,
        achievement: dup_bytes(&e.achievement),
    }
}

/// The field-by-field statement that `n` is the card `c` with `par`'s
/// set fields taken as defaults, as `card_take_scalar_defaults` and
/// `card_take_list_defaults` apply them.
pub open spec fn card_inherited(
    c: crate::lantern::Card,
    par: crate::lantern::Card,
    n: crate::lantern::Card,
) -> bool {
    &&& n.id@ == c.id@
    &&& n.label@ == c.label@
    &&& n.description@ == c.description@
    &&& crate::lantern::opt_bytes(n.icon) == (if c.icon is Some {
        crate::lantern::opt_bytes(c.icon)
    } else {
        crate::lantern::opt_bytes(par.icon)
    })
    &&& crate::lantern::opt_bytes(n.verbicon) == (if c.verbicon is Some {
        crate::lantern::opt_bytes(c.verbicon)
    } else {
        crate::lantern::opt_bytes(par.verbicon)
    })
    &&& crate::lantern::opt_induce(n.induces) == (if c.induces is Some {
        crate::lantern::opt_induce(c.induces)
    } else {
        crate::lantern::opt_induce(par.induces)
    })
    &&& crate::lantern::opt_key(n.decays_to) == (if c.decays_to is Some {
        crate::lantern::opt_key(c.decays_to)
    } else {
        crate::lantern::opt_key(par.decays_to)
    })
    &&& n.hidden == (c.hidden || par.hidden)
    &&& n.lifetime == (if c.lifetime is Some {
        c.lifetime
    } else {
        par.lifetime
    })
    &&& n.resaturate == (c.resaturate || par.resaturate)
    &&& n.unique == (c.unique || par.unique)
    &&& crate::lantern::opt_key(n.uniqueness_group) == (if c.uniqueness_group is Some {
        crate::lantern::opt_key(c.uniqueness_group)
    } else {
        crate::lantern::opt_key(par.uniqueness_group)
    })
    &&& crate::parser::card::aspects_view(n.aspects@) == (if c.aspects@.len() > 0 {
        crate::parser::card::aspects_view(c.aspects@)
    } else {
        crate::parser::card::aspects_view(par.aspects@)
    })
    &&& crate::parser::card::slots_view(n.slots@) == (if c.slots@.len() > 0 {
        crate::parser::card::slots_view(c.slots@)
    } else {
        crate::parser::card::slots_view(par.slots@)
    })
    &&& crate::parser::xts_view(n.xtriggers@) == (if c.xtriggers@.len() > 0 {
        crate::parser::xts_view(c.xtriggers@)
    } else {
        crate::parser::xts_view(par.xtriggers@)
    })
    &&& crate::parser::others_view(n.others@) == merged_others(
        crate::parser::others_view(c.others@),
        crate::parser::others_view(par.others@),
    )
}

/// The deck form of the same statement, as `inherit_deck` applies it.
pub open spec fn deck_inherited(
    c: crate::lantern::Deck,
    par: crate::lantern::Deck,
    n: crate::lantern::Deck,
) -> bool {
    &&& n.id@ == c.id@
    &&& crate::lantern::opt_key(n.default) == (if c.default is Some {
        crate::lantern::opt_key(c.default)
    } else {
        crate::lantern::opt_key(par.default)
    })
    &&& crate::parser::deck::cards_view(n.cards@) == (if c.cards@.len() > 0 {
        crate::parser::deck::cards_view(c.cards@)
    } else {
        crate::parser::deck::cards_view(par.cards@)
    })
    &&& n.is_portal_deck == (if c.cards@.len() > 0 {
        c.is_portal_deck
    } else {
        par.is_portal_deck
    })
}

/// The verb form of the same statement, as `inherit_verb` applies it.
pub open spec fn verb_inherited(
    c: crate::lantern::Verb,
    par: crate::lantern::Verb,
    n: crate::lantern::Verb,
) -> bool {
    &&& n.id@ == c.id@
    &&& (c.slot is Some ==> n.slot == c.slot)
    &&& (c.slot is None ==> (match (n.slot, par.slot) {
        (Some(a), Some(b)) => a@ == b@,
        (None, None) => true,
        _ => false,
    }))
}

/// The ending form of the same statement, as `inherit_ending` applies
/// it.
pub open spec fn ending_inherited(
    c: crate::lantern::Ending,
    par: crate::lantern::Ending,
    n: crate::lantern::Ending,
) -> bool {
    &&& n.id@ == c.id@
    &&& n.image@ == (if c.image@.len() > 0 {
        c.image@
    } else {
        par.image@
    })
}

/// The unresolved-inheritance error for one pending clause.
fn mk_unresolved(p: &PendingInherit) -> (r: CompileError)
    ensures
        r matches CompileError::UnresolvedInheritance { key, parent } && key@ == p.child@
            && parent@ == p.parent@,
{
    CompileError::UnresolvedInheritance { key: p.child.duplicate(), parent: p.parent.duplicate() }
}

/// Copy a card's declared aspect list.
fn dup_aspect_pairs(v: &Vec<(DefKey, u32)>) -> (r: Vec<(DefKey, u32)>)
    ensures
        crate::parser::card::aspects_view(r@) == crate::parser::card::aspects_view(v@),
{
    let n: usize = v.len();
    let mut out: Vec<(DefKey, u32)> = Vec::new();
    let mut i: usize = 0;
    while i < n
        invariant
            i <= n,
            n == v@.len(),
            out@.len() == i,
            forall|q: int| 0 <= q < i ==> (#[trigger] out@[q]).0@ == v@[q].0@ && out@[q].1
                == v@[q].1,
        decreases n - i,
    {
        out.push((v[i].0.duplicate(), v[i].1));
        i = i + 1;
    }
    assert(crate::parser::card::aspects_view(out@) =~= crate::parser::card::aspects_view(v@));
    out
}

/// Copy a card's slot groups.
fn dup_slots(v: &Vec<(DefKey, Vec<crate::lantern::Slot>)>) -> (r: Vec<
    (DefKey, Vec<crate::lantern::Slot>),
>)
    ensures
        crate::parser::card::slots_view(r@) == crate::parser::card::slots_view(v@),
{
    let n: usize = v.len();
    let mut out: Vec<(DefKey, Vec<crate::lantern::Slot>)> = Vec::new();
    let mut i: usize = 0;
    while i < n
        invariant
            i <= n,
            n == v@.len(),
            out@.len() == i,
            forall|q: int| 0 <= q < i ==> (#[trigger] crate::parser::card::slots_view(out@)[q])
                == crate::parser::card::slots_view(v@)[q],
        decreases n - i,
    {
        let m: usize = v[i].1.len();
        let mut group: Vec<crate::lantern::Slot> = Vec::new();
        let mut j: usize = 0;
        while j < m
            invariant
                j <= m,
                i < n == v@.len(),
                m == v@[i as int].1@.len(),
                group@.len() == j,
                forall|q: int| 0 <= q < j ==> #[trigger] group@[q]@ == v@[i as int].1@[q]@,
            decreases m - j,
        {
            group.push(v[i].1[j].clone());
            j = j + 1;
        }
        let ghost old_out = out@;
        out.push((v[i].0.duplicate(), group));
        proof {
            let sv_out = crate::parser::card::slots_view(out@);
            let sv_in = crate::parser::card::slots_view(v@);
            assert forall|q: int| 0 <= q <= i implies (#[trigger] sv_out[q]) == sv_in[q] by {
                if q < i {
                    assert(out@[q] == old_out[q]);
                    assert(crate::parser::card::slots_view(old_out)[q] == sv_in[q]);
                    assert(sv_out[q].0 == crate::parser::card::slots_view(old_out)[q].0);
                    assert(sv_out[q].1 =~= crate::parser::card::slots_view(old_out)[q].1);
                } else {
                    assert(sv_out[q].1 =~= sv_in[q].1);
                }
            }
        }
        i = i + 1;
    }
    assert(crate::parser::card::slots_view(out@) =~= crate::parser::card::slots_view(v@));
    out
}

/// Apply a parent's scalar fields to a card that left them unset:
/// optional fields fall back where the child has none, flags where the
/// child left them false. The child's signature fields and lists stay
/// untouched here.
pub fn card_take_scalar_defaults(child: &mut crate::lantern::Card, parent: &crate::lantern::Card)
    ensures
        final(child).id@ == old(child).id@,
        final(child).label@ == old(child).label@,
        final(child).description@ == old(child).description@,
        crate::lantern::opt_bytes(final(child).icon) == (if old(child).icon is Some {
            crate::lantern::opt_bytes(old(child).icon)
        } else {
            crate::lantern::opt_bytes(parent.icon)
        }),
        crate::lantern::opt_bytes(final(child).verbicon) == (if old(child).verbicon is Some {
            crate::lantern::opt_bytes(old(child).verbicon)
        } else {
            crate::lantern::opt_bytes(parent.verbicon)
        }),
        crate::lantern::opt_induce(final(child).induces) == (if old(child).induces is Some {
            crate::lantern::opt_induce(old(child).induces)
        } else {
            crate::lantern::opt_induce(parent.induces)
        }),
        crate::lantern::opt_key(final(child).decays_to) == (if old(child).decays_to is Some {
            crate::lantern::opt_key(old(child).decays_to)
        } else {
            crate::lantern::opt_key(parent.decays_to)
        }),
        final(child).hidden == (old(child).hidden || parent.hidden),
        final(child).lifetime == (if old(child).lifetime is Some {
            old(child).lifetime
        } else {
            parent.lifetime
        }),
        final(child).resaturate == (old(child).resaturate || parent.resaturate),
        final(child).unique == (old(child).unique || parent.unique),
        crate::lantern::opt_key(final(child).uniqueness_group) == (
        if old(child).uniqueness_group is Some {
            crate::lantern::opt_key(old(child).uniqueness_group)
        } else {
            crate::lantern::opt_key(parent.uniqueness_group)
        }),
        final(child).aspects == old(child).aspects,
        final(child).slots == old(child).slots,
        final(child).xtriggers == old(child).xtriggers,
        final(child).others == old(child).others,
{
    if child.icon.is_none() {
        child.icon = match &parent.icon {
            Some(v) => Some(dup_bytes(v)),
            None => None,
        };
    }
    if child.verbicon.is_none() {
        child.verbicon = match &parent.verbicon {
            Some(v) => Some(dup_bytes(v)),
            None => None,
        };
    }
    if child.induces.is_none() {
        child.induces = match &parent.induces {
            Some((k, c)) => Some((k.duplicate(), *c)),
            None => None,
        };
    }
    if child.decays_to.is_none() {
        child.decays_to = match &parent.decays_to {
            Some(k) => Some(k.duplicate()),
            None => None,
        };
    }
    if !child.hidden {
        child.hidden = parent.hidden;
    }
    if child.lifetime.is_none() {
        child.lifetime = parent.lifetime;
    }
    if !child.resaturate {
        child.resaturate = parent.resaturate;
    }
    if !child.unique {
        child.unique = parent.unique;
    }
    if child.uniqueness_group.is_none() {
        child.uniqueness_group = match &parent.uniqueness_group {
            Some(k) => Some(k.duplicate()),
            None => None,
        };
    }
}

/// Apply a parent's list fields to a card that left them empty: the
/// declared aspect list, slot groups and triggers fall back whole, and
/// the open bag gains every parent key the child lacks. The scalar
/// fields stay untouched here.
pub fn card_take_list_defaults(child: &mut crate::lantern::Card, parent: &crate::lantern::Card)
    ensures
        final(child).id@ == old(child).id@,
        crate::parser::card::aspects_view(final(child).aspects@) == (
        if old(child).aspects@.len() > 0 {
            crate::parser::card::aspects_view(old(child).aspects@)
        } else {
            crate::parser::card::aspects_view(parent.aspects@)
        }),
        crate::parser::card::slots_view(final(child).slots@) == (if old(child).slots@.len() > 0 {
            crate::parser::card::slots_view(old(child).slots@)
        } else {
            crate::parser::card::slots_view(parent.slots@)
        }),
        crate::parser::xts_view(final(child).xtriggers@) == (if old(child).xtriggers@.len() > 0 {
            crate::parser::xts_view(old(child).xtriggers@)
        } else {
            crate::parser::xts_view(parent.xtriggers@)
        }),
        crate::parser::others_view(final(child).others@) == merged_others(
            crate::parser::others_view(old(child).others@),
            crate::parser::others_view(parent.others@),
        ),
        final(child).label == old(child).label,
        final(child).description == old(child).description,
        final(child).icon == old(child).icon,
        final(child).verbicon == old(child).verbicon,
        final(child).induces == old(child).induces,
        final(child).decays_to == old(child).decays_to,
        final(child).hidden == old(child).hidden,
        final(child).lifetime == old(child).lifetime,
        final(child).resaturate == old(child).resaturate,
        final(child).unique == old(child).unique,
        final(child).uniqueness_group == old(child).uniqueness_group,
{
    if child.aspects.len() == 0 {
        child.aspects = dup_aspect_pairs(&parent.aspects);
    }
    if child.slots.len() == 0 {
        child.slots = dup_slots(&parent.slots);
    }
    if child.xtriggers.len() == 0 {
        child.xtriggers = dup_xts(&parent.xtriggers);
    }
    fill_others(&mut child.others, &parent.others);
}

/// Apply a parent's fields to a deck that left them unset: an absent
/// default and an empty entry list fall back to the parent, and the
/// portal flag follows the entries it ends up with.
pub fn inherit_deck(child: &mut crate::lantern::Deck, parent: &crate::lantern::Deck)
    ensures
        final(child).id@ == old(child).id@,
        crate::lantern::opt_key(final(child).default) == (if old(child).default is Some {
            crate::lantern::opt_key(old(child).default)
        } else {
            crate::lantern::opt_key(parent.default)
        }),
        crate::parser::deck::cards_view(final(child).cards@) == (if old(child).cards@.len() > 0 {
            crate::parser::deck::cards_view(old(child).cards@)
        } else {
            crate::parser::deck::cards_view(parent.cards@)
        }),
        final(child).is_portal_deck == (if old(child).cards@.len() > 0 {
            old(child).is_portal_deck
        } else {
            parent.is_portal_deck
        }),
{
    if child.default.is_none() {
        child.default = match &parent.default {
            Some(k) => Some(k.duplicate()),
            None => None,
        };
    }
    if child.cards.len() == 0 {
        let n: usize = parent.cards.len();
        let mut out: Vec<(DefKey, Option<Vec<u8>>)> = Vec::new();
        let mut i: usize = 0;
        while i < n
            invariant
                i <= n,
                n == parent.cards@.len(),
                out@.len() == i,
                forall|q: int| 0 <= q < i
                    ==> (#[trigger] crate::parser::deck::cards_view(out@)[q])
                        == crate::parser::deck::cards_view(parent.cards@)[q],
            decreases n - i,
        {
            let msg: Option<Vec<u8>> = match &parent.cards[i].1 {
                Some(m) => Some(dup_bytes(m)),
                None => None,
            };
            let ghost old_out = out@;
            out.push((parent.cards[i].0.duplicate(), msg));
            proof {
                assert forall|q: int| 0 <= q <= i implies (
                #[trigger] crate::parser::deck::cards_view(out@)[q])
                    == crate::parser::deck::cards_view(parent.cards@)[q] by {
                    if q < i {
                        assert(out@[q] == old_out[q]);
                        assert(crate::parser::deck::cards_view(old_out)[q]
                            == crate::parser::deck::cards_view(parent.cards@)[q]);
                    }
                }
            }
            i = i + 1;
        }
        assert(crate::parser::deck::cards_view(out@) =~= crate::parser::deck::cards_view(
            parent.cards@,
        ));
        child.cards = out;
        child.is_portal_deck = parent.is_portal_deck;
    }
}

/// Apply a parent's slot to a verb that has none.
pub fn inherit_verb(child: &mut crate::lantern::Verb, parent: &crate::lantern::Verb)
    ensures
        final(child).id@ == old(child).id@,
        old(child).slot is Some ==> final(child).slot == old(child).slot,
        old(child).slot is None ==> (match (final(child).slot, parent.slot) {
            (Some(a), Some(b)) => a@ == b@,
            (None, None) => true,
            _ => false,
        }),
{
    if child.slot.is_none() {
        child.slot = match &parent.slot {
            Some(sl) => Some(sl.clone()),
            None => None,
        };
    }
}

/// Apply a parent's image to an ending that left it empty; the closed
/// enumerations always carry a value and are never inherited.
pub fn inherit_ending(child: &mut crate::lantern::Ending, parent: &crate::lantern::Ending)
    ensures
        final(child).id@ == old(child).id@,
        final(child).image@ == (if old(child).image@.len() > 0 {
            old(child).image@
        } else {
            parent.image@
        }),
{
    if child.image.len() == 0 {
        child.image = dup_bytes(&parent.image);
    }
}

/// The field-by-field statement that `n` is `c` with `par`'s set
/// fields taken as defaults: each optional field falls back to the
/// parent where the child has none, flags fall back where false, an
/// empty trigger list takes the parent's, and the open bag gains every
/// parent key the child lacks. The signature fields stay the child's.
pub open spec fn aspect_inherited(
    c: crate::lantern::Aspect,
    par: crate::lantern::Aspect,
    n: crate::lantern::Aspect,
) -> bool {
    &&& n.id@ == c.id@
    &&& n.label@ == c.label@
    &&& n.description@ == c.description@
    &&& crate::lantern::opt_bytes(n.icon) == (if c.icon is Some {
        crate::lantern::opt_bytes(c.icon)
    } else {
        crate::lantern::opt_bytes(par.icon)
    })
    &&& crate::lantern::opt_bytes(n.verbicon) == (if c.verbicon is Some {
        crate::lantern::opt_bytes(c.verbicon)
    } else {
        crate::lantern::opt_bytes(par.verbicon)
    })
    &&& crate::lantern::opt_induce(n.induces) == (if c.induces is Some {
        crate::lantern::opt_induce(c.induces)
    } else {
        crate::lantern::opt_induce(par.induces)
    })
    &&& crate::lantern::opt_key(n.decays_to) == (if c.decays_to is Some {
        crate::lantern::opt_key(c.decays_to)
    } else {
        crate::lantern::opt_key(par.decays_to)
    })
    &&& n.hidden == (c.hidden || par.hidden)
    &&& crate::parser::xts_view(n.xtriggers@) == (if c.xtriggers@.len() > 0 {
        crate::parser::xts_view(c.xtriggers@)
    } else {
        crate::parser::xts_view(par.xtriggers@)
    })
    &&& crate::parser::others_view(n.others@) == merged_others(
        crate::parser::others_view(c.others@),
        crate::parser::others_view(par.others@),
    )
}

/// Resolve one recorded `from` clause against the assembled corpus:
/// when the named parent exists in the child's kind, the parent's set
/// fields become the child's defaults and nothing is reported; when it
/// does not, the result is the `UnresolvedInheritance` error for this
/// clause. No key is ever added, lost or renamed. Recipes and legacies
/// take no field defaults from a parent; only the parent's existence
/// is checked.
pub fn resolve_one(l: &mut Lantern, p: &PendingInherit) -> (r: Option<CompileError>)
    requires
        old(l).wf(),
        ids_match(*old(l)),
    ensures
        final(l).wf(),
        ids_match(*final(l)),
        same_keys(*old(l), *final(l)),
        r is None <==> kind_has(*old(l), p.kind, p.parent@),
        r matches Some(e) ==> (e matches CompileError::UnresolvedInheritance { key, parent }
            && key@ == p.child@ && parent@ == p.parent@),
        (p.kind == ComponentKind::Aspect && kind_has(*old(l), ComponentKind::Aspect, p.parent@)
            && p.parent@ != p.child@) ==> forall|ci: int, pi: int|
            (0 <= ci < old(l).aspects@.len() && (#[trigger] old(l).aspects@[ci]).0@ == p.child@
                && 0 <= pi < old(l).aspects@.len() && (#[trigger] old(l).aspects@[pi]).0@
                == p.parent@) ==> ci < final(l).aspects@.len() && aspect_inherited(
                old(l).aspects@[ci].1,
                old(l).aspects@[pi].1,
                final(l).aspects@[ci].1,
            ),
        (p.kind == ComponentKind::Card && kind_has(*old(l), ComponentKind::Card, p.parent@)
            && p.parent@ != p.child@) ==> forall|ci: int, pi: int|
            (0 <= ci < old(l).cards@.len() && (#[trigger] old(l).cards@[ci]).0@ == p.child@ && 0
                <= pi < old(l).cards@.len() && (#[trigger] old(l).cards@[pi]).0@ == p.parent@)
                ==> ci < final(l).cards@.len() && card_inherited(
                old(l).cards@[ci].1,
                old(l).cards@[pi].1,
                final(l).cards@[ci].1,
            ),
        (p.kind == ComponentKind::Deck && kind_has(*old(l), ComponentKind::Deck, p.parent@)
            && p.parent@ != p.child@) ==> forall|ci: int, pi: int|
            (0 <= ci < old(l).decks@.len() && (#[trigger] old(l).decks@[ci]).0@ == p.child@ && 0
                <= pi < old(l).decks@.len() && (#[trigger] old(l).decks@[pi]).0@ == p.parent@)
                ==> ci < final(l).decks@.len() && deck_inherited(
                old(l).decks@[ci].1,
                old(l).decks@[pi].1,
                final(l).decks@[ci].1,
            ),
        (p.kind == ComponentKind::Verb && kind_has(*old(l), ComponentKind::Verb, p.parent@)
            && p.parent@ != p.child@) ==> forall|ci: int, pi: int|
            (0 <= ci < old(l).verbs@.len() && (#[trigger] old(l).verbs@[ci]).0@ == p.child@ && 0
                <= pi < old(l).verbs@.len() && (#[trigger] old(l).verbs@[pi]).0@ == p.parent@)
                ==> ci < final(l).verbs@.len() && verb_inherited(
                old(l).verbs@[ci].1,
                old(l).verbs@[pi].1,
                final(l).verbs@[ci].1,
            ),
        (p.kind == ComponentKind::Ending && kind_has(*old(l), ComponentKind::Ending, p.parent@)
            && p.parent@ != p.child@) ==> forall|ci: int, pi: int|
            (0 <= ci < old(l).endings@.len() && (#[trigger] old(l).endings@[ci]).0@ == p.child@
                && 0 <= pi < old(l).endings@.len() && (#[trigger] old(l).endings@[pi]).0@
                == p.parent@) ==> ci < final(l).endings@.len() && ending_inherited(
                old(l).endings@[ci].1,
                old(l).endings@[pi].1,
                final(l).endings@[ci].1,
            ),
{
    match p.kind {
        ComponentKind::Aspect => {
            proof {
                lemma_keys_has(l.aspects@, p.parent@);
            }
            let parent_rec: crate::lantern::Aspect = match map_get(&l.aspects, &p.parent) {
                Some(pr) => dup_aspect_record(pr),
                None => {
                    return Some(mk_unresolved(p));
                },
            };
            if p.parent.eq_key(&p.child) {
                return None;
            }
            let ghost oldv = l.aspects@;
            match map_take(&mut l.aspects, &p.child) {
                Some((idx, mut pair)) => {
                    inherit_aspect(&mut pair.1, &parent_rec);
                    l.aspects.insert(idx, pair);
                    proof {
                        lemma_remove_insert_keys(oldv, idx as int, l.aspects@[idx as int]);
                        assert(map_keys(l.aspects@) =~= map_keys(
                            oldv.remove(idx as int).insert(idx as int, l.aspects@[idx as int]),
                        ));
                        assert forall|ci: int, pi: int|
                            (0 <= ci < oldv.len() && (#[trigger] oldv[ci]).0@ == p.child@ && 0
                                <= pi < oldv.len() && (#[trigger] oldv[pi]).0@ == p.parent@)
                            implies ci < l.aspects@.len() && aspect_inherited(
                            oldv[ci].1,
                            oldv[pi].1,
                            l.aspects@[ci].1,
                        ) by {
                            assert(ci == idx as int);
                            assert(l.aspects@[ci] == l.aspects@[idx as int]);
                        }
                    }
                    None
                },
                None => None,
            }
        },
        ComponentKind::Card => {
            proof {
                lemma_keys_has(l.cards@, p.parent@);
            }
            let parent_rec: crate::lantern::Card = match map_get(&l.cards, &p.parent) {
                Some(pr) => dup_card_record(pr),
                None => {
                    return Some(mk_unresolved(p));
                },
            };
            if p.parent.eq_key(&p.child) {
                return None;
            }
            let ghost oldv = l.cards@;
            match map_take(&mut l.cards, &p.child) {
                Some((idx, mut pair)) => {
                    let ghost c0 = pair.1;
                    card_take_scalar_defaults(&mut pair.1, &parent_rec);
                    card_take_list_defaults(&mut pair.1, &parent_rec);
                    proof {
                        assert(card_inherited(c0, parent_rec, pair.1));
                    }
                    l.cards.insert(idx, pair);
                    proof {
                        lemma_remove_insert_keys(oldv, idx as int, l.cards@[idx as int]);
                        assert(map_keys(l.cards@) =~= map_keys(
                            oldv.remove(idx as int).insert(idx as int, l.cards@[idx as int]),
                        ));
                        assert forall|ci: int, pi: int|
                            (0 <= ci < oldv.len() && (#[trigger] oldv[ci]).0@ == p.child@ && 0
                                <= pi < oldv.len() && (#[trigger] oldv[pi]).0@ == p.parent@)
                            implies ci < l.cards@.len() && card_inherited(
                            oldv[ci].1,
                            oldv[pi].1,
                            l.cards@[ci].1,
                        ) by {
                            assert(ci == idx as int);
                            assert(l.cards@[ci] == l.cards@[idx as int]);
                        }
                    }
                    None
                },
                None => None,
            }
        },
        ComponentKind::Deck => {
            proof {
                lemma_keys_has(l.decks@, p.parent@);
            }
            let parent_rec: crate::lantern::Deck = match map_get(&l.decks, &p.parent) {
                Some(pr) => dup_deck_record(pr),
                None => {
                    return Some(mk_unresolved(p));
                },
            };
            if p.parent.eq_key(&p.child) {
                return None;
            }
            let ghost oldv = l.decks@;
            match map_take(&mut l.decks, &p.child) {
                Some((idx, mut pair)) => {
                    inherit_deck(&mut pair.1, &parent_rec);
                    l.decks.insert(idx, pair);
                    proof {
                        lemma_remove_insert_keys(oldv, idx as int, l.decks@[idx as int]);
                        assert(map_keys(l.decks@) =~= map_keys(
                            oldv.remove(idx as int).insert(idx as int, l.decks@[idx as int]),
                        ));
                        assert forall|ci: int, pi: int|
                            (0 <= ci < oldv.len() && (#[trigger] oldv[ci]).0@ == p.child@ && 0
                                <= pi < oldv.len() && (#[trigger] oldv[pi]).0@ == p.parent@)
                            implies ci < l.decks@.len() && deck_inherited(
                            oldv[ci].1,
                            oldv[pi].1,
                            l.decks@[ci].1,
                        ) by {
                            assert(ci == idx as int);
                            assert(l.decks@[ci] == l.decks@[idx as int]);
                        }
                    }
                    None
                },
                None => None,
            }
        },
        ComponentKind::Verb => {
            proof {
                lemma_keys_has(l.verbs@, p.parent@);
            }
            let parent_rec: crate::lantern::Verb = match map_get(&l.verbs, &p.parent) {
                Some(pr) => dup_verb_record(pr),
                None => {
                    return Some(mk_unresolved(p));
                },
            };
            if p.parent.eq_key(&p.child) {
                return None;
            }
            let ghost oldv = l.verbs@;
            match map_take(&mut l.verbs, &p.child) {
                Some((idx, mut pair)) => {
                    inherit_verb(&mut pair.1, &parent_rec);
                    l.verbs.insert(idx, pair);
                    proof {
                        lemma_remove_insert_keys(oldv, idx as int, l.verbs@[idx as int]);
                        assert(map_keys(l.verbs@) =~= map_keys(
                            oldv.remove(idx as int).insert(idx as int, l.verbs@[idx as int]),
                        ));
                        assert forall|ci: int, pi: int|
                            (0 <= ci < oldv.len() && (#[trigger] oldv[ci]).0@ == p.child@ && 0
                                <= pi < oldv.len() && (#[trigger] oldv[pi]).0@ == p.parent@)
                            implies ci < l.verbs@.len() && verb_inherited(
                            oldv[ci].1,
                            oldv[pi].1,
                            l.verbs@[ci].1,
                        ) by {
                            assert(ci == idx as int);
                            assert(l.verbs@[ci] == l.verbs@[idx as int]);
                        }
                    }
                    None
                },
                None => None,
            }
        },
        ComponentKind::Ending => {
            proof {
                lemma_keys_has(l.endings@, p.parent@);
            }
            let parent_rec: crate::lantern::Ending = match map_get(&l.endings, &p.parent) {
                Some(pr) => dup_ending_record(pr),
                None => {
                    return Some(mk_unresolved(p));
                },
            };
            if p.parent.eq_key(&p.child) {
                return None;
            }
            let ghost oldv = l.endings@;
            match map_take(&mut l.endings, &p.child) {
                Some((idx, mut pair)) => {
                    inherit_ending(&mut pair.1, &parent_rec);
                    l.endings.insert(idx, pair);
                    proof {
                        lemma_remove_insert_keys(oldv, idx as int, l.endings@[idx as int]);
                        assert(map_keys(l.endings@) =~= map_keys(
                            oldv.remove(idx as int).insert(idx as int, l.endings@[idx as int]),
                        ));
                        assert forall|ci: int, pi: int|
                            (0 <= ci < oldv.len() && (#[trigger] oldv[ci]).0@ == p.child@ && 0
                                <= pi < oldv.len() && (#[trigger] oldv[pi]).0@ == p.parent@)
                            implies ci < l.endings@.len() && ending_inherited(
                            oldv[ci].1,
                            oldv[pi].1,
                            l.endings@[ci].1,
                        ) by {
                            assert(ci == idx as int);
                            assert(l.endings@[ci] == l.endings@[idx as int]);
                        }
                    }
                    None
                },
                None => None,
            }
        },
        ComponentKind::Recipe => {
            proof {
                lemma_keys_has(l.recipes@, p.parent@);
            }
            match map_get(&l.recipes, &p.parent) {
                Some(_) => None,
                None => Some(mk_unresolved(p)),
            }
        },
        ComponentKind::Legacy => {
            proof {
                lemma_keys_has(l.legacies@, p.parent@);
            }
            match map_get(&l.legacies, &p.parent) {
                Some(_) => None,
                None => Some(mk_unresolved(p)),
            }
        },
    }
}

/// How many recorded clauses name a parent absent from the corpus.
pub open spec fn miss_count(l: Lantern, ps: Seq<PendingInherit>) -> nat
    decreases ps.len(),
{
    if ps.len() == 0 {
        0
    } else {
        miss_count(l, ps.drop_last()) + (if kind_has(l, ps.last().kind, ps.last().parent@) {
            0nat
        } else {
            1nat
        })
    }
}

/// Resolve every recorded `from` clause, after all files have merged:
/// exactly the clauses whose parent is absent add an
/// `UnresolvedInheritance` error, attributed to the clause's file; no
/// key of the corpus changes.
#[verifier::loop_isolation(false)]
pub fn resolve_inheritance(
    l: &mut Lantern,
    pending: &Vec<PendingInherit>,
    errors: &mut Vec<(String, CompileError)>,
)
    requires
        old(l).wf(),
        ids_match(*old(l)),
    ensures
        final(l).wf(),
        ids_match(*final(l)),
        same_keys(*old(l), *final(l)),
        grows(old(errors)@, final(errors)@),
        final(errors)@.len() == old(errors)@.len() + miss_count(*old(l), pending@),
        forall|i: int| old(errors)@.len() <= i < final(errors)@.len() ==> (
        #[trigger] final(errors)@[i]).1 matches CompileError::UnresolvedInheritance { .. },
{
    let n: usize = pending.len();
    let mut i: usize = 0;
    proof {
        assert(pending@.take(0) =~= Seq::<PendingInherit>::empty());
    }
    while i < n
        invariant
            i <= n,
            l.wf(),
            ids_match(*l),
            same_keys(*old(l), *l),
            grows(old(errors)@, errors@),
            errors@.len() == old(errors)@.len() + miss_count(*old(l), pending@.take(i as int)),
            forall|q: int| old(errors)@.len() <= q < errors@.len() ==> (#[trigger] errors@[q]).1
                matches CompileError::UnresolvedInheritance { .. },
        decreases n - i,
    {
        proof {
            assert(pending@.take(i + 1).drop_last() =~= pending@.take(i as int));
            assert(pending@.take(i + 1).last() == pending@[i as int]);
        }
        match resolve_one(l, &pending[i]) {
            Some(e) => {
                errors.push((dup_string(&pending[i].file), e));
            },
            None => {},
        }
        i = i + 1;
    }
    proof {
        assert(pending@.take(n as int) =~= pending@);
    }
}

/// The empty key state, before any file links.
pub open spec fn keys0() -> KeysV {
    KeysV {
        aspects: Seq::empty(),
        cards: Seq::empty(),
        decks: Seq::empty(),
        recipes: Seq::empty(),
        verbs: Seq::empty(),
        legacies: Seq::empty(),
        endings: Seq::empty(),
    }
}

/// The per-kind keys after linking the parsed trees in order;
/// a failed file contributes nothing.
pub open spec fn link_keys(ks: KeysV, outs: Seq<(String, Result<Crucible, ParseError>)>) -> KeysV
    decreases outs.len(),
{
    if outs.len() == 0 {
        ks
    } else {
        let prev = link_keys(ks, outs.drop_last());
        match outs.last().1 {
            Ok(c) => place_all(prev, file_defs(c)),
            Err(_) => prev,
        }
    }
}

/// How many errors the merge phase collects: one per failed file, one
/// per duplicate definition.
pub open spec fn n_link_errors(ks: KeysV, outs: Seq<(String, Result<Crucible, ParseError>)>) -> nat
    decreases outs.len(),
{
    if outs.len() == 0 {
        0
    } else {
        n_link_errors(ks, outs.drop_last()) + (match outs.last().1 {
            Ok(c) => n_dups(link_keys(ks, outs.drop_last()), file_defs(c)),
            Err(_) => 1nat,
        })
    }
}

/// Whether one per-file outcome is what the file's scan demands: the
/// parsed tree on a full scan, a fatal fault's error, or the
/// leftover-text error — never a bare backtrackable mismatch.
pub open spec fn outcome_matches(
    text: Seq<u8>,
    out: Result<Crucible, ParseError>,
) -> bool {
    match crate::parser::crucible_scan(text) {
        crate::parser::FileOutcome::Hit(attrs, us) => out matches Ok(c) && crate::parser::attrs_view(
            c.attributes@,
        ) == attrs && us.len() == c.units@.len() && (forall|m: int|
            0 <= m < c.units@.len() ==> crate::parser::unit_built(
                us[m],
                #[trigger] c.units@[m],
            )),
        crate::parser::FileOutcome::Fatal => out matches Err(e) && e matches ParseError::Fail {
            ..
        },
        crate::parser::FileOutcome::Stuck => out matches Err(e)
            && e matches ParseError::NonEmpty { .. },
    }
}

/// Phase one of a run: parse every file independently, exactly as each
/// file's [`crate::parser::crucible_scan`] describes; a failure never
/// stops the remaining files.
pub fn parse_files(files: &Vec<(String, Vec<u8>)>) -> (outcomes: Vec<
    (String, Result<Crucible, ParseError>),
>)
    ensures
        outcomes@.len() == files@.len(),
        forall|k: int| 0 <= k < files@.len() ==> (#[trigger] outcomes@[k]).0@ == files@[k].0@,
        forall|k: int| 0 <= k < files@.len() ==> outcome_matches(
            files@[k].1@,
            (#[trigger] outcomes@[k]).1,
        ),
        forall|k: int| 0 <= k < files@.len() ==> ((#[trigger] outcomes@[k]).1 matches Err(e)
            ==> !(e is Syntax)),
{
    let n: usize = files.len();
    let mut outcomes: Vec<(String, Result<Crucible, ParseError>)> = Vec::new();
    let mut i: usize = 0;
    while i < n
        invariant
            i <= n,
            n == files@.len(),
            outcomes@.len() == i,
            forall|k: int| 0 <= k < i ==> (#[trigger] outcomes@[k]).0@ == files@[k].0@,
            forall|k: int| 0 <= k < i ==> outcome_matches(
                files@[k].1@,
                (#[trigger] outcomes@[k]).1,
            ),
            forall|k: int| 0 <= k < i ==> ((#[trigger] outcomes@[k]).1 matches Err(e) ==> !(
            e is Syntax)),
        decreases n - i,
    {
        let outcome = crate::parser::p_crucible(files[i].1.as_slice());
        outcomes.push((dup_string(&files[i].0), outcome));
        i = i + 1;
    }
    outcomes
}

/// The `from` clauses the merge phase records, over the parsed trees
/// in order.
pub open spec fn link_pending(ks: KeysV, outs: Seq<(String, Result<Crucible, ParseError>)>) -> Seq<
    DefV,
>
    decreases outs.len(),
{
    if outs.len() == 0 {
        Seq::empty()
    } else {
        link_pending(ks, outs.drop_last()) + (match outs.last().1 {
            Ok(c) => inh_list(link_keys(ks, outs.drop_last()), file_defs(c)),
            Err(_) => Seq::empty(),
        })
    }
}

/// When no unresolved parent was counted, every recorded parent is
/// bound.
proof fn lemma_miss_zero(l: Lantern, ps: Seq<PendingInherit>, m: int)
    requires
        miss_count(l, ps) == 0,
        0 <= m < ps.len(),
    ensures
        kind_has(l, ps[m].kind, ps[m].parent@),
    decreases ps.len(),
{
    if m == ps.len() - 1 {
    } else {
        lemma_miss_zero(l, ps.drop_last(), m);
    }
}

/// Phase two of a run: merge every parsed tree into one corpus, then
/// resolve inheritance. The corpus keys are exactly [`link_keys`] over
/// the outcomes; every parse failure and every duplicate definition
/// contributes an error, and a run with any such error returns no
/// corpus.
#[verifier::loop_isolation(false)]
pub fn link(outcomes: Vec<(String, Result<Crucible, ParseError>)>) -> (r: Result<
    Lantern,
    Vec<(String, CompileError)>,
>)
    ensures
        r matches Ok(l) ==> l.wf() && ids_match(l) && keys_of(l) == link_keys(keys0(), outcomes@)
            && n_link_errors(keys0(), outcomes@) == 0,
        r matches Ok(l) ==> forall|m: int| 0 <= m < link_pending(keys0(), outcomes@).len()
            ==> {
            let d = #[trigger] link_pending(keys0(), outcomes@)[m];
            d.inherits matches Some(par) && kind_keys(keys_of(l), d.kind).contains(par)
        },
        n_link_errors(keys0(), outcomes@) > 0 ==> r is Err,
        r matches Err(es) ==> es@.len() > 0 && es@.len() >= n_link_errors(keys0(), outcomes@),
{
    let mut lantern = Lantern::empty();
    let mut errors: Vec<(String, CompileError)> = Vec::new();
    let mut pending: Vec<PendingInherit> = Vec::new();
    let mut placed: Vec<(ComponentKind, DefKey, String)> = Vec::new();
    let n: usize = outcomes.len();
    let mut i: usize = 0;
    proof {
        assert(outcomes@.take(0) =~= Seq::<(String, Result<Crucible, ParseError>)>::empty());
        assert(keys_of(lantern) == keys0()) by {
            assert(map_keys(lantern.aspects@) =~= Seq::<Seq<u8>>::empty());
            assert(map_keys(lantern.cards@) =~= Seq::<Seq<u8>>::empty());
            assert(map_keys(lantern.decks@) =~= Seq::<Seq<u8>>::empty());
            assert(map_keys(lantern.recipes@) =~= Seq::<Seq<u8>>::empty());
            assert(map_keys(lantern.verbs@) =~= Seq::<Seq<u8>>::empty());
            assert(map_keys(lantern.legacies@) =~= Seq::<Seq<u8>>::empty());
            assert(map_keys(lantern.endings@) =~= Seq::<Seq<u8>>::empty());
        }
    }
    proof {
        assert(link_pending(keys0(), outcomes@.take(0)) == Seq::<DefV>::empty());
    }
    while i < n
        invariant
            i <= n,
            n == outcomes@.len(),
            lantern.wf(),
            ids_match(lantern),
            placed_covers(placed@, keys_of(lantern)),
            keys_of(lantern) == link_keys(keys0(), outcomes@.take(i as int)),
            errors@.len() == n_link_errors(keys0(), outcomes@.take(i as int)),
            pending@.len() == link_pending(keys0(), outcomes@.take(i as int)).len(),
            forall|m: int| 0 <= m < pending@.len() ==> {
                let d = link_pending(keys0(), outcomes@.take(i as int))[m];
                &&& (#[trigger] pending@[m]).kind == d.kind
                &&& pending@[m].child@ == d.key
                &&& d.inherits == Some(pending@[m].parent@)
            },
        decreases n - i,
    {
        proof {
            assert(outcomes@.take(i + 1).drop_last() =~= outcomes@.take(i as int));
            assert(outcomes@.take(i + 1).last() == outcomes@[i as int]);
        }
        match &outcomes[i].1 {
            Ok(cruc) => {
                let ghost prev_keys = keys_of(lantern);
                merge_file(
                    &mut lantern,
                    cruc,
                    &outcomes[i].0,
                    &mut pending,
                    &mut errors,
                    &mut placed,
                );
                proof {
                    lemma_list_counts(prev_keys, file_defs(*cruc));
                }
            },
            Err(e) => {
                errors.push(
                    (
                        dup_string(&outcomes[i].0),
                        CompileError::Parse { error: copy_parse_error(e) },
                    ),
                );
            },
        }
        i = i + 1;
    }
    proof {
        assert(outcomes@.take(n as int) =~= outcomes@);
    }
    let ghost pre_resolve = lantern;
    let ghost pre_errors = errors@.len();
    resolve_inheritance(&mut lantern, &pending, &mut errors);
    if errors.len() == 0 {
        proof {
            assert(keys_of(lantern) == keys_of(pre_resolve)) by {
                assert(same_keys(pre_resolve, lantern));
            }
            assert(outcomes@.take(n as int) =~= outcomes@);
            assert(miss_count(pre_resolve, pending@) == 0);
            assert forall|m: int| 0 <= m < link_pending(keys0(), outcomes@).len() implies {
                let d = #[trigger] link_pending(keys0(), outcomes@)[m];
                d.inherits matches Some(par) && kind_keys(keys_of(lantern), d.kind).contains(
                    par,
                )
            } by {
                lemma_miss_zero(pre_resolve, pending@, m);
                assert(kind_has(pre_resolve, pending@[m].kind, pending@[m].parent@));
                assert(same_keys(pre_resolve, lantern));
            }
        }
        Ok(lantern)
    } else {
        Err(errors)
    }
}

/// Copy a parse error; the copy has the same shape, position and
/// fault.
fn copy_parse_error(e: &ParseError) -> (r: ParseError)
    ensures
        *e matches ParseError::Syntax { pos } ==> r == (ParseError::Syntax { pos }),
        *e matches ParseError::NonEmpty { pos } ==> r == (ParseError::NonEmpty { pos }),
        *e matches ParseError::Fail { pos, fault } ==> (r matches ParseError::Fail {
            pos: p2,
            fault: f2,
        } && p2 == pos && f2@ == fault@),
{
    match e {
        ParseError::Syntax { pos } => ParseError::Syntax { pos: *pos },
        ParseError::Fail { pos, fault } => ParseError::Fail {
            pos: *pos,
            fault: copy_fault(fault),
        },
        ParseError::NonEmpty { pos } => ParseError::NonEmpty { pos: *pos },
    }
}

/// Copy a fault; the copy has the same ghost shape.
fn copy_fault(f: &crate::errors::Fault) -> (r: crate::errors::Fault)
    ensures
        r@ == f@,
{
    match f {
        crate::errors::Fault::InvalidProbability => crate::errors::Fault::InvalidProbability,
        crate::errors::Fault::ReservedKey { key } => crate::errors::Fault::ReservedKey {
            key: key.duplicate(),
        },
        crate::errors::Fault::DuplicateAssignment { key } =>
            crate::errors::Fault::DuplicateAssignment { key: key.duplicate() },
        crate::errors::Fault::TypeMismatch { key } => crate::errors::Fault::TypeMismatch {
            key: key.duplicate(),
        },
        crate::errors::Fault::InvalidEnumValue { key } => crate::errors::Fault::InvalidEnumValue {
            key: key.duplicate(),
        },
        crate::errors::Fault::MissingKey { key } => crate::errors::Fault::MissingKey {
            key: key.duplicate(),
        },
        crate::errors::Fault::DuplicateAspect { key } => crate::errors::Fault::DuplicateAspect {
            key: key.duplicate(),
        },
        crate::errors::Fault::DuplicateInduce => crate::errors::Fault::DuplicateInduce,
        crate::errors::Fault::UniqueConflict => crate::errors::Fault::UniqueConflict,
        crate::errors::Fault::DuplicateDefault => crate::errors::Fault::DuplicateDefault,
        crate::errors::Fault::NotAnObject => crate::errors::Fault::NotAnObject,
    }
}

/// The kind a scanned declaration is.
pub open spec fn decl_kind(d: crate::parser::CompDeclV) -> ComponentKind {
    match d {
        crate::parser::CompDeclV::Aspect(_) => ComponentKind::Aspect,
        crate::parser::CompDeclV::Card(_) => ComponentKind::Card,
        crate::parser::CompDeclV::Deck(_) => ComponentKind::Deck,
        crate::parser::CompDeclV::Verb(_) => ComponentKind::Verb,
        crate::parser::CompDeclV::Ending(_) => ComponentKind::Ending,
    }
}

/// The id a scanned declaration carries.
pub open spec fn decl_id(d: crate::parser::CompDeclV) -> Seq<u8> {
    match d {
        crate::parser::CompDeclV::Aspect(q) => q.id,
        crate::parser::CompDeclV::Card(q) => q.sig.id,
        crate::parser::CompDeclV::Deck(q) => q.id,
        crate::parser::CompDeclV::Verb(q) => q.id,
        crate::parser::CompDeclV::Ending(q) => q.id,
    }
}

/// The definitions of one scanned unit under a namespace prefix.
pub open spec fn sv_defs(v: crate::parser::UnitScanV, prefix: Seq<u8>) -> Seq<DefV>
    decreases v,
{
    match v {
        crate::parser::UnitScanV::Component { inherits, decl, .. } => seq![
            DefV { kind: decl_kind(decl), key: prefix + decl_id(decl), inherits },
        ],
        crate::parser::UnitScanV::Namespace { id, units, .. } => svs_map(
            units,
            prefix + id + seq![0x2eu8],
        ).flatten(),
    }
}

/// The definitions of each scanned child unit, one sequence per child.
pub open spec fn svs_map(units: Seq<crate::parser::UnitScanV>, prefix: Seq<u8>) -> Seq<Seq<DefV>>
    decreases units,
{
    Seq::new(
        units.len(),
        |k: int|
            if 0 <= k < units.len() {
                sv_defs(units[k], prefix)
            } else {
                Seq::empty()
            },
    )
}

/// A built unit tree contributes exactly its scan's definitions.
pub proof fn lemma_built_defs(v: crate::parser::UnitScanV, u: Unit, prefix: Seq<u8>)
    requires
        crate::parser::unit_built(v, u),
    ensures
        unit_defs(u, prefix) == sv_defs(v, prefix),
    decreases u,
{
    match u {
        Unit::ComponentUnit { id, component, inherits, .. } => {
            match (v, component) {
                (
                    crate::parser::UnitScanV::Component { decl, .. },
                    Component::Aspect(a),
                ) => {},
                (crate::parser::UnitScanV::Component { decl, .. }, Component::Card(a)) => {},
                (crate::parser::UnitScanV::Component { decl, .. }, Component::Deck(a)) => {},
                (crate::parser::UnitScanV::Component { decl, .. }, Component::Verb(a)) => {},
                (
                    crate::parser::UnitScanV::Component { decl, .. },
                    Component::Ending(a),
                ) => {},
                _ => {},
            }
            assert(unit_defs(u, prefix) =~= sv_defs(v, prefix));
        },
        Unit::Namespace { id, attrs, units } => {
            let vunits = v -> Namespace_units;
            let sub = prefix + id@ + seq![0x2eu8];
            assert forall|k: int| 0 <= k < units@.len() implies (#[trigger] child_defs(
                units,
                sub,
            )[k]) == svs_map(vunits, sub)[k] by {
                lemma_built_defs(vunits[k], units@[k], sub);
            }
            assert(child_defs(units, sub) =~= svs_map(vunits, sub));
            assert(v -> Namespace_id == id@);
        },
    }
}

/// The definitions one file's text contributes: those of its scanned
/// units when the whole file scans, nothing otherwise.
pub open spec fn scan_file_defs(text: Seq<u8>) -> Seq<DefV> {
    match crate::parser::crucible_scan(text) {
        crate::parser::FileOutcome::Hit(x, us) => svs_map(us, Seq::empty()).flatten(),
        _ => Seq::empty(),
    }
}

/// A fully scanned file's parsed tree contributes exactly the scan's
/// definitions.
pub proof fn lemma_built_file_defs(text: Seq<u8>, c: Crucible)
    requires
        crate::parser::crucible_scan(text) is Hit,
        ({
            let us = crate::parser::crucible_scan(text) -> Hit_1;
            us.len() == c.units@.len() && (forall|m: int|
                0 <= m < c.units@.len() ==> crate::parser::unit_built(
                    us[m],
                    #[trigger] c.units@[m],
                ))
        }),
    ensures
        file_defs(c) == scan_file_defs(text),
{
    let us = crate::parser::crucible_scan(text) -> Hit_1;
    assert forall|k: int| 0 <= k < c.units@.len() implies (#[trigger] child_defs(
        c.units,
        Seq::<u8>::empty(),
    )[k]) == svs_map(us, Seq::<u8>::empty())[k] by {
        lemma_built_defs(us[k], c.units@[k], Seq::<u8>::empty());
    }
    assert(child_defs(c.units, Seq::<u8>::empty()) =~= svs_map(us, Seq::<u8>::empty()));
}

/// The per-kind keys after compiling the files in order: a file that
/// scans fully places its definitions; a failed file places nothing.
pub open spec fn files_link_keys(ks: KeysV, fs: Seq<(String, Vec<u8>)>) -> KeysV
    decreases fs.len(),
{
    if fs.len() == 0 {
        ks
    } else {
        let prev = files_link_keys(ks, fs.drop_last());
        if crate::parser::crucible_scan(fs.last().1@) is Hit {
            place_all(prev, scan_file_defs(fs.last().1@))
        } else {
            prev
        }
    }
}

/// How many errors a run collects before inheritance resolution: one
/// per file that does not scan fully, one per duplicate definition.
pub open spec fn n_files_errors(ks: KeysV, fs: Seq<(String, Vec<u8>)>) -> nat
    decreases fs.len(),
{
    if fs.len() == 0 {
        0
    } else {
        n_files_errors(ks, fs.drop_last()) + (if crate::parser::crucible_scan(
            fs.last().1@,
        ) is Hit {
            n_dups(files_link_keys(ks, fs.drop_last()), scan_file_defs(fs.last().1@))
        } else {
            1nat
        })
    }
}

/// The `from` clauses a run records, over the files in order.
pub open spec fn files_pending(ks: KeysV, fs: Seq<(String, Vec<u8>)>) -> Seq<DefV>
    decreases fs.len(),
{
    if fs.len() == 0 {
        Seq::empty()
    } else {
        files_pending(ks, fs.drop_last()) + (if crate::parser::crucible_scan(
            fs.last().1@,
        ) is Hit {
            inh_list(files_link_keys(ks, fs.drop_last()), scan_file_defs(fs.last().1@))
        } else {
            Seq::empty()
        })
    }
}

/// The outcome-level folds agree with the file-scan folds whenever
/// every outcome matches its file's scan.
proof fn lemma_outcomes_bridge(
    fs: Seq<(String, Vec<u8>)>,
    outs: Seq<(String, Result<Crucible, ParseError>)>,
    k: int,
)
    requires
        fs.len() == outs.len(),
        forall|q: int| 0 <= q < fs.len() ==> outcome_matches(fs[q].1@, (#[trigger] outs[q]).1),
        0 <= k <= fs.len(),
    ensures
        link_keys(keys0(), outs.take(k)) == files_link_keys(keys0(), fs.take(k)),
        n_link_errors(keys0(), outs.take(k)) == n_files_errors(keys0(), fs.take(k)),
        link_pending(keys0(), outs.take(k)) == files_pending(keys0(), fs.take(k)),
    decreases k,
{
    if k > 0 {
        lemma_outcomes_bridge(fs, outs, k - 1);
        assert(outs.take(k).drop_last() =~= outs.take(k - 1));
        assert(fs.take(k).drop_last() =~= fs.take(k - 1));
        assert(outs.take(k).last() == outs[k - 1]);
        assert(fs.take(k).last() == fs[k - 1]);
        assert(outcome_matches(fs[k - 1].1@, outs[k - 1].1));
        match crate::parser::crucible_scan(fs[k - 1].1@) {
            crate::parser::FileOutcome::Hit(x, us) => {
                let c = outs[k - 1].1 -> Ok_0;
                lemma_built_file_defs(fs[k - 1].1@, c);
            },
            _ => {},
        }
    }
}

/// Compile a set of source files into one corpus.
///
/// Each file is parsed independently; a failed parse is collected and
/// every remaining file is still attempted. Parsed trees merge one at
/// a time into the shared corpus, collecting duplicate definitions;
/// `from` clauses resolve only after every file has merged. The run
/// returns the corpus only when no error was collected anywhere;
/// otherwise it returns the full list of (file, error) pairs and no
/// corpus.
pub fn parse(files: &Vec<(String, Vec<u8>)>) -> (r: Result<Lantern, Vec<(String, CompileError)>>)
    ensures
        r matches Ok(l) ==> l.wf() && ids_match(l) && keys_of(l) == files_link_keys(
            keys0(),
            files@,
        ) && n_files_errors(keys0(), files@) == 0,
        r matches Ok(l) ==> forall|m: int| 0 <= m < files_pending(keys0(), files@).len() ==> {
            let d = #[trigger] files_pending(keys0(), files@)[m];
            d.inherits matches Some(par) && kind_keys(keys_of(l), d.kind).contains(par)
        },
        n_files_errors(keys0(), files@) > 0 ==> r is Err,
        r matches Err(es) ==> es@.len() > 0 && es@.len() >= n_files_errors(keys0(), files@),
{
    let outcomes = parse_files(files);
    proof {
        lemma_outcomes_bridge(files@, outcomes@, files@.len() as int);
        assert(files@.take(files@.len() as int) =~= files@);
        assert(outcomes@.take(files@.len() as int) =~= outcomes@);
    }
    link(outcomes)
}

} // verus!
