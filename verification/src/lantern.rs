//! The typed records that the language compiles to: identifiers,
//! probabilities, the per-kind component records, and the merged corpus.

use vstd::prelude::*;
use crate::literal::Literal;
use crate::literal::LitV;

verus! {

broadcast use vstd::std_specs::vec::axiom_vec_index_decreases;

/// ASCII lower-case letter.
pub open spec fn is_lower(b: u8) -> bool {
    0x61 <= b && b <= 0x7a
}

/// ASCII upper-case letter.
pub open spec fn is_upper(b: u8) -> bool {
    0x41 <= b && b <= 0x5a
}

/// ASCII decimal digit.
pub open spec fn is_digit(b: u8) -> bool {
    0x30 <= b && b <= 0x39
}

/// A byte that may appear in an identifier: ASCII letters, digits,
/// `_` (0x5f), `-` (0x2d), `$` (0x24) and `.` (0x2e).
pub open spec fn is_key_byte(b: u8) -> bool {
    is_lower(b) || is_upper(b) || is_digit(b) || b == 0x5f || b == 0x2d || b == 0x24
        || b == 0x2e
}

/// A well-formed identifier is a non-empty run of identifier bytes.
pub open spec fn valid_key(s: Seq<u8>) -> bool {
    s.len() > 0 && forall|i: int| 0 <= i < s.len() ==> is_key_byte(#[trigger] s[i])
}

/// Copy a byte vector; the copy reads back as the same bytes.
pub fn dup_bytes(v: &Vec<u8>) -> (r: Vec<u8>)
    ensures
        r@ == v@,
{
    let mut out: Vec<u8> = Vec::new();
    let n: usize = v.len();
    let mut i: usize = 0;
    while i < n
        invariant
            n == v.len(),
            i <= n,
            out@ =~= v@.take(i as int),
        decreases n - i,
    {
        out.push(v[i]);
        i = i + 1;
    }
    assert(out@ =~= v@);
    out
}

/// An ID referencing an in-game component, namespace-qualified with `.`.
/// Equality is exact byte equality of the text.
#[derive(Debug)]
pub struct DefKey(pub Vec<u8>);

impl View for DefKey {
    type V = Seq<u8>;

    open spec fn view(&self) -> Seq<u8> {
        self.0@
    }
}

impl DefKey {
    /// Whether the key text is a well-formed identifier.
    pub open spec fn wf(&self) -> bool {
        valid_key(self@)
    }

    pub fn eq_key(&self, other: &DefKey) -> (r: bool)
        ensures
            r == (self@ == other@),
    {
        if self.0.len() != other.0.len() {
            assert(self@ != other@);
            return false;
        }
        let n: usize = self.0.len();
        let mut i: usize = 0;
        while i < n
            invariant
                n == self.0.len() == other.0.len(),
                i <= n,
                forall|k: int| 0 <= k < i ==> self.0@[k] == other.0@[k],
            decreases n - i,
        {
            if self.0[i] != other.0[i] {
                return false;
            }
            i = i + 1;
        }
        assert(self@ =~= other@);
        true
    }

    /// Whether the key's bytes equal the given bytes.
    pub fn is_text(&self, text: &[u8]) -> (r: bool)
        ensures
            r == (self@ == text@),
    {
        if self.0.len() != text.len() {
            assert(self@ != text@);
            return false;
        }
        let n: usize = self.0.len();
        let mut i: usize = 0;
        while i < n
            invariant
                n == self.0.len() == text@.len(),
                i <= n,
                forall|k: int| 0 <= k < i ==> self.0@[k] == text@[k],
            decreases n - i,
        {
            if self.0[i] != text[i] {
                return false;
            }
            i = i + 1;
        }
        assert(self@ =~= text@);
        true
    }

    pub fn duplicate(&self) -> (r: DefKey)
        ensures
            r@ == self@,
    {
        DefKey(dup_bytes(&self.0))
    }
}

impl Clone for DefKey {
    fn clone(&self) -> (r: Self)
        ensures
            r@ == self@,
    {
        self.duplicate()
    }
}

/// An integer percentage clamped to `[0, 100]`; construction outside this
/// range fails with `InvalidProbability`. Immutable once constructed.
#[derive(Debug, Clone, Copy, PartialEq, Eq, Structural)]
pub struct Probability {
    inner: u8,
}

impl Probability {
    /// The percentage this value stands for.
    pub closed spec fn spec_value(self) -> u8 {
        self.inner
    }

    /// Every constructed probability lies in `[0, 100]`.
    pub open spec fn wf(self) -> bool {
        self.spec_value() <= 100
    }

    /// Construction succeeds exactly on inputs in `[0, 100]`, and the
    /// constructed value reads back as the same integer; all other
    /// inputs fail with `InvalidProbability`.
    pub fn new(value: u8) -> (r: Result<Probability, crate::errors::Fault>)
        ensures
            value <= 100 ==> (r matches Ok(p) && p.spec_value() == value),
            value > 100 ==> (r matches Err(f) && f == crate::errors::Fault::InvalidProbability),
    {
        if value <= 100 {
            Ok(Probability { inner: value })
        } else {
            Err(crate::errors::Fault::InvalidProbability)
        }
    }

    /// Read the percentage back out.
    pub fn value(&self) -> (v: u8)
        ensures
            v == self.spec_value(),
    {
        self.inner
    }

    /// The certain chance, 100 percent: the default wherever a chance
    /// is omitted.
    pub fn full() -> (p: Probability)
        ensures
            p.spec_value() == 100,
    {
        Probability { inner: 100 }
    }
}

/// View of an optional byte string.
pub open spec fn opt_bytes(o: Option<Vec<u8>>) -> Option<Seq<u8>> {
    match o {
        Some(v) => Some(v@),
        None => None,
    }
}

/// View of an optional key.
pub open spec fn opt_key(o: Option<DefKey>) -> Option<Seq<u8>> {
    match o {
        Some(k) => Some(k@),
        None => None,
    }
}

/// View of an optional induction rule.
pub open spec fn opt_induce(o: Option<(DefKey, Probability)>) -> Option<(Seq<u8>, u8)> {
    match o {
        Some((k, p)) => Some((k@, p.spec_value())),
        None => None,
    }
}

/// Free-form metadata `key [= literal]` attached to a namespace,
/// component, or the whole corpus; collected verbatim, interpreted only
/// by downstream consumers.
#[derive(Debug, Clone)]
pub struct Attribute {
    pub key: DefKey,
    pub value: Option<Literal>,
}

impl View for Attribute {
    type V = (Seq<u8>, Option<LitV>);

    open spec fn view(&self) -> (Seq<u8>, Option<LitV>) {
        (
            self.key@,
            match self.value {
                Some(l) => Some(l@),
                None => None,
            },
        )
    }
}

/// Metadata collected for one namespace: the fully-qualified keys of the
/// components declared in it, and its attributes.
#[derive(Debug, Clone)]
pub struct NamespaceMeta {
    pub components: Vec<DefKey>,
    pub attributes: Vec<Attribute>,
}

/// A reactive rule: when the catalyst is present, transform the carrier,
/// spawn new cards, or mutate an aspect, each gated by a chance.
#[derive(Debug)]
pub enum Xtrigger {
    Transform { catalyst: DefKey, transforms_to: DefKey, amount: u32, chance: Probability },
    Spawn { catalyst: DefKey, creates: DefKey, amount: u32, chance: Probability },
    Mutate { catalyst: DefKey, adds_to_catalyst: DefKey, amount: i32, chance: Probability },
}

/// Ghost shape of an [`Xtrigger`].
pub enum XtriggerV {
    Transform { catalyst: Seq<u8>, transforms_to: Seq<u8>, amount: u32, chance: u8 },
    Spawn { catalyst: Seq<u8>, creates: Seq<u8>, amount: u32, chance: u8 },
    Mutate { catalyst: Seq<u8>, adds_to_catalyst: Seq<u8>, amount: i32, chance: u8 },
}

impl View for Xtrigger {
    type V = XtriggerV;

    open spec fn view(&self) -> XtriggerV {
        match *self {
            Xtrigger::Transform { catalyst, transforms_to, amount, chance } =>
                XtriggerV::Transform {
                    catalyst: catalyst@,
                    transforms_to: transforms_to@,
                    amount,
                    chance: chance.spec_value(),
                },
            Xtrigger::Spawn { catalyst, creates, amount, chance } => XtriggerV::Spawn {
                catalyst: catalyst@,
                creates: creates@,
                amount,
                chance: chance.spec_value(),
            },
            Xtrigger::Mutate { catalyst, adds_to_catalyst, amount, chance } => XtriggerV::Mutate {
                catalyst: catalyst@,
                adds_to_catalyst: adds_to_catalyst@,
                amount,
                chance: chance.spec_value(),
            },
        }
    }
}

impl Xtrigger {
    /// All keys are well-formed identifiers and the chance is a valid
    /// probability.
    pub open spec fn wf(&self) -> bool {
        match *self {
            Xtrigger::Transform { catalyst, transforms_to, amount, chance } => valid_key(catalyst@)
                && valid_key(transforms_to@) && chance.wf(),
            Xtrigger::Spawn { catalyst, creates, amount, chance } => valid_key(catalyst@)
                && valid_key(creates@) && chance.wf(),
            Xtrigger::Mutate { catalyst, adds_to_catalyst, amount, chance } => valid_key(
                catalyst@,
            ) && valid_key(adds_to_catalyst@) && chance.wf(),
        }
    }
}

impl Clone for Xtrigger {
    fn clone(&self) -> (r: Self)
        ensures
            r@ == self@,
    {
        match self {
            Xtrigger::Transform { catalyst, transforms_to, amount, chance } =>
                Xtrigger::Transform {
                    catalyst: catalyst.duplicate(),
                    transforms_to: transforms_to.duplicate(),
                    amount: *amount,
                    chance: *chance,
                },
            Xtrigger::Spawn { catalyst, creates, amount, chance } => Xtrigger::Spawn {
                catalyst: catalyst.duplicate(),
                creates: creates.duplicate(),
                amount: *amount,
                chance: *chance,
            },
            Xtrigger::Mutate { catalyst, adds_to_catalyst, amount, chance } => Xtrigger::Mutate {
                catalyst: catalyst.duplicate(),
                adds_to_catalyst: adds_to_catalyst.duplicate(),
                amount: *amount,
                chance: *chance,
            },
        }
    }
}

/// An element either required for or forbidden from insertion into a
/// slot, with the threshold quantity for the filter to apply.
#[derive(Debug)]
pub enum SlotFilter {
    Accept { element: DefKey, amount: u32 },
    Forbid { element: DefKey, amount: u32 },
}

/// Ghost shape of a [`SlotFilter`].
pub enum SlotFilterV {
    Accept { element: Seq<u8>, amount: u32 },
    Forbid { element: Seq<u8>, amount: u32 },
}

impl View for SlotFilter {
    type V = SlotFilterV;

    open spec fn view(&self) -> SlotFilterV {
        match *self {
            SlotFilter::Accept { element, amount } => SlotFilterV::Accept {
                element: element@,
                amount,
            },
            SlotFilter::Forbid { element, amount } => SlotFilterV::Forbid {
                element: element@,
                amount,
            },
        }
    }
}

impl SlotFilter {
    /// The element is a well-formed identifier.
    pub open spec fn wf(&self) -> bool {
        match *self {
            SlotFilter::Accept { element, amount } => valid_key(element@),
            SlotFilter::Forbid { element, amount } => valid_key(element@),
        }
    }
}

impl Clone for SlotFilter {
    fn clone(&self) -> (r: Self)
        ensures
            r@ == self@,
    {
        match self {
            SlotFilter::Accept { element, amount } => SlotFilter::Accept {
                element: element.duplicate(),
                amount: *amount,
            },
            SlotFilter::Forbid { element, amount } => SlotFilter::Forbid {
                element: element.duplicate(),
                amount: *amount,
            },
        }
    }
}

/// A filtered placement point for cards, with capacity modifiers.
#[derive(Debug)]
pub struct Slot {
    pub id: DefKey,
    pub label: Vec<u8>,
    pub description: Vec<u8>,
    /// Destroy the slot's contents after the recipe concludes
    /// (`consume` / `!`).
    pub consumes: bool,
    /// Pull a qualifying card off the table automatically
    /// (`greedy` / `?`).
    pub greedy: bool,
    pub requirements: Vec<SlotFilter>,
}

impl Slot {
    /// The id is a well-formed identifier and every filter is
    /// well-formed.
    pub open spec fn wf(&self) -> bool {
        valid_key(self.id@) && forall|i: int|
            0 <= i < self.requirements@.len() ==> (#[trigger] self.requirements@[i]).wf()
    }
}

/// Ghost shape of a [`Slot`].
pub struct SlotV {
    pub id: Seq<u8>,
    pub label: Seq<u8>,
    pub description: Seq<u8>,
    pub consumes: bool,
    pub greedy: bool,
    pub requirements: Seq<SlotFilterV>,
}

impl View for Slot {
    type V = SlotV;

    open spec fn view(&self) -> SlotV {
        SlotV {
            id: self.id@,
            label: self.label@,
            description: self.description@,
            consumes: self.consumes,
            greedy: self.greedy,
            requirements: Seq::new(
                self.requirements@.len(),
                |i: int|
                    if 0 <= i < self.requirements@.len() {
                        self.requirements@[i]@
                    } else {
                        SlotFilterV::Accept { element: Seq::empty(), amount: 0 }
                    },
            ),
        }
    }
}

impl Clone for Slot {
    fn clone(&self) -> (r: Self)
        ensures
            r@ == self@,
    {
        let mut reqs: Vec<SlotFilter> = Vec::new();
        let n: usize = self.requirements.len();
        let mut i: usize = 0;
        while i < n
            invariant
                n == self.requirements.len(),
                i <= n,
                reqs@.len() == i,
                forall|k: int| 0 <= k < i ==> #[trigger] reqs@[k]@ == self.requirements@[k]@,
            decreases n - i,
        {
            reqs.push(self.requirements[i].clone());
            i = i + 1;
        }
        let r = Slot {
            id: self.id.duplicate(),
            label: dup_bytes(&self.label),
            description: dup_bytes(&self.description),
            consumes: self.consumes,
            greedy: self.greedy,
            requirements: reqs,
        };
        assert(r@.requirements =~= self@.requirements);
        r
    }
}

/// An aspect: metadata that can be applied to other components.
#[derive(Debug, Clone)]
pub struct Aspect {
    pub id: DefKey,
    pub label: Vec<u8>,
    pub description: Vec<u8>,
    pub icon: Option<Vec<u8>>,
    pub verbicon: Option<Vec<u8>>,
    /// A recipe this aspect may start when present at the end of a
    /// chain, with its chance.
    pub induces: Option<(DefKey, Probability)>,
    /// The card that carriers of this aspect decay to when purged.
    pub decays_to: Option<DefKey>,
    /// Hidden from in-game aspect lists.
    pub hidden: bool,
    pub xtriggers: Vec<Xtrigger>,
    /// Unrecognized `set` keys, kept verbatim in declaration order for
    /// downstream consumers; keys are distinct.
    pub others: Vec<(DefKey, Literal)>,
}

/// A card: a noun that verbs act upon.
#[derive(Debug, Clone)]
pub struct Card {
    pub id: DefKey,
    pub label: Vec<u8>,
    pub description: Vec<u8>,
    pub icon: Option<Vec<u8>>,
    pub verbicon: Option<Vec<u8>>,
    pub induces: Option<(DefKey, Probability)>,
    pub decays_to: Option<DefKey>,
    pub hidden: bool,
    /// The aspects declared on the card's signature, each with its
    /// degree; aspects are distinct.
    pub aspects: Vec<(DefKey, u32)>,
    /// Ticks before the card decays; absent or zero means no decay.
    pub lifetime: Option<u32>,
    /// Start desaturated and regain saturation as the lifetime runs out.
    pub resaturate: bool,
    /// Only one such card may be on the board.
    pub unique: bool,
    /// Cards sharing this group displace one another; exclusive with
    /// `unique`.
    pub uniqueness_group: Option<DefKey>,
    /// Slots this card opens, grouped under the verb they appear in, in
    /// declaration order.
    pub slots: Vec<(DefKey, Vec<Slot>)>,
    pub xtriggers: Vec<Xtrigger>,
    /// Unrecognized `set` keys, kept verbatim; keys are distinct.
    pub others: Vec<(DefKey, Literal)>,
}

/// A deck that recipes draw cards from.
#[derive(Debug, Clone)]
pub struct Deck {
    pub id: DefKey,
    pub label: Vec<u8>,
    pub description: Vec<u8>,
    /// The card supplied once the deck is exhausted; absent means the
    /// deck resets instead.
    pub default: Option<DefKey>,
    /// The deck's entries in order, each with an optional draw message.
    pub cards: Vec<(DefKey, Option<Vec<u8>>)>,
    /// True exactly when some entry carries a draw message.
    pub is_portal_deck: bool,
}

/// A verb: an action that can be applied to cards.
#[derive(Debug, Clone)]
pub struct Verb {
    pub id: DefKey,
    pub label: Vec<u8>,
    pub description: Vec<u8>,
    pub slot: Option<Slot>,
}

/// The music played during an ending transition.
#[derive(Debug, Clone, Copy, PartialEq, Eq, Structural)]
pub enum EndingMusicKind {
    Grand,
    Melancholy,
    Vile,
}

/// The lights and cosmetics of an ending transition.
#[derive(Debug, Clone, Copy, PartialEq, Eq, Structural)]
pub enum EndingAnimationKind {
    DramaticLight,
    DramaticLightCool,
    DramaticLightEvil,
}

/// An ending screen shown on a win or loss condition.
#[derive(Debug, Clone)]
pub struct Ending {
    pub id: DefKey,
    pub label: Vec<u8>,
    pub description: Vec<u8>,
    pub image: Vec<u8>,
    pub music: EndingMusicKind,
    pub animation: EndingAnimationKind,
    pub achievement: Vec<u8>,
}

/// The color style of a recipe's progress circle.
#[derive(Debug, Clone, Copy, PartialEq, Eq, Structural)]
pub enum WarmupStyle {
    Unstyled,
    Grand,
    Mellancholy,
    Pale,
    Vile,
    Important,
}

/// An operation that sets or shifts a quantity.
#[derive(Debug, Clone, Copy, PartialEq, Eq, Structural)]
pub enum ValueOperation {
    Assign(u32),
    Shift(i32),
}

/// The kind of challenge used in a flow-control conditional.
#[derive(Debug, Clone, Copy, PartialEq, Eq, Structural)]
pub enum ChallengeKind {
    Base,
    Advanced,
}

/// The magnitude of a recipe requirement: either a concrete operation
/// or a comparison against another element's quantity.
#[derive(Debug, Clone)]
pub enum ReqAmount {
    Op(ValueOperation),
    Compare(DefKey),
}

/// An element and magnitude that must be present before a recipe can be
/// crafted or branched to, scoped to the recipe stack, the table, or
/// the whole game.
#[derive(Debug, Clone)]
pub enum RecipeRequirement {
    Basic { element: DefKey, amount: ReqAmount },
    Table { element: DefKey, amount: ReqAmount },
    Extant { element: DefKey, amount: ReqAmount },
}

/// The conditions under which a recipe branch is followed.
#[derive(Debug, Clone)]
pub struct BranchCondition {
    pub chance: Option<Probability>,
    pub requirements: Vec<RecipeRequirement>,
}

/// What happens when a branch with this marker is followed.
#[derive(Debug, Clone)]
pub enum SpawningKind {
    Spawn,
    Expel(Vec<(DefKey, u32)>),
}

/// A flow-control instruction of a recipe.
#[derive(Debug, Clone)]
pub enum Branch {
    Link { target: DefKey, condition: BranchCondition },
    Goto { target: DefKey, condition: BranchCondition, action: Option<SpawningKind> },
}

/// An operation that adds or removes an aspect on an element.
#[derive(Debug, Clone)]
pub struct Mutation {
    pub id: DefKey,
    pub aspect: DefKey,
    pub operation: ValueOperation,
}

/// A recipe: combines a noun with a verb to produce a consequence.
#[derive(Debug, Clone)]
pub struct Recipe {
    pub id: DefKey,
    pub verb: DefKey,
    pub label: Vec<u8>,
    pub description: Vec<u8>,
    pub end_description: Vec<u8>,
    pub burn: Option<Vec<u8>>,
    pub portal: Option<Vec<u8>>,
    pub requirements: Vec<RecipeRequirement>,
    pub max_executions: u32,
    pub warmup: u32,
    pub craftable: bool,
    pub hint_only: bool,
    pub slot: Option<Slot>,
    pub effects: Vec<(DefKey, ValueOperation)>,
    pub purge: Vec<(DefKey, u32)>,
    pub aspects: Vec<(DefKey, ValueOperation)>,
    pub draws: Vec<(DefKey, i32)>,
    pub mutations: Vec<Mutation>,
    pub halt: Option<Vec<(DefKey, u32)>>,
    pub delete: Option<Vec<(DefKey, u32)>>,
    pub ending: Option<DefKey>,
    pub style: WarmupStyle,
    pub branches: Vec<Branch>,
}

/// A legacy: the starting conditions for a game mode.
#[derive(Debug, Clone)]
pub struct Legacy {
    pub id: DefKey,
    pub label: Vec<u8>,
    pub description: Vec<u8>,
    pub start_description: Vec<u8>,
    pub image: Vec<u8>,
    pub starting_verb: DefKey,
    pub starting_cards: Vec<(DefKey, u32)>,
    pub status_bar_elems: Vec<DefKey>,
    pub exclude_after_legacies: Vec<DefKey>,
    pub new_start: bool,
    pub from_ending: DefKey,
    pub available_without_ending_match: bool,
}

/// Whether an association map already binds a key.
pub open spec fn map_has_key<T>(v: Seq<(DefKey, T)>, k: Seq<u8>) -> bool {
    exists|i: int| 0 <= i < v.len() && (#[trigger] v[i]).0@ == k
}

/// No two entries of an association map share a key.
pub open spec fn map_distinct<T>(v: Seq<(DefKey, T)>) -> bool {
    forall|i: int, j: int| 0 <= i < j < v.len() ==> (#[trigger] v[i]).0@ != (#[trigger] v[j]).0@
}

/// The key sequence of an association map.
pub open spec fn map_keys<T>(v: Seq<(DefKey, T)>) -> Seq<Seq<u8>> {
    Seq::new(v.len(), |i: int| v[i].0@)
}

/// Exec search for a key in an association map.
pub fn map_contains<T>(v: &Vec<(DefKey, T)>, k: &DefKey) -> (r: bool)
    ensures
        r == map_has_key(v@, k@),
{
    let n: usize = v.len();
    let mut i: usize = 0;
    while i < n
        invariant
            i <= n,
            n == v@.len(),
            forall|q: int| 0 <= q < i ==> (#[trigger] v@[q]).0@ != k@,
        decreases n - i,
    {
        if v[i].0.eq_key(k) {
            return true;
        }
        i = i + 1;
    }
    false
}

/// Insert a new binding, exactly when its key is not yet bound: the
/// map never loses or overwrites an entry, and a duplicate key leaves
/// it untouched.
pub fn map_insert<T>(v: &mut Vec<(DefKey, T)>, key: DefKey, rec: T) -> (r: bool)
    ensures
        r == !map_has_key(old(v)@, key@),
        r ==> final(v)@ == old(v)@.push((key, rec)),
        !r ==> final(v)@ == old(v)@,
        map_distinct(old(v)@) ==> map_distinct(final(v)@),
{
    if map_contains(v, &key) {
        false
    } else {
        let ghost oldv = v@;
        v.push((key, rec));
        proof {
            if map_distinct(oldv) {
                assert forall|i: int, j: int| 0 <= i < j < v@.len() implies (#[trigger] v@[i]).0@
                    != (#[trigger] v@[j]).0@ by {
                    if j < v@.len() - 1 {
                        assert(v@[i] == oldv[i] && v@[j] == oldv[j]);
                    } else {
                        assert(v@[i] == oldv[i]);
                        assert(!map_has_key(oldv, v@[j].0@));
                    }
                }
            }
        }
        true
    }
}

/// The merged corpus: the single, typed collection of every component
/// record of a compilation run, keyed by fully-qualified id. Built
/// once by merging every file's unit tree; each per-kind map binds a
/// key at most once.
#[derive(Debug)]
pub struct Lantern {
    /// Attributes that apply to the whole corpus.
    pub attributes: Vec<Attribute>,
    /// Metadata for each namespace, keyed by its full dotted path.
    pub namespaces: Vec<(DefKey, NamespaceMeta)>,
    pub aspects: Vec<(DefKey, Aspect)>,
    pub cards: Vec<(DefKey, Card)>,
    pub decks: Vec<(DefKey, Deck)>,
    pub recipes: Vec<(DefKey, Recipe)>,
    pub verbs: Vec<(DefKey, Verb)>,
    pub legacies: Vec<(DefKey, Legacy)>,
    pub endings: Vec<(DefKey, Ending)>,
}

impl Lantern {
    /// Every per-kind map binds each key at most once.
    pub open spec fn wf(&self) -> bool {
        &&& map_distinct(self.namespaces@)
        &&& map_distinct(self.aspects@)
        &&& map_distinct(self.cards@)
        &&& map_distinct(self.decks@)
        &&& map_distinct(self.recipes@)
        &&& map_distinct(self.verbs@)
        &&& map_distinct(self.legacies@)
        &&& map_distinct(self.endings@)
    }

    /// The empty corpus, before any file is merged.
    pub fn empty() -> (r: Lantern)
        ensures
            r.wf(),
            r.attributes@.len() == 0,
            r.namespaces@.len() == 0,
            r.aspects@.len() == 0,
            r.cards@.len() == 0,
            r.decks@.len() == 0,
            r.recipes@.len() == 0,
            r.verbs@.len() == 0,
            r.legacies@.len() == 0,
            r.endings@.len() == 0,
    {
        Lantern {
            attributes: Vec::new(),
            namespaces: Vec::new(),
            aspects: Vec::new(),
            cards: Vec::new(),
            decks: Vec::new(),
            recipes: Vec::new(),
            verbs: Vec::new(),
            legacies: Vec::new(),
            endings: Vec::new(),
        }
    }
}

} // verus!
