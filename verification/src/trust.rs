//! Trust tiers, the ordered lattice they form, and the ceiling each tier reaches.

use vstd::prelude::*;

use crate::state::ConsciousnessState;
use crate::state;
use crate::text;

verus! {

/// A trust tier, known by its name.
#[derive(Debug)]
pub struct TrustTier(pub String);

impl View for TrustTier {
    type V = Seq<char>;

    open spec fn view(&self) -> Seq<char> {
        self.0@
    }
}

impl Clone for TrustTier {
    fn clone(&self) -> (r: Self)
        ensures
            r == *self,
    {
        TrustTier(self.0.clone())
    }
}

impl TrustTier {
    /// The tier of the given name.
    pub fn named(name: &str) -> (r: Self)
        ensures
            r@ == name@,
    {
        TrustTier(name.to_owned())
    }

    /// Untrusted world data.
    pub fn public() -> (r: Self)
        ensures
            r@ == "public"@,
    {
        TrustTier::named("public")
    }

    /// The agent's own material.
    pub fn self_() -> (r: Self)
        ensures
            r@ == "self"@,
    {
        TrustTier::named("self")
    }

    /// A directive signed by the operator.
    pub fn operator() -> (r: Self)
        ensures
            r@ == "operator_signed"@,
    {
        TrustTier::named("operator_signed")
    }

    /// The tier as it stands in logs and batons.
    pub fn debug(&self) -> (r: String)
        ensures
            r@ == debug_form(self@),
    {
        let mut r = "TrustTier(".to_owned();
        let d = text::debug_text(&self.0);
        r.append(&d);
        r.append(")");
        r
    }

    /// The name of the tier.
    pub fn name(&self) -> (r: &str)
        ensures
            r@ == self@,
    {
        self.0.as_str()
    }
}

/// A tier as it stands in logs and batons.
pub open spec fn debug_form(t: Seq<char>) -> Seq<char> {
    "TrustTier("@ + text::debug_form(t) + ")"@
}

/// The declared tiers from the least to the most trusted, each with the state it reaches.
pub type Tiers = Seq<(Seq<char>, ConsciousnessState)>;

/// The rank of a tier: its place counted from 1, or 0 for a tier that is not declared.
pub open spec fn rank(l: Tiers, t: Seq<char>) -> int
    decreases l.len(),
{
    if l.len() == 0 {
        0
    } else {
        let r = rank(l.drop_last(), t);
        if r > 0 {
            r
        } else if l.last().0 == t {
            l.len() as int
        } else {
            0
        }
    }
}

/// The less trusted of two tiers, and the first of two of one rank.
pub open spec fn meet(l: Tiers, a: Seq<char>, b: Seq<char>) -> Seq<char> {
    if rank(l, b) < rank(l, a) {
        b
    } else {
        a
    }
}

/// The most privileged state that a chain of this trust may walk to.
pub open spec fn reaches(l: Tiers, t: Seq<char>) -> ConsciousnessState {
    if 0 < rank(l, t) <= l.len() {
        l[rank(l, t) - 1].1
    } else {
        ConsciousnessState::Perceive
    }
}

/// Whether trust `t` clears the floor `min`; an undeclared floor is cleared by nothing.
pub open spec fn permits(l: Tiers, t: Seq<char>, min: Seq<char>) -> bool {
    rank(l, min) > 0 && rank(l, t) >= rank(l, min)
}

/// A more trusted tier reaches no lower than a less trusted one.
pub open spec fn monotone(l: Tiers) -> bool {
    forall|i: int, j: int| 0 <= i <= j < l.len() ==> state::within(#[trigger] l[i].1, #[trigger] l[j].1)
}

/// The tiers that a configuration which names none has.
pub open spec fn default_tiers() -> Tiers {
    seq![
        ("public"@, ConsciousnessState::Express),
        ("self"@, ConsciousnessState::Reflect),
        ("operator_signed"@, ConsciousnessState::Reflect),
    ]
}

/// The declared trust tiers, from the least to the most trusted.
pub struct Lattice {
    pub tiers: Vec<(TrustTier, ConsciousnessState)>,
}

impl View for Lattice {
    type V = Tiers;

    open spec fn view(&self) -> Tiers {
        self.tiers@.map_values(|t: (TrustTier, ConsciousnessState)| (t.0@, t.1))
    }
}

impl Default for Lattice {
    /// Public data reaches Express; the agent's own and the operator's reach Reflect.
    fn default() -> (r: Self)
        ensures
            r@ == default_tiers(),
    {
        let mut tiers: Vec<(TrustTier, ConsciousnessState)> = Vec::new();
        tiers.push((TrustTier::public(), ConsciousnessState::Express));
        tiers.push((TrustTier::self_(), ConsciousnessState::Reflect));
        tiers.push((TrustTier::operator(), ConsciousnessState::Reflect));
        let r = Lattice { tiers };
        assert(r@ == default_tiers());
        r
    }
}

impl Lattice {
    fn rank_of(&self, t: &TrustTier) -> (r: usize)
        ensures
            r == rank(self@, t@),
            r <= self@.len(),
    {
        let mut i: usize = 0;
        let ghost l = self@;
        while i < self.tiers.len()
            invariant
                i <= self.tiers.len(),
                l == self@,
                rank(l.take(i as int), t@) == 0,
            decreases self.tiers.len() - i,
        {
            assert(l.take(i + 1).drop_last() == l.take(i as int));
            assert(l.take(i + 1).last() == l[i as int]);
            if text::same(&self.tiers[i].0.0, &t.0) {
                i += 1;
                assert(rank(l.take(i as int), t@) == i);
                proof {
                    lemma_rank_extends(l, i as int, t@);
                }
                return i;
            }
            i += 1;
        }
        assert(l.take(i as int) == l);
        0
    }

    /// The less trusted of two tiers.
    pub fn meet(&self, a: &TrustTier, b: &TrustTier) -> (r: TrustTier)
        ensures
            r@ == meet(self@, a@, b@),
    {
        if self.rank_of(b) < self.rank_of(a) {
            b.clone()
        } else {
            a.clone()
        }
    }

    /// The most privileged state that a chain of this trust may walk to.
    pub fn reaches(&self, t: &TrustTier) -> (r: ConsciousnessState)
        ensures
            r == reaches(self@, t@),
    {
        let k: usize = self.rank_of(t);
        if k == 0 {
            ConsciousnessState::Perceive
        } else {
            self.tiers[k - 1].1
        }
    }

    /// Whether trust `t` clears the floor `min`.
    pub fn permits(&self, t: &TrustTier, min: &TrustTier) -> (r: bool)
        ensures
            r == permits(self@, t@, min@),
    {
        let floor: usize = self.rank_of(min);
        floor > 0 && self.rank_of(t) >= floor
    }
}

proof fn lemma_rank_extends(l: Tiers, i: int, t: Seq<char>)
    requires
        0 <= i <= l.len(),
        rank(l.take(i), t) > 0,
    ensures
        rank(l, t) == rank(l.take(i), t),
    decreases l.len() - i,
{
    if i < l.len() {
        assert(l.take(i + 1).drop_last() == l.take(i));
        lemma_rank_extends(l, i + 1, t);
    } else {
        assert(l.take(i) == l);
    }
}

/// The rank of a tier is at most the number of tiers.
pub proof fn lemma_rank_bound(l: Tiers, t: Seq<char>)
    ensures
        0 <= rank(l, t) <= l.len(),
    decreases l.len(),
{
    if l.len() > 0 {
        lemma_rank_bound(l.drop_last(), t);
    }
}

/// Taint only lowers: the meet of two tiers ranks no higher than either.
pub proof fn meet_never_raises(l: Tiers, a: Seq<char>, b: Seq<char>)
    ensures
        rank(l, meet(l, a, b)) <= rank(l, a),
        rank(l, meet(l, a, b)) <= rank(l, b),
        rank(l, meet(l, a, b)) == rank(l, a) || rank(l, meet(l, a, b)) == rank(l, b),
{
}

/// The rank of a meet does not depend on the order in which the tiers are met.
pub proof fn meet_commutes_and_associates(l: Tiers, a: Seq<char>, b: Seq<char>, c: Seq<char>)
    ensures
        rank(l, meet(l, a, b)) == rank(l, meet(l, b, a)),
        rank(l, meet(l, meet(l, a, b), c)) == rank(l, meet(l, a, meet(l, b, c))),
        meet(l, a, a) == a,
{
}

/// Where more trusted tiers reach no lower, a tier of no higher rank reaches no further.
pub proof fn less_trust_reaches_no_further(l: Tiers, a: Seq<char>, b: Seq<char>)
    requires
        monotone(l),
        rank(l, a) <= rank(l, b),
    ensures
        state::within(reaches(l, a), reaches(l, b)),
{
    lemma_rank_bound(l, a);
    lemma_rank_bound(l, b);
    if rank(l, a) > 0 {
        assert(state::within(l[rank(l, a) - 1].1, l[rank(l, b) - 1].1));
    }
}

/// A floor that a chain no longer clears it does not clear later on: trust only falls.
pub proof fn a_lost_floor_stays_lost(l: Tiers, before: Seq<char>, after: Seq<char>, min: Seq<char>)
    requires
        rank(l, after) <= rank(l, before),
        !permits(l, before, min),
    ensures
        !permits(l, after, min),
{
}

/// The default tiers: each reaches no lower than the one before, and public data reaches Express.
pub proof fn the_default_tiers_rise()
    ensures
        monotone(default_tiers()),
        reaches(default_tiers(), "public"@) == ConsciousnessState::Express,
{
    reveal_strlit("public");
    reveal_strlit("self");
    reveal_strlit("operator_signed");
    let l = default_tiers();
    assert(l.drop_last().drop_last().drop_last() == Tiers::empty());
    reveal_with_fuel(rank, 5);
    assert(rank(l, "public"@) == 1);
}

/// Taint never lifts the ceiling: where more trusted tiers reach no lower, what a tainted chain may
/// reach stands within what it could reach before.
pub proof fn taint_never_lifts_the_ceiling(l: Tiers, a: Seq<char>, b: Seq<char>)
    requires
        monotone(l),
    ensures
        state::within(reaches(l, meet(l, a, b)), reaches(l, a)),
        state::within(reaches(l, meet(l, a, b)), reaches(l, b)),
{
    less_trust_reaches_no_further(l, meet(l, a, b), a);
    less_trust_reaches_no_further(l, meet(l, a, b), b);
}

/// Under the default tiers a chain that has touched public data reaches Express at most, whatever
/// its other trust: never Settle, never Reflect.
pub proof fn public_taint_stops_at_express(t: Seq<char>)
    ensures
        state::within(reaches(default_tiers(), meet(default_tiers(), t, "public"@)), ConsciousnessState::Express),
        state::within(reaches(default_tiers(), meet(default_tiers(), "public"@, t)), ConsciousnessState::Express),
{
    the_default_tiers_rise();
    taint_never_lifts_the_ceiling(default_tiers(), t, "public"@);
    taint_never_lifts_the_ceiling(default_tiers(), "public"@, t);
}

/// The rank of a tier is where it is first declared, counted from 1; a tier that is not declared has
/// none.
pub proof fn a_tier_ranks_where_it_is_first_declared(l: Tiers, t: Seq<char>)
    ensures
        rank(l, t) == 0 <==> forall|i: int| 0 <= i < l.len() ==> (#[trigger] l[i]).0 != t,
        rank(l, t) > 0 ==> rank(l, t) <= l.len() && l[rank(l, t) - 1].0 == t && forall|i: int|
            0 <= i < rank(l, t) - 1 ==> (#[trigger] l[i]).0 != t,
    decreases l.len(),
{
    if l.len() > 0 {
        let d = l.drop_last();
        a_tier_ranks_where_it_is_first_declared(d, t);
        lemma_rank_bound(d, t);
        assert forall|i: int| 0 <= i < d.len() implies #[trigger] d[i] == l[i] by {}
        if rank(d, t) == 0 {
            assert forall|i: int| 0 <= i < d.len() implies (#[trigger] l[i]).0 != t by {
                assert(d[i].0 != t);
            }
            if l.last().0 != t {
                assert forall|i: int| 0 <= i < l.len() implies (#[trigger] l[i]).0 != t by {
                    if i < d.len() {
                        assert(d[i].0 != t);
                    }
                }
            } else {
                assert(l[l.len() - 1].0 == t);
            }
        } else {
            let r = rank(d, t);
            assert(l[r - 1] == d[r - 1]);
            assert forall|i: int| 0 <= i < r - 1 implies (#[trigger] l[i]).0 != t by {
                assert(d[i].0 != t);
            }
        }
    }
}

/// The meet of two tiers is one of them, the one declared earlier; of two of one rank the first. No
/// third tier comes in.
pub proof fn a_meet_is_the_lower_of_the_two(l: Tiers, a: Seq<char>, b: Seq<char>)
    ensures
        meet(l, a, b) == a || meet(l, a, b) == b,
        rank(l, a) <= rank(l, b) ==> meet(l, a, b) == a,
        rank(l, b) < rank(l, a) ==> meet(l, a, b) == b,
{
}

/// A declared tier reaches the state that it is declared with; one that is not declared reaches
/// Perceive alone.
pub proof fn a_tier_reaches_what_it_declares(l: Tiers, i: int, t: Seq<char>)
    ensures
        0 <= i < l.len() && l[i].0 == t && (forall|j: int| 0 <= j < i ==> (#[trigger] l[j]).0 != t) ==> reaches(l, t)
            == l[i].1,
        (forall|j: int| 0 <= j < l.len() ==> (#[trigger] l[j]).0 != t) ==> reaches(l, t)
            == ConsciousnessState::Perceive,
{
    a_tier_ranks_where_it_is_first_declared(l, t);
    let r = rank(l, t);
    if r > 0 && 0 <= i < l.len() && l[i].0 == t && (forall|j: int| 0 <= j < i ==> (#[trigger] l[j]).0 != t) {
        assert(l[r - 1].0 == t);
        assert(r - 1 == i);
    }
}

/// A floor is cleared by the tiers that are declared at it or behind it, and by no others; a floor that
/// is not declared is cleared by none.
pub proof fn a_floor_is_cleared_from_its_place_on(l: Tiers, i: int, j: int)
    requires
        0 <= i < l.len(),
        0 <= j < l.len(),
        forall|x: int, y: int| 0 <= x < y < l.len() ==> (#[trigger] l[x]).0 != (#[trigger] l[y]).0,
    ensures
        permits(l, l[i].0, l[j].0) <==> j <= i,
        forall|t: Seq<char>, m: Seq<char>|
            (forall|k: int| 0 <= k < l.len() ==> (#[trigger] l[k]).0 != m) ==> !#[trigger] permits(l, t, m),
{
    a_tier_ranks_where_it_is_first_declared(l, l[i].0);
    a_tier_ranks_where_it_is_first_declared(l, l[j].0);
    let (a, b) = (rank(l, l[i].0), rank(l, l[j].0));
    assert(l[i].0 == l[i].0 && l[j].0 == l[j].0);
    assert(l[a - 1].0 == l[i].0);
    assert(l[b - 1].0 == l[j].0);
    assert forall|t: Seq<char>, m: Seq<char>|
        (forall|k: int| 0 <= k < l.len() ==> (#[trigger] l[k]).0 != m) implies !#[trigger] permits(l, t, m) by {
        a_tier_ranks_where_it_is_first_declared(l, m);
    }
}

/// Without a configuration, public data reaches Express, and the agent's own and the operator's reach
/// Reflect; the operator ranks over the agent, and the agent over the public.
pub proof fn the_default_tiers_are_three()
    ensures
        reaches(default_tiers(), "public"@) == ConsciousnessState::Express,
        reaches(default_tiers(), "self"@) == ConsciousnessState::Reflect,
        reaches(default_tiers(), "operator_signed"@) == ConsciousnessState::Reflect,
        0 < rank(default_tiers(), "public"@) < rank(default_tiers(), "self"@) < rank(
            default_tiers(),
            "operator_signed"@,
        ),
        default_tiers().len() == 3,
{
    reveal_strlit("public");
    reveal_strlit("self");
    reveal_strlit("operator_signed");
    let l = default_tiers();
    assert("public"@.len() == 6 && "self"@.len() == 4 && "operator_signed"@.len() == 15);
    assert(l.drop_last().drop_last().drop_last() == Tiers::empty());
    reveal_with_fuel(rank, 5);
}

/// A tier is shown in a record by its name in quotes, as a tier.
pub proof fn a_tier_is_shown_as_a_tier(t: Seq<char>)
    ensures
        debug_form(t) == "TrustTier("@ + text::debug_form(t) + ")"@,
{
}

} // verus!
