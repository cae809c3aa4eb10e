//! Which planets absorb which in one simulation frame.
//!
//! Bodies are numbered by their position in the frame's query order. Every
//! unordered pair of bodies is examined once, in the order the simulation
//! walks the pairs; a pair that touches may merge, the larger body absorbing
//! the smaller, provided neither body already took part in a merge this frame
//! and both have finished their absorb cooldown.

use vstd::prelude::*;

verus! {

/// One examined pair of bodies.
#[derive(PartialEq, Eq, Structural, Clone, Copy, Debug)]
pub struct Contact {
    /// The body that comes first in the pair.
    pub first: usize,
    /// The body that comes second in the pair.
    pub second: usize,
    /// The two bodies are at a non-zero distance smaller than the sum of
    /// their radii.
    pub touching: bool,
    /// The first body's radius is strictly larger than the second's.
    pub first_larger: bool,
}

/// The merges decided for a frame.
pub struct AbsorptionPlan {
    /// `absorbs[i] == Some(j)`: body `i` absorbs body `j` this frame.
    pub absorbs: Vec<Option<usize>>,
    /// `absorbed[j]`: body `j` is absorbed this frame and leaves the world.
    pub absorbed: Vec<bool>,
}

/// The state of the decision before any pair is examined.
pub open spec fn initial_plan(n: nat) -> (Seq<Option<usize>>, Seq<bool>) {
    (Seq::new(n, |i: int| None::<usize>), Seq::new(n, |i: int| false))
}

/// A pair may merge when it touches, both bodies are ready, and neither body
/// absorbs or is absorbed already.
pub open spec fn may_merge(
    plan: (Seq<Option<usize>>, Seq<bool>),
    ready: Seq<bool>,
    c: Contact,
) -> bool {
    &&& c.touching
    &&& plan.0[c.first as int] is None
    &&& plan.0[c.second as int] is None
    &&& !plan.1[c.first as int]
    &&& !plan.1[c.second as int]
    &&& ready[c.first as int]
    &&& ready[c.second as int]
}

/// The absorber of a merging pair: the first body when it is strictly
/// larger, the second one otherwise.
pub open spec fn absorber(c: Contact) -> usize {
    if c.first_larger { c.first } else { c.second }
}

/// The body absorbed when a pair merges.
pub open spec fn absorbee(c: Contact) -> usize {
    if c.first_larger { c.second } else { c.first }
}

/// The decision after examining one more pair.
pub open spec fn plan_step(
    plan: (Seq<Option<usize>>, Seq<bool>),
    ready: Seq<bool>,
    c: Contact,
) -> (Seq<Option<usize>>, Seq<bool>) {
    if may_merge(plan, ready, c) {
        (
            plan.0.update(absorber(c) as int, Some(absorbee(c))),
            plan.1.update(absorbee(c) as int, true),
        )
    } else {
        plan
    }
}

/// The decision after examining `contacts` in order.
pub open spec fn plan_after(n: nat, ready: Seq<bool>, contacts: Seq<Contact>) -> (
    Seq<Option<usize>>,
    Seq<bool>,
)
    decreases contacts.len(),
{
    if contacts.len() == 0 {
        initial_plan(n)
    } else {
        plan_step(plan_after(n, ready, contacts.drop_last()), ready, contacts.last())
    }
}

/// Every contact names two different bodies among the first `n`.
pub open spec fn contacts_valid(n: nat, contacts: Seq<Contact>) -> bool {
    forall|k: int|
        0 <= k < contacts.len() ==> {
            &&& (#[trigger] contacts[k]).first < n
            &&& contacts[k].second < n
            &&& contacts[k].first != contacts[k].second
        }
}

/// The properties every frame's merges have: the two tables have one entry
/// per body; a body is absorbed exactly when some body absorbs it; no body is
/// absorbed twice; no body both absorbs and is absorbed; both bodies of a
/// merge were ready; and every merge comes from a touching pair in which the
/// absorber is the one `absorber` picks.
pub open spec fn plan_consistent(
    n: nat,
    ready: Seq<bool>,
    contacts: Seq<Contact>,
    plan: (Seq<Option<usize>>, Seq<bool>),
) -> bool {
    &&& plan.0.len() == n
    &&& plan.1.len() == n
    &&& forall|j: int|
        0 <= j < n ==> (#[trigger] plan.1[j] <==> exists|i: int|
            0 <= i < n && #[trigger] plan.0[i] == Some(j as usize))
    &&& forall|i1: int, i2: int|
        0 <= i1 < n && 0 <= i2 < n && (#[trigger] plan.0[i1]) is Some && plan.0[i1] == #[trigger] plan.0[i2]
            ==> i1 == i2
    &&& forall|i: int|
        0 <= i < n && (#[trigger] plan.0[i]) is Some ==> {
            let j = plan.0[i]->0;
            &&& j < n
            &&& i != j
            &&& !plan.1[i]
            &&& plan.0[j as int] is None
            &&& ready[i]
            &&& ready[j as int]
            &&& exists|k: int|
                0 <= k < contacts.len() && (#[trigger] contacts[k]).touching && absorber(
                    contacts[k],
                ) == i && absorbee(contacts[k]) == j
        }
}

/// Law: whatever the pairs and the cooldowns, the merges of a frame are
/// consistent: each body takes part in at most one merge, as absorber or as
/// absorbed, and the absorbed bodies are exactly those some body absorbs.
pub proof fn lemma_plan_consistent(n: nat, ready: Seq<bool>, contacts: Seq<Contact>)
    requires
        ready.len() == n,
        n <= usize::MAX,
        contacts_valid(n, contacts),
    ensures
        plan_consistent(n, ready, contacts, plan_after(n, ready, contacts)),
    decreases contacts.len(),
{
    if contacts.len() == 0 {
        let p = initial_plan(n);
        assert forall|j: int| 0 <= j < n implies (#[trigger] p.1[j] <==> exists|i: int|
            0 <= i < n && #[trigger] p.0[i] == Some(j as usize)) by {}
    } else {
        let prefix = contacts.drop_last();
        let c = contacts.last();
        assert(contacts_valid(n, prefix)) by {
            assert forall|k: int| 0 <= k < prefix.len() implies {
                &&& (#[trigger] prefix[k]).first < n
                &&& prefix[k].second < n
                &&& prefix[k].first != prefix[k].second
            } by {
                assert(prefix[k] == contacts[k]);
            }
        }
        lemma_plan_consistent(n, ready, prefix);
        let p = plan_after(n, ready, prefix);
        let q = plan_after(n, ready, contacts);
        assert(contacts[contacts.len() - 1] == c);
        // every merge of the prefix still has its witnessing contact
        assert forall|i: int, j: usize|
            0 <= i < n && p.0[i] == Some(j) implies exists|k: int|
                0 <= k < contacts.len() && (#[trigger] contacts[k]).touching && absorber(
                    contacts[k],
                ) == i && absorbee(contacts[k]) == j by {
            let k = choose|k: int|
                0 <= k < prefix.len() && (#[trigger] prefix[k]).touching && absorber(prefix[k])
                    == i && absorbee(prefix[k]) == j;
            assert(prefix[k] == contacts[k]);
        }
        if may_merge(p, ready, c) {
            let a = absorber(c) as int;
            let b = absorbee(c) as int;
            assert(q.0 == p.0.update(a, Some(b as usize)));
            assert(q.1 == p.1.update(b, true));
            assert forall|j: int| 0 <= j < n implies (#[trigger] q.1[j] <==> exists|i: int|
                0 <= i < n && #[trigger] q.0[i] == Some(j as usize)) by {
                if j == b {
                    assert(q.0[a] == Some(j as usize));
                } else {
                    if q.1[j] {
                        assert(p.1[j]);
                        let i = choose|i: int| 0 <= i < n && #[trigger] p.0[i] == Some(j as usize);
                        assert(i != a);
                        assert(q.0[i] == Some(j as usize));
                    }
                    if exists|i: int| 0 <= i < n && #[trigger] q.0[i] == Some(j as usize) {
                        let i = choose|i: int| 0 <= i < n && #[trigger] q.0[i] == Some(j as usize);
                        assert(q.0[a] == Some(b as usize));
                        assert(0 <= b < n && 0 <= j < n);
                        assert(i != a);
                        assert(p.0[i] == Some(j as usize));
                    }
                }
            }
            assert forall|i1: int, i2: int|
                0 <= i1 < n && 0 <= i2 < n && (#[trigger] q.0[i1]) is Some && q.0[i1] == #[trigger] q.0[i2]
                    implies i1 == i2 by {
                let j = q.0[i1]->0;
                if i1 != a && i2 != a {
                    assert(p.0[i1] == Some(j) && p.0[i2] == Some(j));
                } else if i1 == a && i2 != a {
                    assert(p.0[i2] == Some(j));
                    assert(p.1[j as int]);
                } else if i1 != a && i2 == a {
                    assert(p.0[i1] == Some(j));
                    assert(p.1[j as int]);
                }
            }
            assert forall|i: int| 0 <= i < n && (#[trigger] q.0[i]) is Some implies {
                let j = q.0[i]->0;
                &&& j < n
                &&& i != j
                &&& !q.1[i]
                &&& q.0[j as int] is None
                &&& ready[i]
                &&& ready[j as int]
                &&& exists|k: int|
                    0 <= k < contacts.len() && (#[trigger] contacts[k]).touching && absorber(
                        contacts[k],
                    ) == i && absorbee(contacts[k]) == j
            } by {
                let j = q.0[i]->0;
                if i == a {
                    assert(contacts[contacts.len() - 1].touching);
                } else {
                    assert(p.0[i] == Some(j));
                    if j as int == a {
                        assert(p.1[a]);
                        assert(false);
                    }
                    if i == b {
                        assert(p.0[b] is None);
                        assert(false);
                    }
                }
            }
        } else {
            assert(q == p);
        }
    }
}

/// The pair could merge on its own: it touches and both bodies are ready.
pub open spec fn eligible(ready: Seq<bool>, c: Contact) -> bool {
    c.touching && ready[c.first as int] && ready[c.second as int]
}

/// The plan holds the merge of this pair, the strictly larger body (the
/// second one on a tie) absorbing the other.
pub open spec fn merged_by(plan: (Seq<Option<usize>>, Seq<bool>), c: Contact) -> bool {
    if c.first_larger {
        plan.0[c.first as int] == Some(c.second)
    } else {
        plan.0[c.second as int] == Some(c.first)
    }
}

/// Body `b` absorbs or is absorbed in the plan.
pub open spec fn involved(plan: (Seq<Option<usize>>, Seq<bool>), b: int) -> bool {
    plan.0[b] is Some || plan.1[b]
}

/// The two pairs have a body in common.
pub open spec fn share_body(c1: Contact, c2: Contact) -> bool {
    c1.first == c2.first || c1.first == c2.second || c1.second == c2.first || c1.second == c2.second
}

/// The merges are the ones taken walking the pairs in order: every pair
/// that touches with both bodies ready is merged, unless an earlier such
/// pair sharing a body with it was merged.
pub open spec fn plan_greedy(
    ready: Seq<bool>,
    contacts: Seq<Contact>,
    plan: (Seq<Option<usize>>, Seq<bool>),
) -> bool {
    forall|k: int|
        0 <= k < contacts.len() && eligible(ready, #[trigger] contacts[k]) ==> merged_by(
            plan,
            contacts[k],
        ) || exists|k2: int|
            0 <= k2 < k && eligible(ready, #[trigger] contacts[k2]) && merged_by(plan, contacts[k2])
                && share_body(contacts[k2], contacts[k])
}

/// No pair that could merge is left with both bodies free.
pub open spec fn plan_maximal(
    ready: Seq<bool>,
    contacts: Seq<Contact>,
    plan: (Seq<Option<usize>>, Seq<bool>),
) -> bool {
    forall|k: int|
        0 <= k < contacts.len() && eligible(ready, #[trigger] contacts[k]) ==> involved(
            plan,
            contacts[k].first as int,
        ) || involved(plan, contacts[k].second as int)
}

proof fn lemma_involved_has_merge(
    n: nat,
    ready: Seq<bool>,
    contacts: Seq<Contact>,
    p: (Seq<Option<usize>>, Seq<bool>),
    x: int,
)
    requires
        0 <= x < n,
        n <= usize::MAX,
        contacts_valid(n, contacts),
        plan_consistent(n, ready, contacts, p),
        involved(p, x),
    ensures
        exists|k: int|
            0 <= k < contacts.len() && eligible(ready, #[trigger] contacts[k]) && merged_by(
                p,
                contacts[k],
            ) && (contacts[k].first == x || contacts[k].second == x),
{
    let i: int = if p.0[x] is Some {
        x
    } else {
        choose|i: int| 0 <= i < n && #[trigger] p.0[i] == Some(x as usize)
    };
    assert(p.0[i] is Some);
    let j = p.0[i]->0;
    let k = choose|k: int|
        0 <= k < contacts.len() && (#[trigger] contacts[k]).touching && absorber(contacts[k]) == i
            && absorbee(contacts[k]) == j;
    assert(eligible(ready, contacts[k]));
    assert(merged_by(p, contacts[k]));
    assert(i == x || j == x);
    assert(contacts[k].first == x || contacts[k].second == x);
}

/// Law: the merges of a frame are those taken walking the pairs in order,
/// whatever the number of bodies and pairs: a pair that touches with both
/// bodies ready merges unless an earlier such pair sharing a body merged.
pub proof fn lemma_plan_greedy(n: nat, ready: Seq<bool>, contacts: Seq<Contact>)
    requires
        ready.len() == n,
        n <= usize::MAX,
        contacts_valid(n, contacts),
    ensures
        plan_greedy(ready, contacts, plan_after(n, ready, contacts)),
    decreases contacts.len(),
{
    if contacts.len() > 0 {
        let prefix = contacts.drop_last();
        let c = contacts.last();
        assert(contacts_valid(n, prefix)) by {
            assert forall|k: int| 0 <= k < prefix.len() implies {
                &&& (#[trigger] prefix[k]).first < n
                &&& prefix[k].second < n
                &&& prefix[k].first != prefix[k].second
            } by {
                assert(prefix[k] == contacts[k]);
            }
        }
        lemma_plan_greedy(n, ready, prefix);
        lemma_plan_consistent(n, ready, prefix);
        let p = plan_after(n, ready, prefix);
        let q = plan_after(n, ready, contacts);
        let last = contacts.len() - 1;
        assert(contacts[last] == c);
        // merges already in the plan stay in it
        assert forall|d: Contact| #[trigger] merged_by(p, d) && d.first < n && d.second < n implies merged_by(q, d) by {
            if may_merge(p, ready, c) {
                assert(q.0 == p.0.update(absorber(c) as int, Some(absorbee(c))));
            }
        }
        assert forall|k: int|
            0 <= k < contacts.len() && eligible(ready, #[trigger] contacts[k]) implies merged_by(
                q,
                contacts[k],
            ) || exists|k2: int|
                0 <= k2 < k && eligible(ready, #[trigger] contacts[k2]) && merged_by(q, contacts[k2])
                    && share_body(contacts[k2], contacts[k]) by {
            if k < last {
                assert(prefix[k] == contacts[k]);
                if merged_by(p, prefix[k]) {
                    assert(merged_by(q, contacts[k]));
                } else {
                    let k2 = choose|k2: int|
                        0 <= k2 < k && eligible(ready, #[trigger] prefix[k2]) && merged_by(p, prefix[k2])
                            && share_body(prefix[k2], prefix[k]);
                    assert(prefix[k2] == contacts[k2]);
                    assert(merged_by(q, contacts[k2]));
                }
            } else {
                if may_merge(p, ready, c) {
                    assert(merged_by(q, c));
                } else {
                    let x: int = if involved(p, c.first as int) {
                        c.first as int
                    } else {
                        c.second as int
                    };
                    lemma_involved_has_merge(n, ready, prefix, p, x);
                    let k2 = choose|k2: int|
                        0 <= k2 < prefix.len() && eligible(ready, #[trigger] prefix[k2]) && merged_by(
                            p,
                            prefix[k2],
                        ) && (prefix[k2].first == x || prefix[k2].second == x);
                    assert(prefix[k2] == contacts[k2]);
                    assert(merged_by(q, contacts[k2]));
                    assert(share_body(contacts[k2], contacts[k]));
                }
            }
        }
    }
}

/// Law: no pair that touches with both bodies ready is left with both
/// bodies free; at least one of them absorbs or is absorbed.
pub proof fn lemma_plan_maximal(n: nat, ready: Seq<bool>, contacts: Seq<Contact>)
    requires
        ready.len() == n,
        n <= usize::MAX,
        contacts_valid(n, contacts),
    ensures
        plan_maximal(ready, contacts, plan_after(n, ready, contacts)),
{
    lemma_plan_greedy(n, ready, contacts);
    let q = plan_after(n, ready, contacts);
    assert forall|k: int|
        0 <= k < contacts.len() && eligible(ready, #[trigger] contacts[k]) implies involved(
            q,
            contacts[k].first as int,
        ) || involved(q, contacts[k].second as int) by {
        let c = contacts[k];
        if !merged_by(q, c) {
            let k2 = choose|k2: int|
                0 <= k2 < k && eligible(ready, #[trigger] contacts[k2]) && merged_by(q, contacts[k2])
                    && share_body(contacts[k2], contacts[k]);
            let d = contacts[k2];
            lemma_plan_consistent(n, ready, contacts);
            if d.first_larger {
                assert(q.0[d.first as int] is Some);
                assert(q.1[d.second as int]);
            } else {
                assert(q.0[d.second as int] is Some);
                assert(q.1[d.first as int]);
            }
        }
    }
}

/// Decides the merges of a frame among `ready.len()` bodies: `ready[i]` tells
/// whether body `i` has finished its absorb cooldown, and `contacts` lists
/// the examined pairs in the order they are walked.
pub fn plan_absorptions(ready: &Vec<bool>, contacts: &Vec<Contact>) -> (plan: AbsorptionPlan)
    requires
        contacts_valid(ready@.len(), contacts@),
    ensures
        (plan.absorbs@, plan.absorbed@) == plan_after(ready@.len(), ready@, contacts@),
        plan_consistent(ready@.len(), ready@, contacts@, (plan.absorbs@, plan.absorbed@)),
        plan_greedy(ready@, contacts@, (plan.absorbs@, plan.absorbed@)),
        plan_maximal(ready@, contacts@, (plan.absorbs@, plan.absorbed@)),
{
    let n = ready.len();
    let mut absorbs: Vec<Option<usize>> = Vec::new();
    let mut absorbed: Vec<bool> = Vec::new();
    let mut i: usize = 0;
    while i < n
        invariant
            i <= n,
            absorbs@ == initial_plan(n as nat).0.take(i as int),
            absorbed@ == initial_plan(n as nat).1.take(i as int),
        decreases n - i,
    {
        absorbs.push(None);
        absorbed.push(false);
        i = i + 1;
    }
    assert(absorbs@ == initial_plan(n as nat).0);
    assert(absorbed@ == initial_plan(n as nat).1);
    assert(contacts@.take(0) =~= Seq::<Contact>::empty());
    let mut k: usize = 0;
    while k < contacts.len()
        invariant
            n == ready@.len(),
            k <= contacts@.len(),
            contacts_valid(n as nat, contacts@),
            (absorbs@, absorbed@) == plan_after(n as nat, ready@, contacts@.take(k as int)),
            absorbs@.len() == n,
            absorbed@.len() == n,
        decreases contacts@.len() - k,
    {
        let c = contacts[k];
        assert(contacts@.take(k as int + 1).drop_last() =~= contacts@.take(k as int));
        assert(contacts@.take(k as int + 1).last() == c);
        let a = c.first;
        let b = c.second;
        if c.touching && absorbs[a].is_none() && absorbs[b].is_none() && !absorbed[a]
            && !absorbed[b] && ready[a] && ready[b] {
            if c.first_larger {
                absorbs.set(a, Some(b));
                absorbed.set(b, true);
            } else {
                absorbs.set(b, Some(a));
                absorbed.set(a, true);
            }
        }
        k = k + 1;
    }
    assert(contacts@.take(contacts@.len() as int) =~= contacts@);
    proof {
        lemma_plan_consistent(n as nat, ready@, contacts@);
        lemma_plan_greedy(n as nat, ready@, contacts@);
        lemma_plan_maximal(n as nat, ready@, contacts@);
    }
    AbsorptionPlan { absorbs, absorbed }
}

/// Number of debris bodies thrown out when a heavy body is absorbed.
pub const DEBRIS_PER_COLLISION: u32 = 10;

/// What happens to an absorber when it takes in a body.
#[derive(PartialEq, Eq, Structural, Clone, Copy, Debug)]
pub struct MergeEffects {
    /// Its velocity becomes the mass-weighted mean of the two velocities.
    pub blend_velocity: bool,
    /// How many debris bodies are thrown out.
    pub debris: u32,
}

/// The effects of a merge besides the growth of the absorber, which always
/// happens. Nothing else happens when either body is massless; otherwise
/// the velocities are blended unless the absorbed body is debris (its debris
/// multiplier is 0), and debris is thrown out when the absorbed body is
/// heavy.
pub fn merge_effects(
    absorber_massless: bool,
    absorbed_massless: bool,
    absorbed_debris_multiplier: i32,
    absorbed_heavy: bool,
) -> (effects: MergeEffects)
    ensures
        effects.blend_velocity == (!absorber_massless && !absorbed_massless
            && absorbed_debris_multiplier != 0),
        effects.debris == (if !absorber_massless && !absorbed_massless && absorbed_heavy {
            DEBRIS_PER_COLLISION
        } else {
            0
        }),
{
    if absorber_massless || absorbed_massless {
        return MergeEffects { blend_velocity: false, debris: 0 };
    }
    let blend_velocity = absorbed_debris_multiplier != 0;
    let debris = if absorbed_heavy {
        DEBRIS_PER_COLLISION
    } else {
        0
    };
    MergeEffects { blend_velocity, debris }
}

} // verus!
