//! Many games at once.
//!
//! A wave of games is advanced together: the leaves that their trees want evaluated are merged into
//! one batch, so that a single evaluation does more work. Evaluation runs elsewhere; while a batch is
//! away, the trees whose leaves it holds wait, and the others go on. A [`Wave`] decides which tree
//! may go on, what a batch holds, and what an answer means. A batch that fails, or comes back
//! incomplete, voids the games that took part in it: they leave no record.

use std::collections::HashMap;

use vstd::prelude::*;

use crate::episode::F32Bits;
use crate::finalize::{all_full, finalize_full_search, is_final};
use crate::outcome::{
    is_void, outcome_from_episode, result_for_a, void_outcome, GameOutcome,
};
use crate::search::SearchStep;

verus! {

broadcast use vstd::std_specs::hash::group_hash_axioms;

/// What is known of the games of a wave.
#[verifier::ext_equal]
pub struct WaveModel {
    /// Whether the game still goes on.
    pub active: Seq<bool>,
    /// Whether the game was voided.
    pub abandoned: Seq<bool>,
    /// The batch that the tree waits for.
    pub blocked: Seq<Option<u64>>,
    /// For every batch that is away: the tree of each of its leaves.
    pub in_flight: Map<u64, Seq<usize>>,
    /// The number of the next batch.
    pub next_batch: u64,
    /// The games that are over, in the order in which they ended.
    pub order: Seq<usize>,
}

/// Whether `i` is in a list: whether tree `i` has a leaf in a batch, or game `i` is one of those that
/// are over.
pub open spec fn targeted(targets: Seq<usize>, i: int) -> bool {
    exists|k: int| 0 <= k < targets.len() && #[trigger] targets[k] == i
}

impl WaveModel {
    /// How many games there are.
    pub open spec fn games(self) -> int {
        self.active.len() as int
    }

    /// Whether tree `i` may go on: its game is not over, and it waits for nothing.
    pub open spec fn may_step(self, i: int) -> bool {
        self.active[i] && self.blocked[i] is None
    }

    /// What every wave keeps: a voided game is over; a tree waits only for a batch that is away and
    /// holds a leaf of it; every leaf of a batch that is away is of a tree that waits for it; and
    /// the games that are over are listed once each.
    pub open spec fn wf(self) -> bool {
        &&& self.abandoned.len() == self.games()
        &&& self.blocked.len() == self.games()
        &&& forall|i: int| 0 <= i < self.games() && #[trigger] self.abandoned[i] ==> !self.active[i]
        &&& forall|i: int|
            0 <= i < self.games() ==> (#[trigger] self.blocked[i] matches Some(id)
                ==> self.active[i] && self.in_flight.contains_key(id) && targeted(
                self.in_flight[id],
                i,
            ))
        &&& forall|id: u64| #[trigger]
            self.in_flight.contains_key(id) ==> id < self.next_batch && self.in_flight[id].len() > 0
        &&& forall|id: u64, k: int|
            self.in_flight.contains_key(id) && 0 <= k < self.in_flight[id].len() ==> (
            #[trigger] self.in_flight[id][k]) < self.games()
                && self.blocked[self.in_flight[id][k] as int] == Some(id)
        &&& self.order_wf()
    }

    /// The games that are over, and no others, are listed once each.
    pub open spec fn order_wf(self) -> bool {
        &&& self.order.no_duplicates()
        &&& forall|k: int| 0 <= k < self.order.len() ==> #[trigger] self.order[k] < self.games()
        &&& forall|i: int|
            0 <= i < self.games() ==> (#[trigger] self.active[i] <==> !targeted(self.order, i))
    }
}

/// A wave of `n` games at its start.
pub open spec fn started(n: nat) -> WaveModel {
    WaveModel {
        active: Seq::new(n, |i: int| true),
        abandoned: Seq::new(n, |i: int| false),
        blocked: Seq::new(n, |i: int| None::<u64>),
        in_flight: Map::empty(),
        next_batch: 0,
        order: Seq::empty(),
    }
}

/// The tree of each leaf of the next batch, where the first `k` trees have `counts` leaves each;
/// trees that may not go on contribute none.
pub open spec fn pool(m: WaveModel, counts: Seq<usize>, k: int) -> Seq<usize>
    decreases k,
{
    if k <= 0 {
        Seq::empty()
    } else {
        pool(m, counts, k - 1) + if m.may_step(k - 1) {
            Seq::new(counts[k - 1] as nat, |j: int| (k - 1) as usize)
        } else {
            Seq::empty()
        }
    }
}

/// The wave after its next batch was sent away.
pub open spec fn submitted(m: WaveModel, counts: Seq<usize>) -> WaveModel {
    WaveModel {
        blocked: Seq::new(
            m.active.len(),
            |i: int|
                if m.may_step(i) && counts[i] > 0 {
                    Some(m.next_batch)
                } else {
                    m.blocked[i]
                },
        ),
        in_flight: m.in_flight.insert(m.next_batch, pool(m, counts, m.games())),
        next_batch: (m.next_batch + 1) as u64,
        ..m
    }
}

/// Which of the first `k` games go on and have a leaf in a batch, in order.
pub open spec fn taking_part(targets: Seq<usize>, active: Seq<bool>, k: int) -> Seq<usize>
    decreases k,
{
    if k <= 0 {
        Seq::empty()
    } else if active[k - 1] && targeted(targets, k - 1) {
        taking_part(targets, active, k - 1).push((k - 1) as usize)
    } else {
        taking_part(targets, active, k - 1)
    }
}

/// The wave after batch `id` failed: the games that took part in it are voided.
pub open spec fn voided(m: WaveModel, id: u64) -> WaveModel {
    let targets = m.in_flight[id];
    WaveModel {
        active: Seq::new(m.active.len(), |i: int| m.active[i] && !targeted(targets, i)),
        abandoned: Seq::new(m.active.len(), |i: int| m.abandoned[i] || targeted(targets, i)),
        blocked: Seq::new(
            m.active.len(),
            |i: int|
                if targeted(targets, i) {
                    None
                } else {
                    m.blocked[i]
                },
        ),
        in_flight: m.in_flight.remove(id),
        order: m.order + taking_part(targets, m.active, m.games()),
        ..m
    }
}

/// The wave after batch `id` was answered: the trees that took part in it may go on.
pub open spec fn answered(m: WaveModel, id: u64) -> WaveModel {
    let targets = m.in_flight[id];
    WaveModel {
        blocked: Seq::new(
            m.active.len(),
            |i: int|
                if m.active[i] && targeted(targets, i) {
                    None
                } else {
                    m.blocked[i]
                },
        ),
        in_flight: m.in_flight.remove(id),
        ..m
    }
}

/// The places, among the first `k` of a batch, of the leaves of tree `t`.
pub open spec fn places(targets: Seq<usize>, t: int, k: int) -> Seq<usize>
    decreases k,
{
    if k <= 0 {
        Seq::empty()
    } else if targets[k - 1] == t {
        places(targets, t, k - 1).push((k - 1) as usize)
    } else {
        places(targets, t, k - 1)
    }
}

/// Which answers go to which of the first `t` trees: for every game that still goes on and has
/// leaves in the batch, their places.
pub open spec fn shares(targets: Seq<usize>, active: Seq<bool>, t: int) -> Seq<(usize, Seq<usize>)>
    decreases t,
{
    if t <= 0 {
        Seq::empty()
    } else {
        let own = places(targets, t - 1, targets.len() as int);
        if active[t - 1] && own.len() > 0 {
            shares(targets, active, t - 1).push(((t - 1) as usize, own))
        } else {
            shares(targets, active, t - 1)
        }
    }
}

/// The answers that go to one tree.
#[derive(Debug)]
pub struct TreeShare {
    pub tree: usize,
    /// The places of its leaves in the batch, in order.
    pub places: Vec<usize>,
}

/// The shares of an answer as plain values.
pub open spec fn share_list(list: Seq<TreeShare>) -> Seq<(usize, Seq<usize>)> {
    list.map_values(|s: TreeShare| (s.tree, s.places@))
}

/// What the driver of a wave does next.
#[derive(Clone, Copy, Debug, PartialEq, Eq, Structural)]
pub enum Pace {
    /// Some tree may go on.
    Advance,
    /// Every game that goes on waits for a batch: wait for an answer.
    Await,
    /// No game goes on.
    Finished,
}

/// How a game of a finished wave ends.
#[derive(Clone, Copy, Debug, PartialEq, Eq, Structural)]
pub enum Settlement {
    /// The game counts as played, but leaves no record and no result.
    Void,
    /// The game leaves a record. The first player had red in every game of even number.
    Record { player_a_is_red: bool },
}

/// A wave of games.
pub struct Wave {
    active: Vec<bool>,
    abandoned: Vec<bool>,
    blocked: Vec<Option<u64>>,
    in_flight: HashMap<u64, Vec<usize>>,
    next_batch: u64,
    order: Vec<usize>,
}

impl View for Wave {
    type V = WaveModel;

    closed spec fn view(&self) -> WaveModel {
        WaveModel {
            active: self.active@,
            abandoned: self.abandoned@,
            blocked: self.blocked@,
            in_flight: self.in_flight@.map_values(|v: Vec<usize>| v@),
            next_batch: self.next_batch,
            order: self.order@,
        }
    }
}

proof fn lemma_taking_part(targets: Seq<usize>, active: Seq<bool>, k: int)
    requires
        0 <= k <= active.len(),
        k <= usize::MAX,
    ensures
        taking_part(targets, active, k).no_duplicates(),
        forall|j: int|
            0 <= j < taking_part(targets, active, k).len() ==> {
                let t = #[trigger] taking_part(targets, active, k)[j];
                t < k && active[t as int] && targeted(targets, t as int)
            },
        forall|i: int|
            0 <= i < k && active[i] && #[trigger] targeted(targets, i) ==> targeted(
                taking_part(targets, active, k),
                i,
            ),
    decreases k,
{
    if k > 0 {
        lemma_taking_part(targets, active, k - 1);
        let before = taking_part(targets, active, k - 1);
        let whole = taking_part(targets, active, k);
        assert forall|i: int| 0 <= i < k && active[i] && #[trigger] targeted(
            targets,
            i,
        ) implies targeted(whole, i) by {
            if i < k - 1 {
                assert(targeted(before, i));
                let j = choose|j: int| 0 <= j < before.len() && #[trigger] before[j] == i;
                assert(whole[j] == i);
            } else {
                assert(whole[before.len() as int] == i);
            }
        }
    }
}

proof fn lemma_listed_push(order: Seq<usize>, new: usize, i: int)
    ensures
        targeted(order.push(new), i) <==> targeted(order, i) || i == new,
{
    let after = order.push(new);
    if targeted(order, i) {
        let k = choose|k: int| 0 <= k < order.len() && #[trigger] order[k] == i;
        assert(after[k] == i);
    }
    if i == new {
        assert(after[order.len() as int] == i);
    }
    if targeted(after, i) {
        let k = choose|k: int| 0 <= k < after.len() && #[trigger] after[k] == i;
        if k < order.len() {
            assert(order[k] == i);
        }
    }
}

proof fn lemma_listed_concat(a: Seq<usize>, b: Seq<usize>, i: int)
    ensures
        targeted(a + b, i) <==> targeted(a, i) || targeted(b, i),
{
    let whole = a + b;
    if targeted(a, i) {
        let k = choose|k: int| 0 <= k < a.len() && #[trigger] a[k] == i;
        assert(whole[k] == i);
    }
    if targeted(b, i) {
        let k = choose|k: int| 0 <= k < b.len() && #[trigger] b[k] == i;
        assert(whole[a.len() + k] == i);
    }
    if targeted(whole, i) {
        let k = choose|k: int| 0 <= k < whole.len() && #[trigger] whole[k] == i;
        if k < a.len() {
            assert(a[k] == i);
        } else {
            assert(b[k - a.len()] == i);
        }
    }
}

proof fn lemma_voided_order(m: WaveModel, id: u64)
    requires
        m.order_wf(),
        m.games() <= usize::MAX,
    ensures
        voided(m, id).order_wf(),
{
    let targets = m.in_flight[id];
    let new = taking_part(targets, m.active, m.games());
    let v = voided(m, id);
    lemma_taking_part(targets, m.active, m.games());
    assert forall|i: int| 0 <= i < v.games() implies (#[trigger] v.active[i] <==> !targeted(
        v.order,
        i,
    )) by {
        lemma_listed_concat(m.order, new, i);
        if targeted(new, i) {
            let j = choose|j: int| 0 <= j < new.len() && #[trigger] new[j] == i;
            assert(targeted(targets, new[j] as int));
        }
        assert(m.active[i] <==> !targeted(m.order, i));
    }
    assert forall|a: int, b: int| 0 <= a < b < v.order.len() implies v.order[a] != v.order[b] by {
        if a < m.order.len() && b >= m.order.len() {
            let t = new[b - m.order.len()];
            assert(m.active[t as int]);
            assert(!targeted(m.order, t as int));
            assert(m.order[a] != t);
        }
    }
    assert forall|k: int| 0 <= k < v.order.len() implies #[trigger] v.order[k] < v.games() by {
        if k >= m.order.len() {
            assert(new[k - m.order.len()] < m.games());
        }
    }
}

proof fn lemma_pool(m: WaveModel, counts: Seq<usize>, k: int)
    requires
        0 <= k <= m.games(),
        m.games() <= usize::MAX,
        counts.len() == m.games(),
    ensures
        forall|j: int|
            0 <= j < pool(m, counts, k).len() ==> {
                let t = #[trigger] pool(m, counts, k)[j];
                t < k && m.may_step(t as int) && counts[t as int] > 0
            },
        forall|i: int|
            0 <= i < k && m.may_step(i) && counts[i] > 0 ==> #[trigger] targeted(
                pool(m, counts, k),
                i,
            ),
    decreases k,
{
    if k > 0 {
        lemma_pool(m, counts, k - 1);
        let before = pool(m, counts, k - 1);
        let whole = pool(m, counts, k);
        assert forall|i: int| 0 <= i < k && m.may_step(i) && counts[i] > 0 implies
            #[trigger] targeted(whole, i) by {
            if i < k - 1 {
                assert(targeted(before, i));
                let j = choose|j: int| 0 <= j < before.len() && #[trigger] before[j] == i;
                assert(whole[j] == i);
            } else {
                assert(whole[before.len() as int] == i);
            }
        }
        assert forall|j: int| 0 <= j < whole.len() implies {
            let t = #[trigger] whole[j];
            t < k && m.may_step(t as int) && counts[t as int] > 0
        } by {
            if j < before.len() {
                assert(whole[j] == before[j]);
            }
        }
    }
}

proof fn lemma_submitted(m: WaveModel, counts: Seq<usize>)
    requires
        m.wf(),
        m.games() <= usize::MAX,
        counts.len() == m.games(),
        m.next_batch < u64::MAX,
        pool(m, counts, m.games()).len() > 0,
    ensures
        submitted(m, counts).wf(),
{
    let after = submitted(m, counts);
    let targets = pool(m, counts, m.games());
    let id = m.next_batch;
    lemma_pool(m, counts, m.games());
    assert(!m.in_flight.contains_key(id));
    assert forall|i: int| 0 <= i < after.games() implies (#[trigger] after.blocked[i] matches Some(
        b,
    ) ==> after.active[i] && after.in_flight.contains_key(b) && targeted(
        after.in_flight[b],
        i,
    )) by {
        if m.may_step(i) && counts[i] > 0 {
            assert(targeted(targets, i));
        } else if let Some(b) = m.blocked[i] {
            assert(b != id);
        }
    }
    assert forall|b: u64, k: int|
        after.in_flight.contains_key(b) && 0 <= k < after.in_flight[b].len() implies (
    #[trigger] after.in_flight[b][k]) < after.games() && after.blocked[after.in_flight[b][k] as int]
        == Some(b) by {
        if b == id {
            assert(after.in_flight[b] == targets);
            assert(targets[k] < m.games());
        } else {
            assert(after.in_flight[b] == m.in_flight[b]);
            assert(m.blocked[m.in_flight[b][k] as int] == Some(b));
        }
    }
}

proof fn lemma_released(m: WaveModel, id: u64)
    requires
        m.wf(),
        m.games() <= usize::MAX,
        m.in_flight.contains_key(id),
    ensures
        voided(m, id).wf(),
        answered(m, id).wf(),
        forall|i: int|
            0 <= i < m.games() ==> (#[trigger] targeted(m.in_flight[id], i) <==> m.blocked[i]
                == Some(id)),
{
    let targets = m.in_flight[id];
    assert forall|i: int| 0 <= i < m.games() implies (#[trigger] targeted(targets, i)
        <==> m.blocked[i] == Some(id)) by {
        if targeted(targets, i) {
            let k = choose|k: int| 0 <= k < targets.len() && #[trigger] targets[k] == i;
            assert(m.in_flight[id][k] == i);
        }
    }
    let v = voided(m, id);
    let a = answered(m, id);
    lemma_voided_order(m, id);
    assert(a.order_wf()) by {
        assert(a.order == m.order && a.active == m.active);
        assert(m.order_wf());
    }
    assert forall|b: u64, k: int|
        v.in_flight.contains_key(b) && 0 <= k < v.in_flight[b].len() implies (
    #[trigger] v.in_flight[b][k]) < v.games() && v.blocked[v.in_flight[b][k] as int] == Some(b) by {
        assert(m.in_flight[b][k] == v.in_flight[b][k]);
        assert(m.blocked[m.in_flight[b][k] as int] == Some(b));
        assert(!targeted(targets, m.in_flight[b][k] as int));
    }
    assert forall|b: u64, k: int|
        a.in_flight.contains_key(b) && 0 <= k < a.in_flight[b].len() implies (
    #[trigger] a.in_flight[b][k]) < a.games() && a.blocked[a.in_flight[b][k] as int] == Some(b) by {
        assert(m.in_flight[b][k] == a.in_flight[b][k]);
        assert(m.blocked[m.in_flight[b][k] as int] == Some(b));
        assert(!targeted(targets, m.in_flight[b][k] as int));
    }
}

fn is_targeted(targets: &Vec<usize>, i: usize) -> (res: bool)
    ensures
        res == targeted(targets@, i as int),
{
    let n: usize = targets.len();
    let mut k: usize = 0;
    while k < n
        invariant
            k <= n,
            n == targets@.len(),
            forall|j: int| 0 <= j < k ==> #[trigger] targets@[j] != i,
        decreases n - k,
    {
        if targets[k] == i {
            assert(targets@[k as int] == i);
            return true;
        }
        k += 1;
    }
    false
}

fn places_of(targets: &Vec<usize>, t: usize) -> (res: Vec<usize>)
    ensures
        res@ == places(targets@, t as int, targets@.len() as int),
{
    let n: usize = targets.len();
    let mut out: Vec<usize> = Vec::new();
    let mut k: usize = 0;
    while k < n
        invariant
            k <= n,
            n == targets@.len(),
            out@ == places(targets@, t as int, k as int),
        decreases n - k,
    {
        if targets[k] == t {
            out.push(k);
        }
        k += 1;
    }
    out
}

impl Wave {
    /// A wave of `games` games, all at their start.
    pub fn new(games: usize) -> (res: Self)
        ensures
            res@ == started(games as nat),
            res@.wf(),
    {
        let mut active: Vec<bool> = Vec::new();
        let mut abandoned: Vec<bool> = Vec::new();
        let mut blocked: Vec<Option<u64>> = Vec::new();
        let mut i: usize = 0;
        while i < games
            invariant
                i <= games,
                active@ == Seq::new(i as nat, |i: int| true),
                abandoned@ == Seq::new(i as nat, |i: int| false),
                blocked@ == Seq::new(i as nat, |i: int| None::<u64>),
            decreases games - i,
        {
            active.push(true);
            abandoned.push(false);
            blocked.push(None);
            i += 1;
        }
        let res = Wave {
            active,
            abandoned,
            blocked,
            in_flight: HashMap::new(),
            next_batch: 0,
            order: Vec::new(),
        };
        assert(res@.in_flight =~= Map::empty());
        res
    }

    /// How many games there are.
    pub fn games(&self) -> (res: usize)
        ensures
            res == self@.games(),
    {
        self.active.len()
    }

    /// The number of the next batch.
    pub fn next_batch(&self) -> (res: u64)
        ensures
            res == self@.next_batch,
    {
        self.next_batch
    }

    /// Whether tree `i` may go on.
    pub fn may_step(&self, i: usize) -> (res: bool)
        requires
            self@.wf(),
            i < self@.games(),
        ensures
            res == self@.may_step(i as int),
    {
        self.active[i] && self.blocked[i].is_none()
    }

    /// Game `i` is over.
    pub fn finish_game(&mut self, i: usize)
        requires
            old(self)@.wf(),
            i < old(self)@.games(),
            old(self)@.may_step(i as int),
        ensures
            final(self)@ == (WaveModel {
                active: old(self)@.active.update(i as int, false),
                order: old(self)@.order.push(i),
                ..old(self)@
            }),
            final(self)@.wf(),
    {
        let ghost before = self@;
        self.active.set(i, false);
        self.order.push(i);
        proof {
            let after = self@;
            assert(!targeted(before.order, i as int)) by {
                assert(before.active[i as int]);
            }
            assert forall|j: int| 0 <= j < after.games() implies (#[trigger] after.active[j]
                <==> !targeted(after.order, j)) by {
                lemma_listed_push(before.order, i, j);
                assert(before.active[j] <==> !targeted(before.order, j));
            }
            assert(after.order.no_duplicates());
            assert(after.in_flight == before.in_flight);
            assert forall|j: int| 0 <= j < after.games() implies (
            #[trigger] after.blocked[j] matches Some(id) ==> after.active[j]) by {
                assert(before.blocked[j] == after.blocked[j]);
            }
            assert forall|id: u64, k: int|
                after.in_flight.contains_key(id) && 0 <= k < after.in_flight[id].len() implies (
            #[trigger] after.in_flight[id][k]) < after.games()
                && after.blocked[after.in_flight[id][k] as int] == Some(id) by {
                assert(before.blocked[before.in_flight[id][k] as int] == Some(id));
            }
        }
    }

    /// Sends away a batch: `counts` says how many leaves each tree wants evaluated; those of trees
    /// that may not go on are left out. Returns the number of the batch, or `None` where there is
    /// nothing to evaluate. The leaves are in the order of the trees.
    pub fn submit(&mut self, counts: &Vec<usize>) -> (res: Option<u64>)
        requires
            old(self)@.wf(),
            counts@.len() == old(self)@.games(),
            old(self)@.next_batch < u64::MAX,
        ensures
            final(self)@.wf(),
            if pool(old(self)@, counts@, old(self)@.games()).len() == 0 {
                res == None::<u64> && final(self)@ == old(self)@
            } else {
                res == Some(old(self)@.next_batch) && final(self)@ == submitted(
                    old(self)@,
                    counts@,
                )
            },
    {
        let ghost before = self@;
        let n: usize = self.active.len();
        let id: u64 = self.next_batch;
        let mut targets: Vec<usize> = Vec::new();
        let mut blocked: Vec<Option<u64>> = Vec::new();
        let mut i: usize = 0;
        while i < n
            invariant
                i <= n,
                before == self@,
                before.wf(),
                n == before.games(),
                n == self.active@.len(),
                n == self.blocked@.len(),
                counts@.len() == n,
                id == before.next_batch,
                targets@ == pool(before, counts@, i as int),
                blocked@ == submitted(before, counts@).blocked.take(i as int),
            decreases n - i,
        {
            let free: bool = self.active[i] && self.blocked[i].is_none();
            assert(free == before.may_step(i as int));
            if free {
                let count: usize = counts[i];
                let ghost so_far = targets@;
                let mut j: usize = 0;
                while j < count
                    invariant
                        j <= count,
                        targets@ == so_far + Seq::new(j as nat, |x: int| i),
                    decreases count - j,
                {
                    targets.push(i);
                    assert(targets@ =~= so_far + Seq::new((j + 1) as nat, |x: int| i));
                    j += 1;
                }
                if count > 0 {
                    blocked.push(Some(id));
                } else {
                    blocked.push(None);
                }
                assert(targets@ =~= pool(before, counts@, i + 1));
            } else {
                blocked.push(self.blocked[i]);
                assert(targets@ =~= pool(before, counts@, i + 1));
            }
            assert(blocked@ =~= submitted(before, counts@).blocked.take(i + 1));
            i += 1;
        }
        if targets.len() == 0 {
            return None;
        }
        proof {
            lemma_submitted(before, counts@);
        }
        self.blocked = blocked;
        self.in_flight.insert(id, targets);
        self.next_batch = id + 1;
        assert(self@.blocked =~= submitted(before, counts@).blocked);
        assert(self@.in_flight =~= submitted(before, counts@).in_flight);
        Some(id)
    }

    /// Takes the answer to batch `id`: so many policies and so many values, or a failure. Returns
    /// which of them go to which tree. A failure, or any other number of policies or of values than
    /// the batch has leaves, voids the games that took part. A batch that is not away changes
    /// nothing.
    pub fn apply_response(
        &mut self,
        id: u64,
        failed: bool,
        policies: usize,
        values: usize,
    ) -> (res: Vec<TreeShare>)
        requires
            old(self)@.wf(),
        ensures
            final(self)@.wf(),
            ({
                let m = old(self)@;
                let targets = m.in_flight[id];
                if !m.in_flight.contains_key(id) {
                    final(self)@ == m && res@.len() == 0
                } else if failed || policies != targets.len() || values != targets.len() {
                    final(self)@ == voided(m, id) && res@.len() == 0
                } else {
                    final(self)@ == answered(m, id) && share_list(res@) == shares(
                        targets,
                        m.active,
                        m.games(),
                    )
                }
            }),
            ({
                let m = old(self)@;
                let targets = m.in_flight[id];
                let whole = !failed && policies == targets.len() && values == targets.len();
                m.in_flight.contains_key(id) ==> {
                    &&& final(self)@.in_flight == m.in_flight.remove(id)
                    &&& whole ==> final(self)@.abandoned == m.abandoned && final(self)@.active
                        == m.active && final(self)@.order == m.order
                    &&& !whole ==> res@.len() == 0 && forall|k: int|
                        #![trigger targets[k]]
                        0 <= k < targets.len() ==> final(self)@.abandoned[targets[k] as int]
                            && !final(self)@.active[targets[k] as int]
                }
            }),
            ({
                let targets = old(self)@.in_flight[id];
                old(self)@.in_flight.contains_key(id) && !failed && policies == targets.len()
                    && values == targets.len() ==> {
                    &&& forall|a: int, b: int|
                        #![trigger res@[a], res@[b]]
                        0 <= a < b < res@.len() ==> res@[a].tree < res@[b].tree
                    &&& forall|a: int, i: int|
                        #![trigger res@[a].places@[i]]
                        0 <= a < res@.len() && 0 <= i < res@[a].places@.len() ==> {
                            &&& res@[a].places@[i] < targets.len()
                            &&& targets[res@[a].places@[i] as int] == res@[a].tree
                        }
                    &&& forall|a: int, i: int, j: int|
                        #![trigger res@[a].places@[i], res@[a].places@[j]]
                        0 <= a < res@.len() && 0 <= i < j < res@[a].places@.len()
                            ==> res@[a].places@[i] < res@[a].places@[j]
                    &&& forall|k: int|
                        #![trigger targets[k]]
                        0 <= k < targets.len() ==> exists|a: int|
                            #![trigger res@[a]]
                            0 <= a < res@.len() && res@[a].tree == targets[k]
                                && res@[a].places@.contains(k as usize)
                }
            }),
    {
        let ghost m = self@;
        let n: usize = self.active.len();
        let targets: Vec<usize> = match self.in_flight.remove(&id) {
            Some(targets) => targets,
            None => {
                assert(self@.in_flight =~= m.in_flight);
                return Vec::new();
            },
        };
        assert(m.in_flight[id] == targets@);
        assert(self@.in_flight =~= m.in_flight.remove(id));
        proof {
            lemma_released(m, id);
        }
        if failed || policies != targets.len() || values != targets.len() {
            let mut i: usize = 0;
            while i < n
                invariant
                    i <= n,
                    n == m.games(),
                    m.wf(),
                    targets@ == m.in_flight[id],
                    self@.in_flight == m.in_flight.remove(id),
                    self.next_batch == m.next_batch,
                    self.active@.len() == n,
                    self.abandoned@.len() == n,
                    self.blocked@.len() == n,
                    forall|j: int|
                        0 <= j < i ==> #[trigger] self.active@[j] == voided(m, id).active[j],
                    forall|j: int|
                        0 <= j < i ==> #[trigger] self.abandoned@[j] == voided(m, id).abandoned[j],
                    forall|j: int|
                        0 <= j < i ==> #[trigger] self.blocked@[j] == voided(m, id).blocked[j],
                    forall|j: int| i <= j < n ==> #[trigger] self.active@[j] == m.active[j],
                    forall|j: int| i <= j < n ==> #[trigger] self.abandoned@[j] == m.abandoned[j],
                    forall|j: int| i <= j < n ==> #[trigger] self.blocked@[j] == m.blocked[j],
                    self.order@ == m.order + taking_part(targets@, m.active, i as int),
                decreases n - i,
            {
                if is_targeted(&targets, i) {
                    if self.active[i] {
                        self.order.push(i);
                    }
                    self.abandoned.set(i, true);
                    self.active.set(i, false);
                    self.blocked.set(i, None);
                }
                i += 1;
            }
            assert(self@ =~= voided(m, id));
            proof {
                assert forall|k: int| #![trigger targets@[k]] 0 <= k < targets@.len() implies
                    self@.abandoned[targets@[k] as int] && !self@.active[targets@[k] as int] by {
                    assert(m.in_flight[id][k] < m.games());
                    assert(targeted(targets@, targets@[k] as int));
                }
            }
            return Vec::new();
        }
        let mut out: Vec<TreeShare> = Vec::new();
        let mut t: usize = 0;
        assert(share_list(out@) =~= shares(targets@, m.active, 0));
        while t < n
            invariant
                t <= n,
                n == m.games(),
                m.wf(),
                targets@ == m.in_flight[id],
                self@.in_flight == m.in_flight.remove(id),
                self.next_batch == m.next_batch,
                self.active@ == m.active,
                self.abandoned@ == m.abandoned,
                self.order@ == m.order,
                self.blocked@.len() == n,
                forall|j: int|
                    0 <= j < t ==> #[trigger] self.blocked@[j] == answered(m, id).blocked[j],
                forall|j: int| t <= j < n ==> #[trigger] self.blocked@[j] == m.blocked[j],
                share_list(out@) == shares(targets@, m.active, t as int),
            decreases n - t,
        {
            if self.active[t] {
                let own = places_of(&targets, t);
                proof {
                    lemma_places(targets@, t as int, targets@.len() as int);
                }
                if own.len() > 0 {
                    let ghost before = share_list(out@);
                    let share = TreeShare { tree: t, places: own };
                    out.push(share);
                    assert(share_list(out@) =~= before.push((t, share.places@)));
                    self.blocked.set(t, None);
                }
            }
            t += 1;
        }
        assert(self@ =~= answered(m, id));
        proof {
            assert forall|k: int| 0 <= k < targets@.len() implies #[trigger] targets@[k] < n
                && m.active[targets@[k] as int] by {
                assert(m.in_flight[id][k] < m.games());
                assert(m.blocked[m.in_flight[id][k] as int] == Some(id));
            }
            law_every_answer_goes_to_its_tree(targets@, m.active, m.games());
            let list = shares(targets@, m.active, m.games());
            assert forall|a: int| 0 <= a < out@.len() implies (#[trigger] out@[a]).tree == list[a].0
                && out@[a].places@ == list[a].1 by {
                assert(share_list(out@)[a] == (out@[a].tree, out@[a].places@));
            }
            assert(out@.len() == list.len());
            assert forall|k: int| #![trigger targets@[k]] 0 <= k < targets@.len() implies exists|
                a: int,
            |
                #![trigger out@[a]]
                0 <= a < out@.len() && out@[a].tree == targets@[k] && out@[a].places@.contains(
                    k as usize,
                ) by {
                let a = choose|a: int|
                    #![trigger list[a]]
                    0 <= a < list.len() && list[a].0 == targets@[k] && list[a].1.contains(
                        k as usize,
                    );
                assert(out@[a].tree == list[a].0);
            }
        }
        out
    }

    /// Whether game `i` was voided.
    pub fn is_abandoned(&self, i: usize) -> (res: bool)
        requires
            self@.wf(),
            i < self@.games(),
        ensures
            res == self@.abandoned[i as int],
    {
        self.abandoned[i]
    }

    /// What to do next.
    pub fn pace(&self) -> (res: Pace)
        requires
            self@.wf(),
        ensures
            res == pace_of(self@),
    {
        let n: usize = self.active.len();
        let mut any_active: bool = false;
        let mut any_free: bool = false;
        let mut i: usize = 0;
        while i < n
            invariant
                i <= n,
                self@.wf(),
                n == self@.games(),
                any_active == exists|j: int| 0 <= j < i && #[trigger] self@.active[j],
                any_free == exists|j: int| 0 <= j < i && #[trigger] self@.may_step(j),
            decreases n - i,
        {
            let active: bool = self.active[i];
            let free: bool = active && self.blocked[i].is_none();
            assert(active == self@.active[i as int]);
            assert(free == self@.may_step(i as int));
            any_active = any_active || active;
            any_free = any_free || free;
            i += 1;
        }
        if !any_active {
            Pace::Finished
        } else if any_free {
            Pace::Advance
        } else {
            Pace::Await
        }
    }

    /// How game `i` of a finished wave ends, where `base` games came before the wave and the game
    /// has `samples` samples.
    pub fn settle(&self, i: usize, base: usize, samples: usize) -> (res: Settlement)
        requires
            self@.wf(),
            i < self@.games(),
            base + i <= usize::MAX,
        ensures
            res == if self@.abandoned[i as int] || samples == 0 {
                Settlement::Void
            } else {
                Settlement::Record { player_a_is_red: (base + i) % 2 == 0 }
            },
            res is Void <==> self@.abandoned[i as int] || samples == 0,
            res matches Settlement::Record { player_a_is_red } ==> (player_a_is_red <==> (base + i)
                % 2 == 0),
    {
        if self.abandoned[i] || samples == 0 {
            Settlement::Void
        } else {
            Settlement::Record { player_a_is_red: (base + i) % 2 == 0 }
        }
    }

    /// What game `i` of a wave leaves, where `base` games came before the wave: a record of its
    /// steps, all of them full searches, and its result; nothing where the game was voided or has no
    /// steps.
    pub fn conclude(
        &self,
        i: usize,
        base: usize,
        steps: Vec<SearchStep>,
        winner: Option<i32>,
        health_diff_red: Option<F32Bits>,
        positions: Option<Vec<Vec<u8>>>,
    ) -> (res: GameOutcome)
        requires
            self@.wf(),
            i < self@.games(),
            base + i <= usize::MAX,
        ensures
            if self@.abandoned[i as int] || steps@.len() == 0 {
                is_void(res)
            } else {
                &&& res.episode is Some
                &&& is_final(
                    res.episode->Some_0,
                    all_full(steps@),
                    winner,
                    health_diff_red,
                    positions,
                )
                &&& forall|k: int|
                    0 <= k < steps@.len() ==> (
                    #[trigger] res.episode->Some_0.samples@[k]).is_full_search
                &&& forall|k: int|
                    #![trigger res.episode->Some_0.samples@[k]]
                    0 <= k < steps@.len() ==> {
                        let s = res.episode->Some_0.samples@[k];
                        &&& s.obs == steps@[k].obs
                        &&& s.policy == steps@[k].policy
                        &&& s.mcts_value == steps@[k].mcts_value
                        &&& s.completed_q == steps@[k].completed_q
                        &&& s.root_visits == steps@[k].root_visits
                        &&& s.mask == steps@[k].mask
                        &&& s.action == steps@[k].action
                    }
                &&& res.episode->Some_0.winner == winner
                &&& res.episode->Some_0.health_diff_red == health_diff_red
                &&& res.result == result_for_a(winner, (base + i) % 2 == 0)
                &&& res.moves == steps@.len()
                &&& !res.void
                &&& res.nnue_episode is None
            },
    {
        match self.settle(i, base, steps.len()) {
            Settlement::Void => void_outcome(),
            Settlement::Record { player_a_is_red } => {
                let episode = finalize_full_search(steps, winner, health_diff_red, positions);
                outcome_from_episode(episode, player_a_is_red)
            },
        }
    }

    /// The games in the order in which they ended; those that still go on follow.
    pub fn completion_order(&self) -> (res: Vec<usize>)
        requires
            self@.wf(),
        ensures
            res@ == ended_first(self@),
    {
        let n: usize = self.active.len();
        let mut out: Vec<usize> = Vec::new();
        out.extend_from_slice(self.order.as_slice());
        assert(out@ =~= self@.order);
        let mut i: usize = 0;
        while i < n
            invariant
                i <= n,
                n == self@.games(),
                self@.active == self.active@,
                out@ == self@.order + going_on(self@.active, i as int),
            decreases n - i,
        {
            if self.active[i] {
                out.push(i);
            }
            i += 1;
            assert(out@ =~= self@.order + going_on(self@.active, i as int));
        }
        out
    }
}

/// Which of the first `k` games still go on, in order.
pub open spec fn going_on(active: Seq<bool>, k: int) -> Seq<usize>
    decreases k,
{
    if k <= 0 {
        Seq::empty()
    } else if active[k - 1] {
        going_on(active, k - 1).push((k - 1) as usize)
    } else {
        going_on(active, k - 1)
    }
}

/// The games in the order in which they ended; those that still go on follow.
pub open spec fn ended_first(m: WaveModel) -> Seq<usize> {
    m.order + going_on(m.active, m.games())
}

proof fn lemma_going_on(active: Seq<bool>, k: int)
    requires
        0 <= k <= active.len(),
        k <= usize::MAX,
    ensures
        going_on(active, k).no_duplicates(),
        forall|j: int|
            0 <= j < going_on(active, k).len() ==> {
                let t = #[trigger] going_on(active, k)[j];
                t < k && active[t as int]
            },
        forall|i: int|
            0 <= i < k && #[trigger] active[i] ==> targeted(going_on(active, k), i),
    decreases k,
{
    if k > 0 {
        lemma_going_on(active, k - 1);
        let before = going_on(active, k - 1);
        let whole = going_on(active, k);
        assert forall|i: int| 0 <= i < k && #[trigger] active[i] implies targeted(whole, i) by {
            if i < k - 1 {
                assert(targeted(before, i));
                let j = choose|j: int| 0 <= j < before.len() && #[trigger] before[j] == i;
                assert(whole[j] == i);
            } else {
                assert(whole[before.len() as int] == i);
            }
        }
    }
}

/// Every game of a wave is listed exactly once in the order in which the games ended.
pub proof fn law_every_game_is_listed_once(m: WaveModel)
    requires
        m.wf(),
        m.games() <= usize::MAX,
    ensures
        ended_first(m).no_duplicates(),
        forall|k: int| 0 <= k < ended_first(m).len() ==> #[trigger] ended_first(m)[k] < m.games(),
        forall|i: int| 0 <= i < m.games() ==> #[trigger] targeted(ended_first(m), i),
{
    let rest = going_on(m.active, m.games());
    let whole = ended_first(m);
    lemma_going_on(m.active, m.games());
    assert forall|a: int, b: int| 0 <= a < b < whole.len() implies whole[a] != whole[b] by {
        if a < m.order.len() && b >= m.order.len() {
            let t = rest[b - m.order.len()];
            assert(m.active[t as int]);
            assert(!targeted(m.order, t as int));
            assert(m.order[a] != t);
        }
    }
    assert forall|k: int| 0 <= k < whole.len() implies #[trigger] whole[k] < m.games() by {
        if k >= m.order.len() {
            assert(rest[k - m.order.len()] < m.games());
        }
    }
    assert forall|i: int| 0 <= i < m.games() implies #[trigger] targeted(whole, i) by {
        lemma_listed_concat(m.order, rest, i);
        assert(m.active[i] <==> !targeted(m.order, i));
    }
}

/// What the driver of a wave does next.
pub open spec fn pace_of(m: WaveModel) -> Pace {
    if !(exists|i: int| 0 <= i < m.games() && #[trigger] m.active[i]) {
        Pace::Finished
    } else if exists|i: int| 0 <= i < m.games() && #[trigger] m.may_step(i) {
        Pace::Advance
    } else {
        Pace::Await
    }
}

proof fn lemma_places(targets: Seq<usize>, t: int, k: int)
    requires
        0 <= k <= targets.len(),
    ensures
        places(targets, t, k).len() > 0 <==> exists|j: int|
            0 <= j < k && #[trigger] targets[j] == t,
    decreases k,
{
    if k > 0 {
        lemma_places(targets, t, k - 1);
        if targets[k - 1] != t {
            assert forall|j: int| 0 <= j < k && #[trigger] targets[j] == t implies 0 <= j < k
                - 1 by {}
        }
    }
}

/// No wave can get stuck: where games go on and none of their trees may go on, a batch is away, so
/// waiting for an answer ends.
pub proof fn law_waiting_games_have_a_batch(m: WaveModel)
    requires
        m.wf(),
        pace_of(m) == Pace::Await,
    ensures
        exists|id: u64| m.in_flight.contains_key(id),
{
    let i = choose|i: int| 0 <= i < m.games() && #[trigger] m.active[i];
    assert(!m.may_step(i));
    assert(m.blocked[i] is Some);
    assert(m.in_flight.contains_key(m.blocked[i]->Some_0));
}

/// A tree never goes on before its leaves were evaluated: while a batch is away, no tree with a leaf
/// in it may go on.
pub proof fn law_no_step_while_away(m: WaveModel, id: u64, k: int)
    requires
        m.wf(),
        m.in_flight.contains_key(id),
        0 <= k < m.in_flight[id].len(),
    ensures
        m.in_flight[id][k] < m.games(),
        !m.may_step(m.in_flight[id][k] as int),
{
}

/// A tree has leaves in at most one batch that is away.
pub proof fn law_one_batch_per_tree(m: WaveModel, a: u64, b: u64, i: int)
    requires
        m.wf(),
        m.in_flight.contains_key(a),
        m.in_flight.contains_key(b),
        targeted(m.in_flight[a], i),
        targeted(m.in_flight[b], i),
    ensures
        a == b,
{
    let j = choose|j: int| 0 <= j < m.in_flight[a].len() && #[trigger] m.in_flight[a][j] == i;
    let k = choose|k: int| 0 <= k < m.in_flight[b].len() && #[trigger] m.in_flight[b][k] == i;
    assert(m.blocked[m.in_flight[a][j] as int] == Some(a));
    assert(m.blocked[m.in_flight[b][k] as int] == Some(b));
}

/// An answer releases every tree that waited for it, and no other: in a well-formed wave every
/// answered tree may go on, and every other tree is as it was.
pub proof fn law_answer_releases(m: WaveModel, id: u64, i: int)
    requires
        m.wf(),
        m.games() <= usize::MAX,
        m.in_flight.contains_key(id),
        0 <= i < m.games(),
    ensures
        targeted(m.in_flight[id], i) ==> answered(m, id).may_step(i),
        !targeted(m.in_flight[id], i) ==> answered(m, id).may_step(i) == m.may_step(i),
{
    lemma_released(m, id);
    assert(targeted(m.in_flight[id], i) <==> m.blocked[i] == Some(id));
}

/// A failure voids exactly the games that took part: they are over for good, and no other game
/// changes.
pub proof fn law_failure_voids(m: WaveModel, id: u64, i: int)
    requires
        m.wf(),
        m.in_flight.contains_key(id),
        0 <= i < m.games(),
    ensures
        targeted(m.in_flight[id], i) ==> voided(m, id).abandoned[i] && !voided(m, id).active[i],
        !targeted(m.in_flight[id], i) ==> voided(m, id).abandoned[i] == m.abandoned[i] && voided(
            m,
            id,
        ).active[i] == m.active[i] && voided(m, id).blocked[i] == m.blocked[i],
{
}

/// A failure always gets somewhere: at least one more game is over, so that no leaf is evaluated
/// again and again.
pub proof fn law_failure_ends_a_game(m: WaveModel, id: u64)
    requires
        m.wf(),
        m.games() <= usize::MAX,
        m.in_flight.contains_key(id),
    ensures
        voided(m, id).order.len() > m.order.len(),
{
    let targets = m.in_flight[id];
    let t = targets[0] as int;
    assert(m.in_flight[id][0] < m.games());
    assert(m.blocked[t] is Some);
    assert(m.active[t]);
    assert(targeted(targets, t));
    lemma_taking_part(targets, m.active, m.games());
    assert(targeted(taking_part(targets, m.active, m.games()), t));
}

/// The places of a tree's leaves are exactly those places, in order.
pub proof fn law_places_are_the_leaves(targets: Seq<usize>, t: int, k: int)
    requires
        0 <= k <= targets.len(),
        k <= usize::MAX,
    ensures
        forall|a: int, b: int|
            #![trigger places(targets, t, k)[a], places(targets, t, k)[b]]
            0 <= a < b < places(targets, t, k).len() ==> places(targets, t, k)[a] < places(
                targets,
                t,
                k,
            )[b],
        forall|a: int|
            #![trigger places(targets, t, k)[a]]
            0 <= a < places(targets, t, k).len() ==> places(targets, t, k)[a] < k
                && targets[places(targets, t, k)[a] as int] == t,
        forall|j: int|
            #![trigger targets[j]]
            0 <= j < k && targets[j] == t ==> places(targets, t, k).contains(j as usize),
    decreases k,
{
    if k > 0 {
        law_places_are_the_leaves(targets, t, k - 1);
        let before = places(targets, t, k - 1);
        let whole = places(targets, t, k);
        assert forall|j: int| #![trigger targets[j]] 0 <= j < k && targets[j] == t implies
            whole.contains(j as usize) by {
            if j < k - 1 {
                assert(before.contains(j as usize));
                let a = choose|a: int| 0 <= a < before.len() && before[a] == j as usize;
                assert(whole[a] == j as usize);
            } else {
                assert(whole[before.len() as int] == j as usize);
            }
        }
    }
}

proof fn lemma_shares_sound(targets: Seq<usize>, active: Seq<bool>, t: int)
    requires
        0 <= t <= usize::MAX,
        targets.len() <= usize::MAX,
    ensures
        ({
            let list = shares(targets, active, t);
            &&& forall|a: int, b: int|
                #![trigger list[a], list[b]]
                0 <= a < b < list.len() ==> list[a].0 < list[b].0
            &&& forall|a: int|
                #![trigger list[a]]
                0 <= a < list.len() ==> list[a].0 < t && active[list[a].0 as int] && list[a].1
                    == places(targets, list[a].0 as int, targets.len() as int)
        }),
    decreases t,
{
    if t > 0 {
        lemma_shares_sound(targets, active, t - 1);
        let before = shares(targets, active, t - 1);
        let list = shares(targets, active, t);
        assert forall|a: int| #![trigger list[a]] 0 <= a < list.len() implies list[a].0 < t
            && active[list[a].0 as int] && list[a].1 == places(
            targets,
            list[a].0 as int,
            targets.len() as int,
        ) by {
            if a < before.len() {
                assert(list[a] == before[a]);
            }
        }
        assert forall|a: int, b: int|
            #![trigger list[a], list[b]]
            0 <= a < b < list.len() implies list[a].0 < list[b].0 by {
            assert(list[a] == before[a]);
            if b < before.len() {
                assert(list[b] == before[b]);
            }
        }
    }
}

proof fn lemma_shares_complete(targets: Seq<usize>, active: Seq<bool>, t: int, i: int)
    requires
        0 <= i < t <= usize::MAX,
        active[i],
        places(targets, i, targets.len() as int).len() > 0,
    ensures
        exists|a: int|
            #![trigger shares(targets, active, t)[a]]
            0 <= a < shares(targets, active, t).len() && shares(targets, active, t)[a] == (
                i as usize,
                places(targets, i, targets.len() as int),
            ),
    decreases t,
{
    let list = shares(targets, active, t);
    let own = places(targets, i, targets.len() as int);
    if i < t - 1 {
        lemma_shares_complete(targets, active, t - 1, i);
        let before = shares(targets, active, t - 1);
        let a = choose|a: int|
            #![trigger before[a]]
            0 <= a < before.len() && before[a] == (i as usize, own);
        assert(list[a] == before[a]);
    } else {
        assert(list[list.len() - 1] == (i as usize, own));
    }
}

/// A complete answer goes to the trees whole: every place of the batch is in the share of the tree
/// whose leaf it is; every place in the share of a tree is one of its leaves; the places of a share
/// are in order; and no tree has two shares.
pub proof fn law_every_answer_goes_to_its_tree(targets: Seq<usize>, active: Seq<bool>, n: int)
    requires
        0 <= n <= usize::MAX,
        targets.len() <= usize::MAX,
        forall|k: int|
            0 <= k < targets.len() ==> #[trigger] targets[k] < n && active[targets[k] as int],
    ensures
        ({
            let list = shares(targets, active, n);
            &&& forall|a: int, b: int|
                #![trigger list[a], list[b]]
                0 <= a < b < list.len() ==> list[a].0 < list[b].0
            &&& forall|a: int, i: int|
                #![trigger list[a].1[i]]
                0 <= a < list.len() && 0 <= i < list[a].1.len() ==> {
                    &&& list[a].1[i] < targets.len()
                    &&& targets[list[a].1[i] as int] == list[a].0
                }
            &&& forall|a: int, i: int, j: int|
                #![trigger list[a].1[i], list[a].1[j]]
                0 <= a < list.len() && 0 <= i < j < list[a].1.len() ==> list[a].1[i] < list[a].1[j]
            &&& forall|k: int|
                #![trigger targets[k]]
                0 <= k < targets.len() ==> exists|a: int|
                    #![trigger list[a]]
                    0 <= a < list.len() && list[a].0 == targets[k] && list[a].1.contains(k as usize)
        }),
{
    let list = shares(targets, active, n);
    let len = targets.len() as int;
    lemma_shares_sound(targets, active, n);
    assert forall|a: int, i: int|
        #![trigger list[a].1[i]]
        0 <= a < list.len() && 0 <= i < list[a].1.len() implies {
        &&& list[a].1[i] < targets.len()
        &&& targets[list[a].1[i] as int] == list[a].0
    } by {
        law_places_are_the_leaves(targets, list[a].0 as int, len);
    }
    assert forall|a: int, i: int, j: int|
        #![trigger list[a].1[i], list[a].1[j]]
        0 <= a < list.len() && 0 <= i < j < list[a].1.len() implies list[a].1[i] < list[a].1[j] by {
        law_places_are_the_leaves(targets, list[a].0 as int, len);
    }
    assert forall|k: int| #![trigger targets[k]] 0 <= k < targets.len() implies exists|a: int|
        #![trigger list[a]]
        0 <= a < list.len() && list[a].0 == targets[k] && list[a].1.contains(k as usize) by {
        let t = targets[k] as int;
        law_places_are_the_leaves(targets, t, len);
        assert(places(targets, t, len).contains(k as usize));
        lemma_shares_complete(targets, active, n, t);
        let a = choose|a: int|
            #![trigger list[a]]
            0 <= a < list.len() && list[a] == (t as usize, places(targets, t, len));
        assert(list[a].0 == targets[k]);
    }
}

/// How many places the first `t` trees have among the first `k` leaves.
pub open spec fn places_in_all(targets: Seq<usize>, t: int, k: int) -> int
    decreases t,
{
    if t <= 0 {
        0
    } else {
        places_in_all(targets, t - 1, k) + places(targets, t - 1, k).len()
    }
}

proof fn lemma_one_more_place(targets: Seq<usize>, t: int, k: int)
    requires
        0 <= t,
        0 < k <= targets.len(),
    ensures
        places_in_all(targets, t, k) == places_in_all(targets, t, k - 1) + if targets[k - 1] < t {
            1int
        } else {
            0
        },
    decreases t,
{
    if t > 0 {
        lemma_one_more_place(targets, t - 1, k);
    }
}

/// The trees together have as many places as a batch has leaves.
pub proof fn law_no_answer_is_lost(targets: Seq<usize>, n: int, k: int)
    requires
        0 <= n,
        0 <= k <= targets.len(),
        forall|j: int| 0 <= j < targets.len() ==> #[trigger] targets[j] < n,
    ensures
        places_in_all(targets, n, k) == k,
    decreases k,
{
    if k > 0 {
        lemma_one_more_place(targets, n, k);
        law_no_answer_is_lost(targets, n, k - 1);
        assert(targets[k - 1] < n);
    } else {
        lemma_no_places(targets, n);
    }
}

proof fn lemma_no_places(targets: Seq<usize>, t: int)
    ensures
        places_in_all(targets, t, 0) == 0,
    decreases t,
{
    if t > 0 {
        lemma_no_places(targets, t - 1);
    }
}

proof fn lemma_repeated_filter(v: usize, n: nat, t: usize)
    ensures
        Seq::new(n, |j: int| v).filter(|x: usize| x == t).len() == if v == t {
            n
        } else {
            0
        },
    decreases n,
{
    reveal(Seq::filter);
    if n > 0 {
        let all = Seq::new(n, |j: int| v);
        lemma_repeated_filter(v, (n - 1) as nat, t);
        assert(all.drop_last() =~= Seq::new((n - 1) as nat, |j: int| v));
    }
}

/// A batch holds as many leaves of a tree as the tree asked for, where the tree may go on, and none
/// of any other tree; the leaves are in the order of the trees.
pub proof fn law_batch_holds_what_was_asked_for(m: WaveModel, counts: Seq<usize>, k: int, t: usize)
    requires
        0 <= k <= m.games() <= usize::MAX,
        counts.len() == m.games(),
    ensures
        pool(m, counts, k).filter(|x: usize| x == t).len() == if t < k && m.active[t as int]
            && m.blocked[t as int] is None {
            counts[t as int] as nat
        } else {
            0
        },
        forall|a: int, b: int|
            #![trigger pool(m, counts, k)[a], pool(m, counts, k)[b]]
            0 <= a < b < pool(m, counts, k).len() ==> pool(m, counts, k)[a] <= pool(
                m,
                counts,
                k,
            )[b],
    decreases k,
{
    let pred = |x: usize| x == t;
    if k > 0 {
        law_batch_holds_what_was_asked_for(m, counts, k - 1, t);
        lemma_pool(m, counts, k - 1);
        let before = pool(m, counts, k - 1);
        let own = if m.may_step(k - 1) {
            Seq::new(counts[k - 1] as nat, |j: int| (k - 1) as usize)
        } else {
            Seq::empty()
        };
        let whole = pool(m, counts, k);
        assert(whole == before + own);
        Seq::filter_distributes_over_add(before, own, pred);
        if m.may_step(k - 1) {
            lemma_repeated_filter((k - 1) as usize, counts[k - 1] as nat, t);
        } else {
            reveal(Seq::filter);
        }
        assert forall|a: int, b: int|
            #![trigger whole[a], whole[b]]
            0 <= a < b < whole.len() implies whole[a] <= whole[b] by {
            if b < before.len() {
                assert(whole[a] == before[a] && whole[b] == before[b]);
            } else if a < before.len() {
                assert(whole[a] == before[a]);
                assert(before[a] < k - 1);
            }
        }
    } else {
        reveal(Seq::filter);
    }
}

/// Sending a batch away makes exactly the trees wait for it that have leaves in it, and touches
/// nothing else.
pub proof fn law_submission_blocks_its_trees(m: WaveModel, counts: Seq<usize>, i: int)
    requires
        m.wf(),
        m.next_batch < u64::MAX,
        counts.len() == m.games(),
        0 <= i < m.games(),
    ensures
        ({
            let after = submitted(m, counts);
            let id = m.next_batch;
            &&& after.blocked.len() == m.blocked.len()
            &&& after.blocked[i] == Some(id) <==> m.active[i] && m.blocked[i] is None && counts[i]
                > 0
            &&& after.blocked[i] != Some(id) ==> after.blocked[i] == m.blocked[i]
            &&& after.active == m.active
            &&& after.abandoned == m.abandoned
            &&& after.order == m.order
            &&& after.next_batch == m.next_batch + 1
            &&& after.in_flight.contains_key(id)
            &&& forall|b: u64|
                #![trigger after.in_flight.contains_key(b)]
                b != id ==> after.in_flight.contains_key(b) == m.in_flight.contains_key(b)
                    && after.in_flight[b] == m.in_flight[b]
        }),
{
    if m.blocked[i] == Some(m.next_batch) {
        assert(m.in_flight.contains_key(m.next_batch));
    }
}

/// An answer ends no game, and takes its batch, and no other, off the list.
pub proof fn law_answer_ends_no_game(m: WaveModel, id: u64)
    ensures
        answered(m, id).active == m.active,
        answered(m, id).abandoned == m.abandoned,
        answered(m, id).order == m.order,
        answered(m, id).next_batch == m.next_batch,
        answered(m, id).in_flight == m.in_flight.remove(id),
        answered(m, id).blocked.len() == m.active.len(),
{
}

/// A failure takes its batch, and no other, off the list; the games that it ends are added to those
/// that were over before, in the order of their numbers, and each of them is one that went on and
/// took part.
pub proof fn law_failure_adds_its_games(m: WaveModel, id: u64)
    requires
        m.games() <= usize::MAX,
    ensures
        ({
            let after = voided(m, id);
            let n = m.order.len() as int;
            &&& after.next_batch == m.next_batch
            &&& after.in_flight == m.in_flight.remove(id)
            &&& n <= after.order.len()
            &&& after.order.take(n) == m.order
            &&& forall|a: int, b: int|
                #![trigger after.order[a], after.order[b]]
                n <= a < b < after.order.len() ==> after.order[a] < after.order[b]
            &&& forall|a: int|
                #![trigger after.order[a]]
                n <= a < after.order.len() ==> after.order[a] < m.games()
                    && m.active[after.order[a] as int] && m.in_flight[id].contains(after.order[a])
            &&& forall|i: int|
                #![trigger m.active[i]]
                0 <= i < m.games() && m.active[i] && m.in_flight[id].contains(i as usize)
                    ==> after.order.skip(n).contains(i as usize)
        }),
{
    let targets = m.in_flight[id];
    let after = voided(m, id);
    let n = m.order.len() as int;
    let new = taking_part(targets, m.active, m.games());
    lemma_taking_part(targets, m.active, m.games());
    lemma_taking_part_ascends(targets, m.active, m.games());
    assert(after.order.take(n) =~= m.order);
    assert(after.order.skip(n) =~= new);
    assert forall|a: int|
        #![trigger after.order[a]]
        n <= a < after.order.len() implies after.order[a] < m.games()
        && m.active[after.order[a] as int] && targets.contains(after.order[a]) by {
        let t = new[a - n];
        let k = choose|k: int| 0 <= k < targets.len() && #[trigger] targets[k] == t;
        assert(targets[k] == after.order[a]);
    }
    assert forall|a: int, b: int|
        #![trigger after.order[a], after.order[b]]
        n <= a < b < after.order.len() implies after.order[a] < after.order[b] by {
        assert(new[a - n] < new[b - n]);
    }
    assert forall|i: int|
        #![trigger m.active[i]]
        0 <= i < m.games() && m.active[i] && targets.contains(
            i as usize,
        ) implies after.order.skip(n).contains(i as usize) by {
        let k = choose|k: int| 0 <= k < targets.len() && targets[k] == i as usize;
        assert(targets[k] == i);
        assert(targeted(targets, i));
        let j = choose|j: int| 0 <= j < new.len() && #[trigger] new[j] == i;
        assert(new[j] == i as usize);
    }
}

proof fn lemma_taking_part_ascends(targets: Seq<usize>, active: Seq<bool>, k: int)
    requires
        0 <= k <= active.len(),
        k <= usize::MAX,
    ensures
        forall|a: int, b: int|
            #![trigger taking_part(targets, active, k)[a], taking_part(targets, active, k)[b]]
            0 <= a < b < taking_part(targets, active, k).len() ==> taking_part(
                targets,
                active,
                k,
            )[a] < taking_part(targets, active, k)[b],
    decreases k,
{
    if k > 0 {
        lemma_taking_part(targets, active, k - 1);
        lemma_taking_part_ascends(targets, active, k - 1);
    }
}

/// A wave starts with every game going on, none voided, none waiting, and no batch away.
pub proof fn law_wave_starts_free(n: nat, i: int)
    requires
        0 <= i < n,
    ensures
        started(n).active.len() == n,
        started(n).abandoned.len() == n,
        started(n).blocked.len() == n,
        started(n).active[i],
        !started(n).abandoned[i],
        started(n).blocked[i] is None,
        started(n).may_step(i),
        started(n).order.len() == 0,
        started(n).next_batch == 0,
        forall|id: u64| !#[trigger] started(n).in_flight.contains_key(id),
{
}

/// A tree may go on exactly where its game goes on and it waits for no batch; a wave goes on as long
/// as a game does, and waits only where no tree may go on.
pub proof fn law_pace_follows_the_trees(m: WaveModel)
    ensures
        forall|i: int|
            #![trigger m.may_step(i)]
            m.may_step(i) <==> m.active[i] && m.blocked[i] is None,
        pace_of(m) is Finished <==> forall|i: int| 0 <= i < m.active.len() ==> !#[trigger] m.active[i],
        pace_of(m) is Advance <==> exists|i: int|
            0 <= i < m.active.len() && #[trigger] m.active[i] && m.blocked[i] is None,
{
    if exists|i: int| 0 <= i < m.active.len() && #[trigger] m.active[i] && m.blocked[i] is None {
        let i = choose|i: int|
            0 <= i < m.active.len() && #[trigger] m.active[i] && m.blocked[i] is None;
        assert(m.may_step(i));
    }
    if exists|i: int| 0 <= i < m.games() && #[trigger] m.may_step(i) {
        let i = choose|i: int| 0 <= i < m.games() && #[trigger] m.may_step(i);
        assert(m.active[i]);
    }
}

/// The order of the games begins with those that are over, as they ended; the others follow in the
/// order of their numbers.
pub proof fn law_ended_games_come_first(m: WaveModel)
    requires
        m.games() <= usize::MAX,
    ensures
        ({
            let n = m.order.len() as int;
            let all = ended_first(m);
            &&& n <= all.len()
            &&& all.take(n) == m.order
            &&& forall|a: int|
                #![trigger all[a]]
                n <= a < all.len() ==> all[a] < m.games() && m.active[all[a] as int]
            &&& forall|a: int, b: int|
                #![trigger all[a], all[b]]
                n <= a < b < all.len() ==> all[a] < all[b]
        }),
{
    let n = m.order.len() as int;
    let all = ended_first(m);
    let rest = going_on(m.active, m.games());
    lemma_going_on(m.active, m.games());
    lemma_going_on_ascends(m.active, m.games());
    assert(all.take(n) =~= m.order);
    assert forall|a: int| #![trigger all[a]] n <= a < all.len() implies all[a] < m.games()
        && m.active[all[a] as int] by {
        assert(rest[a - n] < m.games());
    }
    assert forall|a: int, b: int|
        #![trigger all[a], all[b]]
        n <= a < b < all.len() implies all[a] < all[b] by {
        assert(rest[a - n] < rest[b - n]);
    }
}

proof fn lemma_going_on_ascends(active: Seq<bool>, k: int)
    requires
        0 <= k <= active.len(),
        k <= usize::MAX,
    ensures
        forall|a: int, b: int|
            #![trigger going_on(active, k)[a], going_on(active, k)[b]]
            0 <= a < b < going_on(active, k).len() ==> going_on(active, k)[a] < going_on(
                active,
                k,
            )[b],
    decreases k,
{
    if k > 0 {
        lemma_going_on(active, k - 1);
        lemma_going_on_ascends(active, k - 1);
    }
}

/// A wave plays at least one game, no more than are left and no more than can be played at once, and
/// as many as either allows.
pub proof fn law_wave_is_as_wide_as_it_may_be(concurrency: int, n_games: int, played: int)
    requires
        0 <= concurrency,
        played < n_games,
    ensures
        ({
            let size = wave_games(concurrency, n_games, played);
            &&& 1 <= size <= n_games - played
            &&& size <= concurrency || (concurrency == 0 && size == 1)
            &&& size == n_games - played || size == concurrency || (concurrency == 0 && size == 1)
        }),
{
}

/// How many threads evaluate batches.
pub open spec fn workers_for(concurrency: int) -> int {
    if concurrency == 0 {
        1
    } else if concurrency < 8 {
        concurrency
    } else {
        8
    }
}

/// Batches are evaluated by one thread at least and eight at most, and by as many as games are played
/// at once wherever that lies between.
pub proof fn law_workers_are_one_to_eight(concurrency: int)
    requires
        0 <= concurrency,
    ensures
        1 <= workers_for(concurrency) <= 8,
        1 <= concurrency <= 8 ==> workers_for(concurrency) == concurrency,
        concurrency > 8 ==> workers_for(concurrency) == 8,
        workers_for(concurrency) <= workers_for(concurrency + 1),
{
}

/// How many threads evaluate batches.
pub fn eval_workers(concurrency: usize) -> (res: usize)
    ensures
        res == if concurrency == 0 {
            1
        } else if concurrency < 8 {
            concurrency as int
        } else {
            8
        },
        res == workers_for(concurrency as int),
{
    if concurrency == 0 {
        1
    } else if concurrency < 8 {
        concurrency
    } else {
        8
    }
}

/// What a thread that evaluates batches does next.
#[derive(Clone, Copy, Debug, PartialEq, Eq, Structural)]
pub enum WorkerStep {
    /// End, whatever is still queued.
    Exit,
    /// Evaluate the oldest batch in the queue.
    Evaluate,
    /// Wait until something is queued.
    Sleep,
}

/// What a thread that evaluates batches does next.
pub fn worker_step(stopped: bool, queued: usize) -> (res: WorkerStep)
    ensures
        res == if stopped {
            WorkerStep::Exit
        } else if queued > 0 {
            WorkerStep::Evaluate
        } else {
            WorkerStep::Sleep
        },
        res is Exit <==> stopped,
        res is Evaluate <==> !stopped && queued > 0,
{
    if stopped {
        WorkerStep::Exit
    } else if queued > 0 {
        WorkerStep::Evaluate
    } else {
        WorkerStep::Sleep
    }
}

/// How many games the next wave plays, after `played` of `n_games` games.
pub open spec fn wave_games(concurrency: int, n_games: int, played: int) -> int {
    let width = if concurrency < 1 {
        1
    } else {
        concurrency
    };
    if width < n_games - played {
        width
    } else {
        n_games - played
    }
}

/// How many games the next wave plays, after `played` of `n_games` games.
pub fn wave_size(concurrency: usize, n_games: usize, played: usize) -> (res: usize)
    requires
        played < n_games,
    ensures
        res == wave_games(concurrency as int, n_games as int, played as int),
        1 <= res <= n_games - played,
        concurrency > 0 ==> res <= concurrency,
        concurrency <= 1 ==> res == 1,
        res < n_games - played && concurrency > 0 ==> res == concurrency,
{
    let width: usize = if concurrency < 1 {
        1
    } else {
        concurrency
    };
    let left: usize = n_games - played;
    if width < left {
        width
    } else {
        left
    }
}

/// The first game and the number of games of every wave that follows `played` games.
pub open spec fn waves(concurrency: int, n_games: int, played: int) -> Seq<(int, int)>
    decreases n_games - played,
{
    if played >= n_games {
        Seq::empty()
    } else {
        let size = wave_games(concurrency, n_games, played);
        seq![(played, size)] + waves(concurrency, n_games, played + size)
    }
}

/// The waves play every game exactly once: each of the games that are left is in exactly one wave.
pub proof fn law_waves_cover(concurrency: int, n_games: int, played: int, game: int)
    requires
        played <= game < n_games,
    ensures
        ({
            let ws = waves(concurrency, n_games, played);
            exists|w: int|
                0 <= w < ws.len() && #[trigger] ws[w].0 <= game < ws[w].0 + ws[w].1 && forall|
                    v: int,
                |
                    0 <= v < ws.len() && v != w ==> !(#[trigger] ws[v].0 <= game < ws[v].0
                        + ws[v].1)
        }),
    decreases n_games - played,
{
    let size = wave_games(concurrency, n_games, played);
    let ws = waves(concurrency, n_games, played);
    let rest = waves(concurrency, n_games, played + size);
    lemma_waves_follow(concurrency, n_games, played + size);
    assert forall|v: int| 1 <= v < ws.len() implies #[trigger] ws[v] == rest[v - 1] by {}
    if game < played + size {
        assert(ws[0].0 <= game < ws[0].0 + ws[0].1);
        assert forall|v: int| 0 <= v < ws.len() && v != 0 implies !(#[trigger] ws[v].0 <= game
            < ws[v].0 + ws[v].1) by {
            assert(ws[v] == rest[v - 1]);
            assert(rest[v - 1].0 >= played + size);
        }
    } else {
        law_waves_cover(concurrency, n_games, played + size, game);
        let w = choose|w: int|
            0 <= w < rest.len() && #[trigger] rest[w].0 <= game < rest[w].0 + rest[w].1 && forall|
                v: int,
            |
                0 <= v < rest.len() && v != w ==> !(#[trigger] rest[v].0 <= game < rest[v].0
                    + rest[v].1);
        assert(ws[w + 1] == rest[w]);
        assert(ws[w + 1].0 <= game < ws[w + 1].0 + ws[w + 1].1);
        assert forall|v: int| 0 <= v < ws.len() && v != w + 1 implies !(#[trigger] ws[v].0 <= game
            < ws[v].0 + ws[v].1) by {
            if v > 0 {
                assert(ws[v] == rest[v - 1]);
            }
        }
    }
}

proof fn lemma_waves_follow(concurrency: int, n_games: int, played: int)
    ensures
        forall|w: int|
            0 <= w < waves(concurrency, n_games, played).len() ==> (#[trigger] waves(
                concurrency,
                n_games,
                played,
            )[w]).0 >= played,
    decreases n_games - played,
{
    if played < n_games {
        let size = wave_games(concurrency, n_games, played);
        let rest = waves(concurrency, n_games, played + size);
        lemma_waves_follow(concurrency, n_games, played + size);
        assert forall|w: int| 0 <= w < waves(concurrency, n_games, played).len() implies (
        #[trigger] waves(concurrency, n_games, played)[w]).0 >= played by {
            if w > 0 {
                assert(waves(concurrency, n_games, played)[w] == rest[w - 1]);
            }
        }
    }
}

/// The seed of a game: fixed seeds count up from `seed`, going round at the end.
pub open spec fn seed_of(seed: u64, index: int) -> u64 {
    ((seed + index) % 0x1_0000_0000_0000_0000) as u64
}

/// The first game has the fixed seed itself, every further game the next one, and two games never
/// share a seed.
pub proof fn law_seeds_count_up(seed: u64, i: u64, j: u64)
    ensures
        seed_of(seed, 0) == seed,
        seed_of(seed, i + 1) == seed_of(seed, i as int) + 1 || (seed_of(seed, i as int) == u64::MAX
            && seed_of(seed, i + 1) == 0),
        i != j ==> seed_of(seed, i as int) != seed_of(seed, j as int),
{
}

/// The seed of a game: fixed seeds count up from `seed`, going round at the end.
pub fn game_seed(seed: Option<u64>, index: u64) -> (res: Option<u64>)
    ensures
        seed matches Some(s) ==> res == Some(seed_of(s, index as int)),
        seed is None <==> res is None,
        res == match seed {
            Some(s) => Some(((s + index) % 0x1_0000_0000_0000_0000) as u64),
            None => None,
        },
{
    match seed {
        Some(s) => {
            let next: u64 = s.wrapping_add(index);
            Some(next)
        },
        None => None,
    }
}

} // verus!
