//! The decisions of the integrator: which of the hits along a ray is seen,
//! whether anything stands between a point and a light, and in which order
//! the rays that a picture element gives rise to are followed.

use vstd::prelude::*;
use crate::material::MaterialKind;

verus! {

/// Whether hit `i` is the one that is seen: none lies nearer along the ray,
/// and none that is as near comes before it in the list.
///
/// `hits` holds one entry for each shape in the order in which the shapes
/// are tried: `None` where the ray misses the shape, and else the ray
/// parameter of the hit, as an integer that grows with the parameter.
pub open spec fn is_closest(hits: Seq<Option<u64>>, i: int) -> bool {
    &&& 0 <= i < hits.len()
    &&& hits[i] is Some
    &&& forall|j: int| 0 <= j < hits.len() && hits[j] is Some ==> hits[i]->0 <= (#[trigger] hits[j])->0
    &&& forall|j: int| 0 <= j < i && hits[j] is Some ==> hits[i]->0 < (#[trigger] hits[j])->0
}

/// The number that the 64 bits `bits` write when the highest bit is read as
/// a sign and the other 63 as a magnitude. Two ray parameters that are
/// numbers compare as these readings of their bit patterns do.
pub open spec fn sign_magnitude(bits: u64) -> int {
    if bits >= 0x8000_0000_0000_0000 {
        0x8000_0000_0000_0000 - bits
    } else {
        bits as int
    }
}

/// The integer by which a ray parameter with the bit pattern `bits` is
/// ordered among the hits.
pub open spec fn key_of(bits: u64) -> int {
    0x8000_0000_0000_0000 + sign_magnitude(bits)
}

/// The integer by which a ray parameter with the bit pattern `bits` is
/// ordered among the hits: it grows as the parameter grows, and the two
/// zeros get the same.
pub fn order_key(bits: u64) -> (key: u64)
    ensures
        key == key_of(bits),
{
    if bits >= 0x8000_0000_0000_0000 {
        0x8000_0000_0000_0000 - (bits - 0x8000_0000_0000_0000)
    } else {
        0x8000_0000_0000_0000 + bits
    }
}

/// Whether the ray meets any shape.
pub open spec fn some_hit(hits: Seq<Option<u64>>) -> bool {
    exists|j: int| 0 <= j < hits.len() && (#[trigger] hits[j]) is Some
}

/// The place of the hit that is seen: the nearest, and of several that are
/// equally near the one that was tried first. `None` when the ray misses
/// every shape.
pub fn closest_hit(hits: &Vec<Option<u64>>) -> (r: Option<usize>)
    ensures
        match r {
            Some(i) => is_closest(hits@, i as int),
            None => !some_hit(hits@),
        },
{
    let mut best: Option<usize> = None;
    let mut t_min: u64 = 0;
    let mut k: usize = 0;
    while k < hits.len()
        invariant
            k <= hits@.len(),
            match best {
                Some(i) => i < k && hits@[i as int] == Some(t_min) && is_closest(
                    hits@.take(k as int),
                    i as int,
                ),
                None => !some_hit(hits@.take(k as int)),
            },
        decreases hits@.len() - k,
    {
        let ghost before = hits@.take(k as int);
        let ghost now = hits@.take(k + 1);
        assert(forall|j: int| 0 <= j < k ==> before[j] == now[j]);
        match hits[k] {
            Some(t) => {
                let nearer: bool = match best {
                    Some(_) => t < t_min,
                    None => true,
                };
                if nearer {
                    assert(now[k as int] is Some);
                    assert forall|j: int| 0 <= j < k && now[j] is Some implies t < (
                    #[trigger] now[j])->0 by {
                        assert(before[j] is Some);
                    }
                    best = Some(k);
                    t_min = t;
                }
            },
            None => {},
        }
        k = k + 1;
    }
    assert(hits@.take(hits@.len() as int) =~= hits@);
    best
}

/// Tells whether the ray meets any shape.
pub fn any_hit(hits: &Vec<Option<u64>>) -> (r: bool)
    ensures
        r == some_hit(hits@),
{
    let mut k: usize = 0;
    while k < hits.len()
        invariant
            k <= hits@.len(),
            forall|j: int| 0 <= j < k ==> hits@[j] is None,
        decreases hits@.len() - k,
    {
        if hits[k].is_some() {
            return true;
        }
        k = k + 1;
    }
    false
}

/// Order keys compare as the parameters they are made of do: one key is
/// below another exactly when its parameter is, and two keys are the same
/// exactly when the bit patterns are, or both write a zero.
pub proof fn order_keys_keep_the_order(a: u64, b: u64)
    ensures
        0 < key_of(a) <= u64::MAX,
        key_of(a) < key_of(b) <==> sign_magnitude(a) < sign_magnitude(b),
        key_of(a) == key_of(b) <==> (a == b || (sign_magnitude(a) == 0 && sign_magnitude(b) == 0)),
        sign_magnitude(a) == 0 <==> (a == 0 || a == 0x8000_0000_0000_0000),
{
}

/// At most one hit is the one that is seen.
pub proof fn closest_hit_is_unique(hits: Seq<Option<u64>>, i: int, j: int)
    requires
        is_closest(hits, i),
        is_closest(hits, j),
    ensures
        i == j,
{
}

/// The ray meets a shape exactly when one of the hits is the one that is
/// seen.
pub proof fn a_hit_is_seen_when_there_is_one(hits: Seq<Option<u64>>)
    ensures
        some_hit(hits) <==> exists|i: int| is_closest(hits, i),
    decreases hits.len(),
{
    if some_hit(hits) {
        let n = hits.len() as int;
        let before = hits.drop_last();
        a_hit_is_seen_when_there_is_one(before);
        if some_hit(before) {
            let i = choose|i: int| is_closest(before, i);
            assert(forall|j: int| 0 <= j < n - 1 ==> before[j] == hits[j]);
            if hits[n - 1] is Some && hits[n - 1]->0 < before[i]->0 {
                assert(is_closest(hits, n - 1));
            } else {
                assert(is_closest(hits, i));
            }
        } else {
            let j = choose|j: int| 0 <= j < hits.len() && (#[trigger] hits[j]) is Some;
            if j < n - 1 {
                assert(before[j] is Some);
            }
            assert forall|m: int| 0 <= m < n - 1 implies !((#[trigger] hits[m]) is Some) by {
                assert(before[m] == hits[m]);
            }
            assert(is_closest(hits, n - 1));
        }
    }
}

/// Whether a ray at `depth` is past the last level that is traced: its
/// colour is the background, whatever the scene holds. A limit below zero
/// lets no ray be traced.
pub open spec fn depth_limit_reached(depth: int, max_recursion_depth: int) -> bool {
    depth >= max_recursion_depth
}

/// Tells whether a ray at `depth` is past the last level that is traced.
pub fn at_depth_limit(depth: usize, max_recursion_depth: i32) -> (r: bool)
    ensures
        r == depth_limit_reached(depth as int, max_recursion_depth as int),
{
    max_recursion_depth < 0 || depth as u64 >= max_recursion_depth as u64
}

/// One of the two rays that a hit may send on.
#[derive(Debug, Clone, Copy, PartialEq, Eq, Structural)]
pub enum Branch {
    Reflection,
    Refraction,
}

/// What was found for the ray that is being followed.
#[derive(Debug, Clone, Copy, PartialEq, Eq, Structural)]
pub enum Node {
    /// The ray is past the depth limit or meets no shape: its colour is the
    /// background.
    Background,
    /// The ray meets a shape with a material of kind `kind`; `reflects` and
    /// `refracts` say whether the material gave a reflected and a refracted
    /// ray for this hit.
    Hit { kind: MaterialKind, reflects: bool, refracts: bool },
}

/// Where the integrator goes after a ray has been looked at.
#[derive(Debug, Clone, Copy, PartialEq, Eq, Structural)]
pub enum Next {
    /// The hit sends rays on: the named one is followed next, one level
    /// deeper, and the hit waits for its colour.
    Descend(Branch),
    /// The ray sends nothing on, so its colour is complete. It is handed up
    /// through `levels` waiting hits, each of which is complete with it, to a
    /// hit whose refracted ray is followed next.
    Sibling { levels: usize },
    /// The ray sends nothing on. Its colour is handed up through `levels`
    /// waiting hits, the last of which is the hit of the first ray: the walk
    /// is over.
    Finished { levels: usize },
}

impl Node {
    /// Whether the reflected ray of the node is followed: the node is a hit,
    /// its kind of material calls for the reflection, and there is a
    /// reflected ray.
    pub open spec fn sends_reflection(self) -> bool {
        match self {
            Node::Background => false,
            Node::Hit { kind, reflects, refracts } => kind.shading().reflection && reflects,
        }
    }

    /// Whether the refracted ray of the node is followed.
    pub open spec fn sends_refraction(self) -> bool {
        match self {
            Node::Background => false,
            Node::Hit { kind, reflects, refracts } => kind.shading().refraction && refracts,
        }
    }
}

/// The state of a walk through the rays that one first ray gives rise to.
pub struct WalkState {
    /// The number of levels that are traced.
    pub limit: nat,
    /// For each hit that waits for the colour of a ray it sent on, the
    /// outermost first: whether its refracted ray is still to be followed.
    pub pending: Seq<bool>,
    /// Whether the first ray has its colour.
    pub finished: bool,
}

/// The number of waiting hits at the end of `pending` that have no ray left
/// to follow.
pub open spec fn settled(pending: Seq<bool>) -> nat
    decreases pending.len(),
{
    if pending.len() == 0 || pending.last() {
        0
    } else {
        1 + settled(pending.drop_last())
    }
}

impl WalkState {
    /// The state before the first ray is looked at.
    pub open spec fn start(max_recursion_depth: int) -> WalkState {
        WalkState {
            limit: if max_recursion_depth > 0 {
                max_recursion_depth as nat
            } else {
                0
            },
            pending: Seq::empty(),
            finished: false,
        }
    }

    /// No more hits wait than levels are traced, and none waits when the
    /// walk is over.
    pub open spec fn well_formed(self) -> bool {
        &&& self.pending.len() <= self.limit
        &&& self.finished ==> self.pending.len() == 0
    }

    /// The depth of the ray that is looked at next.
    pub open spec fn depth(self) -> nat {
        self.pending.len()
    }

    /// Whether the ray that is looked at next sends a ray on, if `node` is
    /// found for it.
    pub open spec fn descends(self, node: Node) -> bool {
        !self.finished && self.depth() < self.limit && (node.sends_reflection()
            || node.sends_refraction())
    }

    /// Where the integrator goes when `node` is found for the ray that is
    /// looked at.
    pub open spec fn next(self, node: Node) -> Next {
        if self.finished {
            Next::Finished { levels: 0 }
        } else if self.descends(node) {
            if node.sends_reflection() {
                Next::Descend(Branch::Reflection)
            } else {
                Next::Descend(Branch::Refraction)
            }
        } else {
            let levels = settled(self.pending);
            if levels == self.pending.len() {
                Next::Finished { levels: levels as usize }
            } else {
                Next::Sibling { levels: levels as usize }
            }
        }
    }

    /// The state after `node` was found for the ray that is looked at.
    pub open spec fn after(self, node: Node) -> WalkState {
        if self.finished {
            self
        } else if self.descends(node) {
            WalkState {
                pending: self.pending.push(node.sends_reflection() && node.sends_refraction()),
                ..self
            }
        } else {
            let levels = settled(self.pending);
            if levels == self.pending.len() {
                WalkState { pending: Seq::empty(), finished: true, ..self }
            } else {
                let rest = self.pending.take(self.pending.len() - levels);
                WalkState { pending: rest.update(rest.len() - 1, false), ..self }
            }
        }
    }
}

/// A walk through the rays that one first ray gives rise to: the control of
/// the integrator, without the colours.
///
/// The caller looks at one ray at a time, beginning with the first ray at
/// depth 0, tells the walk what it found, and is told which ray is next.
pub struct RayWalk {
    limit: usize,
    pending: Vec<bool>,
    finished: bool,
}

impl View for RayWalk {
    type V = WalkState;

    closed spec fn view(&self) -> WalkState {
        WalkState { limit: self.limit as nat, pending: self.pending@, finished: self.finished }
    }
}

impl RayWalk {
    /// A walk that is about to look at the first ray.
    pub fn new(max_recursion_depth: i32) -> (walk: RayWalk)
        ensures
            walk@ == WalkState::start(max_recursion_depth as int),
            walk@.well_formed(),
    {
        let limit: usize = if max_recursion_depth > 0 {
            max_recursion_depth as usize
        } else {
            0
        };
        RayWalk { limit, pending: Vec::new(), finished: false }
    }

    /// The depth of the ray that is looked at next.
    pub fn depth(&self) -> (d: usize)
        ensures
            d == self@.depth(),
    {
        self.pending.len()
    }

    /// Tells whether the ray that is looked at next is past the depth limit,
    /// so that its colour is the background and no shape need be tried.
    pub fn at_limit(&self) -> (r: bool)
        ensures
            r == (self@.depth() >= self@.limit),
    {
        self.pending.len() >= self.limit
    }

    /// Tells whether the first ray has its colour.
    pub fn is_finished(&self) -> (r: bool)
        ensures
            r == self@.finished,
    {
        self.finished
    }

    /// Takes what was found for the ray that is looked at, and tells where
    /// to go next.
    pub fn advance(&mut self, node: Node) -> (next: Next)
        requires
            old(self)@.well_formed(),
        ensures
            final(self)@ == old(self)@.after(node),
            next == old(self)@.next(node),
            final(self)@.well_formed(),
    {
        if self.finished {
            return Next::Finished { levels: 0 };
        }
        let (reflection, refraction) = match node {
            Node::Background => (false, false),
            Node::Hit { kind, reflects, refracts } => {
                let shading = kind.contributions();
                (shading.reflection && reflects, shading.refraction && refracts)
            },
        };
        if self.pending.len() < self.limit && (reflection || refraction) {
            if reflection {
                self.pending.push(refraction);
                Next::Descend(Branch::Reflection)
            } else {
                self.pending.push(false);
                Next::Descend(Branch::Refraction)
            }
        } else {
            let mut levels: usize = 0;
            while self.pending.len() > 0 && !self.pending[self.pending.len() - 1]
                invariant
                    self.limit == old(self).limit,
                    !self.finished,
                    levels + self.pending@.len() == old(self).pending@.len() <= usize::MAX,
                    self.pending@ == old(self).pending@.take(self.pending@.len() as int),
                    settled(old(self).pending@) == levels + settled(self.pending@),
                decreases self.pending@.len(),
            {
                let ghost before = self.pending@;
                self.pending.pop();
                assert(self.pending@ =~= before.drop_last());
                levels = levels + 1;
            }
            if self.pending.len() == 0 {
                self.finished = true;
                assert(self.pending@ =~= Seq::<bool>::empty());
                Next::Finished { levels }
            } else {
                let top: usize = self.pending.len() - 1;
                self.pending.set(top, false);
                Next::Sibling { levels }
            }
        }
    }
}

/// The greatest number of rays that a ray at `depth` can stand for: itself,
/// and below the depth limit what its reflected and its refracted ray stand
/// for.
pub open spec fn rays_below(limit: nat, depth: nat) -> nat
    decreases limit - depth,
{
    if depth >= limit {
        1
    } else {
        1 + 2 * rays_below(limit, depth + 1)
    }
}

/// The greatest number of rays that the refracted rays of the waiting hits
/// can stand for.
pub open spec fn rays_waiting(limit: nat, pending: Seq<bool>) -> nat
    decreases pending.len(),
{
    if pending.len() == 0 {
        0
    } else if pending.last() {
        rays_waiting(limit, pending.drop_last()) + rays_below(limit, pending.len())
    } else {
        rays_waiting(limit, pending.drop_last())
    }
}

impl WalkState {
    /// The greatest number of rays that are still to be looked at.
    pub open spec fn rays_left(self) -> nat {
        if self.finished {
            0
        } else {
            rays_below(self.limit, self.depth()) + rays_waiting(self.limit, self.pending)
        }
    }
}

/// Waiting hits with no ray left to follow stand for no ray, and the hit
/// above them, if there is one, has its refracted ray to follow.
proof fn lemma_settled(limit: nat, pending: Seq<bool>)
    ensures
        settled(pending) <= pending.len(),
        rays_waiting(limit, pending.take(pending.len() - settled(pending))) == rays_waiting(
            limit,
            pending,
        ),
        settled(pending) < pending.len() ==> pending[pending.len() - settled(pending) - 1],
    decreases pending.len(),
{
    if pending.len() == 0 || pending.last() {
        assert(pending.take(pending.len() as int) =~= pending);
    } else {
        let shorter = pending.drop_last();
        lemma_settled(limit, shorter);
        assert(shorter.take(shorter.len() - settled(shorter)) =~= pending.take(
            pending.len() - settled(pending),
        ));
    }
}

/// Every step keeps the walk well formed: at no time do more hits wait than
/// levels are traced.
pub proof fn walk_stays_within_the_depth_limit(state: WalkState, node: Node)
    requires
        state.well_formed(),
    ensures
        state.after(node).well_formed(),
        state.after(node).limit == state.limit,
{
    lemma_settled(state.limit, state.pending);
}

/// A ray at the depth limit sends no ray on, whatever is found for it: its
/// colour stands as it is handed in.
pub proof fn no_ray_is_sent_past_the_depth_limit(state: WalkState, node: Node)
    requires
        state.depth() >= state.limit,
    ensures
        !(state.next(node) is Descend),
        state.after(node).depth() <= state.depth(),
{
    lemma_settled(state.limit, state.pending);
}

/// Of the two rays of a hit the reflected one is followed first, and the
/// refracted one as soon as the reflected one and all that it stands for
/// have their colours.
pub proof fn reflection_is_followed_before_refraction(state: WalkState, node: Node)
    requires
        state.descends(node),
    ensures
        node.sends_reflection() ==> state.next(node) == Next::Descend(Branch::Reflection),
        !node.sends_reflection() ==> state.next(node) == Next::Descend(Branch::Refraction),
        state.after(node).pending.drop_last() == state.pending,
        state.after(node).pending.last() == (node.sends_reflection() && node.sends_refraction()),
{
    assert(state.after(node).pending.drop_last() =~= state.pending);
}

/// Every step of a walk that is not over takes at least one ray off the
/// number of rays that are still to be looked at, so a walk is over after
/// `rays_below(limit, 0)` steps at the latest.
pub proof fn every_step_uses_up_a_ray(state: WalkState, node: Node)
    requires
        state.well_formed(),
        !state.finished,
    ensures
        state.after(node).rays_left() < state.rays_left(),
        WalkState::start(state.limit as int).rays_left() == rays_below(state.limit, 0),
{
    let limit = state.limit;
    let pending = state.pending;
    if state.descends(node) {
        let grown = state.after(node).pending;
        assert(grown.drop_last() =~= pending);
    } else {
        lemma_settled(limit, pending);
        let levels = settled(pending);
        if levels < pending.len() {
            let rest = pending.take(pending.len() - levels);
            let eased = rest.update(rest.len() - 1, false);
            assert(eased.drop_last() =~= rest.drop_last());
            assert(rest.last());
        }
    }
}

} // verus!
