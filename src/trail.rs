//! The follower trail: a chain of nodes that repeats the player's pose with a
//! lag of one frame per link while the cosmetic mode is on.
use vstd::prelude::*;

verus! {

/// Number of nodes in the trail: the head and the followers behind it.
pub const TRAIL_LENGTH: usize = 7;

/// The chain after one frame. With the cosmetic mode off every node rests at
/// `hidden`. With it on, the head takes the player's pose and every other
/// node the pose that its parent had before this frame.
pub open spec fn follow<T>(nodes: Seq<T>, cosmetic_mode: bool, player: T, hidden: T) -> Seq<T> {
    Seq::new(
        nodes.len(),
        |k: int|
            if !cosmetic_mode {
                hidden
            } else if k == 0 {
                player
            } else {
                nodes[k - 1]
            },
    )
}

/// A chain of poses, the head first; node `k > 0` follows node `k - 1`.
pub struct Trail<T> {
    nodes: Vec<T>,
}

impl<T> View for Trail<T> {
    type V = Seq<T>;

    closed spec fn view(&self) -> Seq<T> {
        self.nodes@
    }
}

impl<T: Copy> Trail<T> {
    /// A trail of `len` nodes, all resting at `hidden`.
    pub fn new(len: usize, hidden: T) -> (r: Trail<T>)
        ensures
            r@ == Seq::new(len as nat, |k: int| hidden),
    {
        let mut nodes: Vec<T> = Vec::new();
        let mut i: usize = 0;
        while i < len
            invariant
                i <= len,
                nodes@ == Seq::new(i as nat, |k: int| hidden),
            decreases len - i,
        {
            nodes.push(hidden);
            i = i + 1;
            assert(nodes@ =~= Seq::new(i as nat, |k: int| hidden));
        }
        Trail { nodes }
    }

    /// Number of nodes.
    pub fn len(&self) -> (r: usize)
        ensures
            r == self@.len(),
    {
        self.nodes.len()
    }

    /// The pose of node `k`.
    pub fn node(&self, k: usize) -> (r: T)
        requires
            k < self@.len(),
        ensures
            r == self@[k as int],
    {
        self.nodes[k]
    }

    /// The poses of all nodes, the head first.
    pub fn nodes(&self) -> (r: Vec<T>)
        ensures
            r@ == self@,
    {
        let mut r: Vec<T> = Vec::new();
        let mut i: usize = 0;
        while i < self.nodes.len()
            invariant
                i <= self.nodes@.len(),
                r@ == self.nodes@.take(i as int),
            decreases self.nodes@.len() - i,
        {
            r.push(self.nodes[i]);
            i = i + 1;
            assert(r@ =~= self.nodes@.take(i as int));
        }
        assert(self.nodes@.take(i as int) =~= self.nodes@);
        r
    }

    /// One frame of the trail. The new poses are all computed from the poses
    /// before this frame, so that each link lags its parent by exactly one
    /// frame: with the cosmetic mode on, the head takes `player` and node
    /// `k > 0` takes what node `k - 1` held before the call; with it off,
    /// every node is sent to `hidden`.
    pub fn step(&mut self, cosmetic_mode: bool, player: T, hidden: T)
        ensures
            final(self)@ == follow(old(self)@, cosmetic_mode, player, hidden),
            final(self)@.len() == old(self)@.len(),
            cosmetic_mode && old(self)@.len() > 0 ==> final(self)@[0] == player,
            cosmetic_mode ==> forall|k: int|
                0 < k < old(self)@.len() ==> #[trigger] final(self)@[k] == old(self)@[k - 1],
            !cosmetic_mode ==> forall|k: int|
                0 <= k < old(self)@.len() ==> #[trigger] final(self)@[k] == hidden,
    {
        let ghost before = self.nodes@;
        let ghost target = follow(before, cosmetic_mode, player, hidden);
        let n = self.nodes.len();
        let mut next: Vec<T> = Vec::new();
        let mut k: usize = 0;
        while k < n
            invariant
                n == before.len(),
                self.nodes@ == before,
                target == follow(before, cosmetic_mode, player, hidden),
                k <= n,
                next@ == target.take(k as int),
            decreases n - k,
        {
            let pose = if !cosmetic_mode {
                hidden
            } else if k == 0 {
                player
            } else {
                self.nodes[k - 1]
            };
            next.push(pose);
            k = k + 1;
            assert(next@ =~= target.take(k as int));
        }
        assert(target.take(n as int) =~= target);
        self.nodes = next;
    }
}

} // verus!
