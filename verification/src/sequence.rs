//! Walks along sequences of memories, and the place of a memory in one.

use crate::text::{decimal, join, joined, same, show_u64, views};
use vstd::prelude::*;

verus! {

/// A direction along a sequence: to earlier memories, or to later ones.
#[derive(Clone, Copy, Debug, PartialEq, Eq, Structural)]
pub enum Heading {
    Up,
    Down,
}

/// What a walk asks for next.
#[derive(Clone, Copy, Debug, PartialEq, Eq, Structural)]
pub enum WalkRequest {
    /// Fetch the memories right before or right after one.
    Fetch { engram_id: u64, heading: Heading },
    /// Nothing is to be fetched at this place.
    MoveOn,
    Finish,
}

/// A walk under way, level by level.
#[derive(Debug)]
pub struct WalkRun {
    pub start: u64,
    pub depth: usize,
    /// The memories reached, in order, without the start.
    pub chain: Vec<u64>,
    pub heading: Heading,
    /// The walk turns upwards once it is done downwards.
    pub turns: bool,
    /// How many levels are left in this heading, this one counted.
    pub levels_left: usize,
    /// The memories of this level.
    pub level: Vec<u64>,
    pub at: usize,
    /// The memories that this level reached.
    pub reached: Vec<u64>,
}

/// The chain after the neighbours of a memory: those that are new, in order.
pub open spec fn with_new(start: u64, chain: Seq<u64>, neighbors: Seq<u64>) -> Seq<u64>
    decreases neighbors.len(),
{
    if neighbors.len() == 0 {
        chain
    } else {
        let before = with_new(start, chain, neighbors.drop_last());
        let id = neighbors.last();
        if id == start || before.contains(id) {
            before
        } else {
            before.push(id)
        }
    }
}

impl WalkRun {
    /// No memory is reached twice, and the start never.
    pub open spec fn valid(&self) -> bool {
        &&& self.at <= self.level@.len()
        &&& self.chain@.no_duplicates()
        &&& !self.chain@.contains(self.start)
    }

    /// The request at hand.
    pub open spec fn asked(&self) -> WalkRequest {
        if self.levels_left > 0 && self.at < self.level@.len() {
            WalkRequest::Fetch { engram_id: self.level@[self.at as int], heading: self.heading }
        } else if self.levels_left > 0 || self.turns {
            WalkRequest::MoveOn
        } else {
            WalkRequest::Finish
        }
    }

    /// The walk is at its beginning.
    pub open spec fn begun(&self) -> bool {
        &&& self.chain@.len() == 0
        &&& self.turns ==> self.heading == Heading::Down
        &&& self.levels_left == self.depth
        &&& self.level@ == seq![self.start]
        &&& self.at == 0
        &&& self.reached@.len() == 0
    }

    /// Begins a walk of at most `depth` levels. `dir` is `up`, `both`, or else
    /// down; both goes down first.
    pub fn begin(start: u64, depth: usize, dir: &str) -> (r: WalkRun)
        ensures
            r.valid(),
            r.begun(),
            r.start == start,
            r.depth == depth,
            r.heading == if dir@ == "up"@ {
                Heading::Up
            } else {
                Heading::Down
            },
            r.turns == (dir@ == "both"@),
    {
        proof {
            reveal_strlit("up");
            reveal_strlit("both");
            assert("up"@.len() != "both"@.len());
        }
        let mut level: Vec<u64> = Vec::new();
        level.push(start);
        let heading = if same(dir, "up") {
            Heading::Up
        } else {
            Heading::Down
        };
        WalkRun {
            start,
            depth,
            chain: Vec::new(),
            heading,
            turns: same(dir, "both"),
            levels_left: depth,
            level,
            at: 0,
            reached: Vec::new(),
        }
    }

    /// What to do next.
    pub fn request(&self) -> (r: WalkRequest)
        requires
            self.valid(),
        ensures
            r == self.asked(),
    {
        if self.levels_left > 0 && self.at < self.level.len() {
            WalkRequest::Fetch { engram_id: self.level[self.at], heading: self.heading }
        } else if self.levels_left > 0 || self.turns {
            WalkRequest::MoveOn
        } else {
            WalkRequest::Finish
        }
    }

    fn knows(&self, id: u64) -> (r: bool)
        ensures
            r == (id == self.start || self.chain@.contains(id)),
    {
        if id == self.start {
            return true;
        }
        let mut i: usize = 0;
        while i < self.chain.len()
            invariant
                i <= self.chain@.len(),
                forall|j: int| 0 <= j < i ==> self.chain@[j] != id,
            decreases self.chain@.len() - i,
        {
            if self.chain[i] == id {
                return true;
            }
            i += 1;
        }
        false
    }

    /// `next` is this walk with the neighbours of the memory at hand.
    pub open spec fn arrived(&self, neighbors: Seq<u64>, next: WalkRun) -> bool {
        &&& next.start == self.start
        &&& next.depth == self.depth
        &&& next.heading == self.heading
        &&& next.turns == self.turns
        &&& next.levels_left == self.levels_left
        &&& next.level == self.level
        &&& next.at == self.at + 1
        &&& next.chain@ == with_new(self.start, self.chain@, neighbors)
        &&& next.reached@ == self.reached@ + next.chain@.skip(self.chain@.len() as int)
    }

    /// Takes the neighbours of the memory at hand. New ones join the chain and
    /// the next level.
    pub fn arrive(self, neighbors: &Vec<u64>) -> (r: WalkRun)
        requires
            self.valid(),
            self.asked() is Fetch,
        ensures
            r.valid(),
            self.arrived(neighbors@, r),
    {
        assert(self.level@.len() == self.level.len());
        let ghost before = self.chain@;
        let ghost before_reached = self.reached@;
        let mut next = self;
        let mut i: usize = 0;
        assert(next.reached@ =~= before_reached + next.chain@.skip(before.len() as int));
        while i < neighbors.len()
            invariant
                i <= neighbors@.len(),
                next.valid(),
                next.start == self.start,
                next.depth == self.depth,
                next.heading == self.heading,
                next.turns == self.turns,
                next.levels_left == self.levels_left,
                next.level == self.level,
                next.at == self.at,
                before == self.chain@,
                next.chain@ == with_new(self.start, before, neighbors@.take(i as int)),
                next.chain@.len() >= before.len(),
                next.reached@ == before_reached + next.chain@.skip(before.len() as int),
            decreases neighbors@.len() - i,
        {
            let id: u64 = neighbors[i];
            let ghost chain = next.chain@;
            proof {
                assert(neighbors@.take(i + 1).drop_last() =~= neighbors@.take(i as int));
                assert(neighbors@.take(i + 1).last() == id);
            }
            if !next.knows(id) {
                next.chain.push(id);
                next.reached.push(id);
                proof {
                    assert(next.chain@.no_duplicates()) by {
                        assert forall|a: int, b: int|
                            0 <= a < next.chain@.len() && 0 <= b < next.chain@.len() && a
                                != b implies next.chain@[a] != next.chain@[b] by {
                            if a < chain.len() {
                                assert(chain.contains(chain[a]));
                            }
                            if b < chain.len() {
                                assert(chain.contains(chain[b]));
                            }
                        }
                    }
                    assert(!next.chain@.contains(self.start)) by {
                        if next.chain@.contains(self.start) {
                            let k = next.chain@.index_of(self.start);
                            if k < chain.len() {
                                assert(chain[k] == self.start);
                            }
                        }
                    }
                    assert(next.reached@ =~= before_reached + next.chain@.skip(
                        before.len() as int,
                    ));
                }
            }
            i += 1;
        }
        assert(neighbors@.take(i as int) =~= neighbors@);
        next.at = next.at + 1;
        next
    }

    /// `next` is this walk on its next level, or turned.
    pub open spec fn moved(&self, next: WalkRun) -> bool {
        &&& next.start == self.start
        &&& next.depth == self.depth
        &&& next.chain == self.chain
        &&& next.at == 0
        &&& next.reached@.len() == 0
        &&& if self.levels_left > 0 {
            next.heading == self.heading && next.turns == self.turns && next.level == self.reached
                && next.levels_left == if self.reached@.len() == 0 {
                0
            } else {
                self.levels_left - 1
            }
        } else {
            next.heading == Heading::Up && !next.turns && next.level@ == seq![self.start]
                && next.levels_left == self.depth
        }
    }

    /// Goes on to the next level, or turns. A level that reached nothing is the
    /// last in its heading.
    pub fn move_on(self) -> (r: WalkRun)
        requires
            self.valid(),
            self.asked() == WalkRequest::MoveOn,
        ensures
            r.valid(),
            self.moved(r),
    {
        let mut next = self;
        next.at = 0;
        if next.levels_left > 0 {
            next.levels_left = if next.reached.len() == 0 {
                0
            } else {
                next.levels_left - 1
            };
            next.level = next.reached;
            next.reached = Vec::new();
        } else {
            let mut level: Vec<u64> = Vec::new();
            level.push(next.start);
            next.level = level;
            next.reached = Vec::new();
            next.heading = Heading::Up;
            next.turns = false;
            next.levels_left = next.depth;
        }
        next
    }
}

/// A walk never reaches a memory twice, nor the one it started from.
pub proof fn walk_reaches_each_once(run: WalkRun, a: int, b: int)
    requires
        run.valid(),
        0 <= a < b < run.chain@.len(),
    ensures
        run.chain@[a] != run.chain@[b],
        run.chain@[a] != run.start,
{
    assert(run.chain@.contains(run.chain@[a]));
}

/// `id` is reached from `start` within so many steps, each from a memory to one of
/// its neighbours, without a step to a memory to be avoided.
pub open spec fn reaches(
    near: spec_fn(u64) -> Seq<u64>,
    start: u64,
    avoid: Seq<u64>,
    id: u64,
    steps: nat,
) -> bool
    decreases steps,
{
    if steps == 0 {
        id == start
    } else {
        reaches(near, start, avoid, id, (steps - 1) as nat) || (!avoid.contains(id)
            && exists|m: u64|
            reaches(near, start, avoid, m, (steps - 1) as nat) && #[trigger] near(m).contains(id))
    }
}

/// One step of a walk among memories whose neighbours are `near`.
pub open spec fn walks(
    near: spec_fn(Heading) -> spec_fn(u64) -> Seq<u64>,
    run: WalkRun,
    next: WalkRun,
) -> bool {
    match run.asked() {
        WalkRequest::Fetch { engram_id, heading } => run.arrived(near(heading)(engram_id), next),
        WalkRequest::MoveOn => run.moved(next),
        WalkRequest::Finish => false,
    }
}

/// The states of a walk from its beginning on, among memories whose neighbours are
/// `near`.
pub open spec fn is_walk(
    near: spec_fn(Heading) -> spec_fn(u64) -> Seq<u64>,
    runs: Seq<WalkRun>,
) -> bool {
    &&& runs.len() > 0
    &&& runs[0].begun()
    &&& forall|i: int| 0 <= i < runs.len() ==> (#[trigger] runs[i]).valid()
    &&& forall|i: int, j: int|
        0 <= i && j == i + 1 && j < runs.len() ==> walks(near, #[trigger] runs[i], #[trigger] runs[j])
}

proof fn lemma_with_new(start: u64, chain: Seq<u64>, neighbors: Seq<u64>, id: u64)
    ensures
        with_new(start, chain, neighbors).contains(id) <==> chain.contains(id) || (neighbors.contains(
            id,
        ) && id != start),
        chain.len() <= with_new(start, chain, neighbors).len(),
        with_new(start, chain, neighbors).take(chain.len() as int) == chain,
    decreases neighbors.len(),
{
    if neighbors.len() > 0 {
        let fewer = neighbors.drop_last();
        let last = neighbors.last();
        let before = with_new(start, chain, fewer);
        let after = with_new(start, chain, neighbors);
        lemma_with_new(start, chain, fewer, id);
        if neighbors.contains(id) {
            let k = choose|k: int| 0 <= k < neighbors.len() && neighbors[k] == id;
            if k < fewer.len() {
                assert(fewer[k] == id);
            }
        }
        if fewer.contains(id) {
            let k = choose|k: int| 0 <= k < fewer.len() && fewer[k] == id;
            assert(neighbors[k] == id);
        }
        if id == last {
            assert(neighbors[neighbors.len() - 1] == id);
        }
        if after.len() > before.len() {
            if before.contains(id) {
                let k = choose|k: int| 0 <= k < before.len() && before[k] == id;
                assert(after[k] == id);
            }
            if after.contains(id) {
                let k = choose|k: int| 0 <= k < after.len() && after[k] == id;
                if k < before.len() {
                    assert(before[k] == id);
                }
            }
            assert(after[before.len() as int] == last);
        }
        assert(after.take(chain.len() as int) =~= before.take(chain.len() as int));
    } else {
        assert(chain.take(chain.len() as int) =~= chain);
    }
}

/// The walk has reached `id` in this heading; it entered the heading with `avoid`.
spec fn known(run: WalkRun, avoid: Seq<u64>, id: u64) -> bool {
    id == run.start || (run.chain@.contains(id) && !avoid.contains(id))
}

/// `id` is a neighbour of a memory of this level before the one at hand.
spec fn touched(near: spec_fn(u64) -> Seq<u64>, run: WalkRun, id: u64) -> bool {
    exists|j: int| 0 <= j < run.at && near(#[trigger] run.level@[j]).contains(id)
}

/// Where a walk stands that has `d` levels of a heading behind it.
spec fn tracks(near: spec_fn(u64) -> Seq<u64>, run: WalkRun, avoid: Seq<u64>, d: nat) -> bool {
    &&& forall|id: u64| #[trigger]
        known(run, avoid, id) <==> reaches(near, run.start, avoid, id, d) || (touched(near, run, id)
            && !avoid.contains(id))
    &&& forall|id: u64| #[trigger]
        run.level@.contains(id) <==> reaches(near, run.start, avoid, id, d) && (d == 0 || !reaches(
            near,
            run.start,
            avoid,
            id,
            (d - 1) as nat,
        ))
    &&& forall|id: u64| #[trigger]
        run.reached@.contains(id) <==> known(run, avoid, id) && !reaches(
            near,
            run.start,
            avoid,
            id,
            d,
        )
}

/// Where a walk stands in its heading.
spec fn follows(near: spec_fn(u64) -> Seq<u64>, run: WalkRun, avoid: Seq<u64>) -> bool {
    &&& run.levels_left <= run.depth
    &&& !avoid.contains(run.start)
    &&& forall|id: u64| #[trigger] avoid.contains(id) ==> run.chain@.contains(id)
    &&& if run.levels_left > 0 {
        tracks(near, run, avoid, (run.depth - run.levels_left) as nat)
    } else {
        forall|id: u64| #[trigger]
            known(run, avoid, id) <==> reaches(near, run.start, avoid, id, run.depth as nat)
    }
}

proof fn lemma_arrive(
    near: spec_fn(u64) -> Seq<u64>,
    run: WalkRun,
    avoid: Seq<u64>,
    next: WalkRun,
)
    requires
        run.valid(),
        next.valid(),
        follows(near, run, avoid),
        run.levels_left > 0,
        run.at < run.level@.len(),
        run.arrived(near(run.level@[run.at as int]), next),
    ensures
        follows(near, next, avoid),
{
    let d = (run.depth - run.levels_left) as nat;
    let neighbors = near(run.level@[run.at as int]);
    let fresh = next.chain@.skip(run.chain@.len() as int);
    assert forall|id: u64| #[trigger] avoid.contains(id) implies next.chain@.contains(id) by {
        lemma_with_new(run.start, run.chain@, neighbors, id);
    }
    assert forall|id: u64| #[trigger]
        known(next, avoid, id) <==> reaches(near, next.start, avoid, id, d) || (touched(
            near,
            next,
            id,
        ) && !avoid.contains(id)) by {
        lemma_with_new(run.start, run.chain@, neighbors, id);
        assert(known(run, avoid, id) <==> reaches(near, run.start, avoid, id, d) || (touched(
            near,
            run,
            id,
        ) && !avoid.contains(id)));
        assert(touched(near, next, id) <==> touched(near, run, id) || neighbors.contains(id)) by {
            if touched(near, run, id) {
                let j = choose|j: int|
                    0 <= j < run.at && near(#[trigger] run.level@[j]).contains(id);
                assert(near(next.level@[j]).contains(id));
            }
            if neighbors.contains(id) {
                assert(near(next.level@[run.at as int]).contains(id));
            }
            if touched(near, next, id) {
                let j = choose|j: int|
                    0 <= j < next.at && near(#[trigger] next.level@[j]).contains(id);
                if j < run.at {
                    assert(near(run.level@[j]).contains(id));
                }
            }
        }
        if id == run.start {
            lemma_start_reached(near, run.start, avoid, d);
        }
    }
    assert forall|id: u64| #[trigger]
        next.reached@.contains(id) <==> known(next, avoid, id) && !reaches(
            near,
            next.start,
            avoid,
            id,
            d,
        ) by {
        lemma_with_new(run.start, run.chain@, neighbors, id);
        lemma_start_reached(near, run.start, avoid, d);
        assert(known(run, avoid, id) <==> reaches(near, run.start, avoid, id, d) || (touched(
            near,
            run,
            id,
        ) && !avoid.contains(id)));
        assert(run.reached@.contains(id) <==> known(run, avoid, id) && !reaches(
            near,
            run.start,
            avoid,
            id,
            d,
        ));
        lemma_fresh(run.chain@, next.chain@, id);
        lemma_contains_both(run.reached@, fresh, id);
    }
}

proof fn lemma_fresh(before: Seq<u64>, after: Seq<u64>, id: u64)
    requires
        before.len() <= after.len(),
        after.take(before.len() as int) == before,
        after.no_duplicates(),
    ensures
        after.skip(before.len() as int).contains(id) <==> after.contains(id) && !before.contains(id),
{
    let n = before.len() as int;
    let fresh = after.skip(n);
    if fresh.contains(id) {
        let k = choose|k: int| 0 <= k < fresh.len() && fresh[k] == id;
        assert(after[n + k] == id);
        if before.contains(id) {
            let h = choose|h: int| 0 <= h < before.len() && before[h] == id;
            assert(after.take(n)[h] == after[h]);
        }
    }
    if after.contains(id) && !before.contains(id) {
        let k = choose|k: int| 0 <= k < after.len() && after[k] == id;
        if k < n {
            assert(after.take(n)[k] == id);
            assert(before[k] == id);
        } else {
            assert(fresh[k - n] == id);
        }
    }
}

proof fn lemma_contains_both(a: Seq<u64>, b: Seq<u64>, id: u64)
    ensures
        (a + b).contains(id) <==> a.contains(id) || b.contains(id),
{
    let both = a + b;
    if a.contains(id) {
        let k = choose|k: int| 0 <= k < a.len() && a[k] == id;
        assert(both[k] == id);
    }
    if b.contains(id) {
        let k = choose|k: int| 0 <= k < b.len() && b[k] == id;
        assert(both[a.len() + k] == id);
    }
    if both.contains(id) {
        let k = choose|k: int| 0 <= k < both.len() && both[k] == id;
        if k < a.len() {
            assert(a[k] == id);
        } else {
            assert(b[k - a.len()] == id);
        }
    }
}

proof fn lemma_start_reached(
    near: spec_fn(u64) -> Seq<u64>,
    start: u64,
    avoid: Seq<u64>,
    steps: nat,
)
    ensures
        reaches(near, start, avoid, start, steps),
    decreases steps,
{
    if steps > 0 {
        lemma_start_reached(near, start, avoid, (steps - 1) as nat);
    }
}

proof fn lemma_no_further(
    near: spec_fn(u64) -> Seq<u64>,
    start: u64,
    avoid: Seq<u64>,
    d: nat,
    steps: nat,
)
    requires
        d <= steps,
        forall|id: u64| #[trigger]
            reaches(near, start, avoid, id, (d + 1) as nat) ==> reaches(near, start, avoid, id, d),
    ensures
        forall|id: u64| #[trigger]
            reaches(near, start, avoid, id, steps) <==> reaches(near, start, avoid, id, d),
    decreases steps - d,
{
    if d < steps {
        let fewer = (steps - 1) as nat;
        lemma_no_further(near, start, avoid, d, fewer);
        assert forall|id: u64| #[trigger]
            reaches(near, start, avoid, id, steps) <==> reaches(near, start, avoid, id, d) by {
            assert(reaches(near, start, avoid, id, fewer) <==> reaches(near, start, avoid, id, d));
            if reaches(near, start, avoid, id, steps) && !reaches(near, start, avoid, id, fewer) {
                let m = choose|m: u64|
                    reaches(near, start, avoid, m, fewer) && #[trigger] near(m).contains(id);
                assert(reaches(near, start, avoid, m, d));
                assert(reaches(near, start, avoid, id, (d + 1) as nat));
            }
        }
    }
}

/// The end of a level: what is known is what one more step reaches.
proof fn lemma_level_done(
    near: spec_fn(u64) -> Seq<u64>,
    run: WalkRun,
    avoid: Seq<u64>,
    d: nat,
    id: u64,
)
    requires
        tracks(near, run, avoid, d),
        !avoid.contains(run.start),
        run.at == run.level@.len(),
    ensures
        known(run, avoid, id) <==> reaches(near, run.start, avoid, id, (d + 1) as nat),
{
    let start = run.start;
    assert(known(run, avoid, id) <==> reaches(near, start, avoid, id, d) || (touched(near, run, id)
        && !avoid.contains(id)));
    if touched(near, run, id) && !avoid.contains(id) {
        let j = choose|j: int| 0 <= j < run.at && near(#[trigger] run.level@[j]).contains(id);
        let m = run.level@[j];
        assert(run.level@.contains(m));
        assert(reaches(near, start, avoid, m, d) && near(m).contains(id));
    }
    if reaches(near, start, avoid, id, (d + 1) as nat) && !reaches(near, start, avoid, id, d) {
        let m = choose|m: u64|
            reaches(near, start, avoid, m, d) && #[trigger] near(m).contains(id);
        if d > 0 && reaches(near, start, avoid, m, (d - 1) as nat) {
            assert(near(m).contains(id));
            assert(reaches(near, start, avoid, id, d));
        } else {
            assert(run.level@.contains(m));
            let j = choose|j: int| 0 <= j < run.level@.len() && run.level@[j] == m;
            assert(near(run.level@[j]).contains(id));
            assert(touched(near, run, id));
        }
    }
}

proof fn lemma_move(
    near: spec_fn(u64) -> Seq<u64>,
    run: WalkRun,
    avoid: Seq<u64>,
    next: WalkRun,
)
    requires
        run.valid(),
        next.valid(),
        follows(near, run, avoid),
        run.levels_left > 0,
        run.at == run.level@.len(),
        run.moved(next),
    ensures
        follows(near, next, avoid),
{
    let start = run.start;
    let d = (run.depth - run.levels_left) as nat;
    let e = (d + 1) as nat;
    assert forall|id: u64| #[trigger]
        known(next, avoid, id) <==> reaches(near, start, avoid, id, e) by {
        lemma_level_done(near, run, avoid, d, id);
    }
    if next.levels_left > 0 {
        assert forall|id: u64| #[trigger]
            next.level@.contains(id) <==> reaches(near, start, avoid, id, e) && !reaches(
                near,
                start,
                avoid,
                id,
                d,
            ) by {
            assert(run.reached@.contains(id) <==> known(run, avoid, id) && !reaches(
                near,
                start,
                avoid,
                id,
                d,
            ));
            assert(known(next, avoid, id) <==> reaches(near, start, avoid, id, e));
        }
        assert(e == next.depth - next.levels_left);
        assert forall|id: u64| #[trigger]
            known(next, avoid, id) <==> reaches(near, start, avoid, id, e) || (touched(
                near,
                next,
                id,
            ) && !avoid.contains(id)) by {
        }
        assert forall|id: u64| #[trigger]
            next.reached@.contains(id) <==> known(next, avoid, id) && !reaches(
                near,
                start,
                avoid,
                id,
                e,
            ) by {
        }
    } else if run.reached@.len() == 0 {
        assert forall|id: u64| #[trigger] reaches(near, start, avoid, id, e) implies reaches(
            near,
            start,
            avoid,
            id,
            d,
        ) by {
            assert(known(next, avoid, id));
            assert(!run.reached@.contains(id));
        }
        lemma_no_further(near, start, avoid, d, run.depth as nat);
        lemma_no_further(near, start, avoid, d, e);
        assert forall|id: u64| #[trigger]
            known(next, avoid, id) <==> reaches(near, start, avoid, id, run.depth as nat) by {
            assert(reaches(near, start, avoid, id, e) <==> reaches(near, start, avoid, id, d));
        }
    }
}

/// The beginning of a heading, which the walk enters with the memories of `avoid`.
proof fn lemma_enter(near: spec_fn(u64) -> Seq<u64>, run: WalkRun, avoid: Seq<u64>)
    requires
        run.valid(),
        run.levels_left == run.depth,
        run.level@ == seq![run.start],
        run.at == 0,
        run.reached@.len() == 0,
        forall|id: u64| #[trigger] run.chain@.contains(id) <==> avoid.contains(id),
    ensures
        follows(near, run, avoid),
{
    assert forall|id: u64| #[trigger] run.level@.contains(id) <==> reaches(
        near,
        run.start,
        avoid,
        id,
        0,
    ) by {
        assert(run.level@[0] == run.start);
    }
    assert(!avoid.contains(run.start)) by {
        assert(!run.chain@.contains(run.start));
    }
    assert forall|id: u64| #[trigger] avoid.contains(id) implies run.chain@.contains(id) by {
        assert(run.chain@.contains(id) <==> avoid.contains(id));
    }
}

proof fn lemma_one_way(
    near: spec_fn(Heading) -> spec_fn(u64) -> Seq<u64>,
    runs: Seq<WalkRun>,
    i: int,
)
    requires
        is_walk(near, runs),
        !runs[0].turns,
        0 <= i < runs.len(),
    ensures
        runs[i].start == runs[0].start,
        runs[i].depth == runs[0].depth,
        runs[i].heading == runs[0].heading,
        !runs[i].turns,
        follows(near(runs[0].heading), runs[i], Seq::empty()),
    decreases i,
{
    let here = near(runs[0].heading);
    if i == 0 {
        assert(runs[0].valid());
        lemma_enter(here, runs[0], Seq::empty());
    } else {
        lemma_one_way(near, runs, i - 1);
        let run = runs[i - 1];
        let next = runs[i];
        assert(walks(near, run, next));
        assert(run.valid() && next.valid());
        if run.asked() is Fetch {
            lemma_arrive(here, run, Seq::empty(), next);
        } else {
            lemma_move(here, run, Seq::empty(), next);
        }
    }
}

/// A finished walk one way of depth N holds exactly the memories that are reached
/// within N steps that way, but for the one it started from.
pub proof fn walks_hold_what_is_near(
    near: spec_fn(Heading) -> spec_fn(u64) -> Seq<u64>,
    runs: Seq<WalkRun>,
    id: u64,
)
    requires
        is_walk(near, runs),
        !runs[0].turns,
        runs.last().asked() is Finish,
    ensures
        runs.last().chain@.contains(id) <==> id != runs[0].start && reaches(
            near(runs[0].heading),
            runs[0].start,
            Seq::empty(),
            id,
            runs[0].depth as nat,
        ),
{
    let last = runs.last();
    lemma_one_way(near, runs, runs.len() - 1);
    assert(last.valid());
    assert(known(last, Seq::empty(), id) <==> reaches(
        near(runs[0].heading),
        runs[0].start,
        Seq::empty(),
        id,
        runs[0].depth as nat,
    ));
}

/// `below` are the memories that are reached downwards, but for the start.
pub open spec fn is_below(
    near: spec_fn(Heading) -> spec_fn(u64) -> Seq<u64>,
    start: u64,
    depth: nat,
    below: Seq<u64>,
) -> bool {
    forall|id: u64| #[trigger]
        below.contains(id) <==> id != start && reaches(
            near(Heading::Down),
            start,
            Seq::empty(),
            id,
            depth,
        )
}

proof fn lemma_both_ways(
    near: spec_fn(Heading) -> spec_fn(u64) -> Seq<u64>,
    runs: Seq<WalkRun>,
    below: Seq<u64>,
    i: int,
)
    requires
        is_walk(near, runs),
        runs[0].turns,
        is_below(near, runs[0].start, runs[0].depth as nat, below),
        0 <= i < runs.len(),
    ensures
        runs[i].start == runs[0].start,
        runs[i].depth == runs[0].depth,
        if runs[i].turns {
            runs[i].heading == Heading::Down && follows(
                near(Heading::Down),
                runs[i],
                Seq::empty(),
            )
        } else {
            runs[i].heading == Heading::Up && follows(near(Heading::Up), runs[i], below)
        },
    decreases i,
{
    if i == 0 {
        assert(runs[0].valid());
        lemma_enter(near(Heading::Down), runs[0], Seq::empty());
    } else {
        lemma_both_ways(near, runs, below, i - 1);
        let run = runs[i - 1];
        let next = runs[i];
        assert(walks(near, run, next));
        assert(run.valid() && next.valid());
        let avoid = if run.turns {
            Seq::empty()
        } else {
            below
        };
        if run.asked() is Fetch {
            lemma_arrive(near(run.heading), run, avoid, next);
        } else if run.levels_left > 0 {
            lemma_move(near(run.heading), run, avoid, next);
        } else {
            assert forall|id: u64| #[trigger] next.chain@.contains(id) <==> below.contains(id) by {
                assert(known(run, Seq::empty(), id) <==> reaches(
                    near(Heading::Down),
                    run.start,
                    Seq::empty(),
                    id,
                    run.depth as nat,
                ));
            }
            lemma_enter(near(Heading::Up), next, below);
        }
    }
}

/// A finished walk both ways of depth N holds exactly the memories that are reached
/// within N steps downwards, and those within N steps upwards that pass none of
/// these, but for the one it started from.
pub proof fn walks_both_ways_hold_both(
    near: spec_fn(Heading) -> spec_fn(u64) -> Seq<u64>,
    runs: Seq<WalkRun>,
    below: Seq<u64>,
    id: u64,
)
    requires
        is_walk(near, runs),
        runs[0].turns,
        is_below(near, runs[0].start, runs[0].depth as nat, below),
        runs.last().asked() is Finish,
    ensures
        runs.last().chain@.contains(id) <==> id != runs[0].start && (below.contains(id) || reaches(
            near(Heading::Up),
            runs[0].start,
            below,
            id,
            runs[0].depth as nat,
        )),
{
    let last = runs.last();
    lemma_both_ways(near, runs, below, runs.len() - 1);
    assert(last.valid());
    assert(known(last, below, id) <==> reaches(
        near(Heading::Up),
        runs[0].start,
        below,
        id,
        runs[0].depth as nat,
    ));
    assert(below.contains(id) ==> last.chain@.contains(id));
}

/// How many steps a walk may take in all, for the memories it has reached.
pub open spec fn most_steps(first: WalkRun, reached: nat) -> int {
    if first.turns {
        reached + 2 * first.depth + 3
    } else {
        reached + first.depth + 1
    }
}

proof fn lemma_steps_so_far(
    near: spec_fn(Heading) -> spec_fn(u64) -> Seq<u64>,
    runs: Seq<WalkRun>,
    i: int,
)
    requires
        is_walk(near, runs),
        0 <= i < runs.len(),
    ensures
        runs[i].start == runs[0].start,
        runs[i].depth == runs[0].depth,
        runs[i].turns ==> runs[0].turns,
        i + (runs[i].level@.len() - runs[i].at) + runs[i].reached@.len() + runs[i].levels_left + (
        if runs[i].turns {
            runs[0].depth + 2
        } else {
            0
        }) <= most_steps(runs[0], runs[i].chain@.len()),
    decreases i,
{
    if i > 0 {
        lemma_steps_so_far(near, runs, i - 1);
        let run = runs[i - 1];
        let next = runs[i];
        assert(walks(near, run, next));
        assert(run.valid());
        if run.asked() is Fetch {
            lemma_with_new(
                run.start,
                run.chain@,
                near(run.heading)(run.level@[run.at as int]),
                0,
            );
        }
    }
}

proof fn lemma_few_ids(ids: Seq<u64>)
    requires
        ids.no_duplicates(),
    ensures
        ids.len() <= u64::MAX + 1,
{
    let numbers = ids.map_values(|id: u64| id as int);
    assert(numbers.no_duplicates()) by {
        assert forall|a: int, b: int|
            0 <= a < numbers.len() && 0 <= b < numbers.len() && a != b implies numbers[a]
            != numbers[b] by {
            assert(ids[a] != ids[b]);
        }
    }
    numbers.unique_seq_to_set();
    vstd::set_lib::lemma_int_range(0, u64::MAX + 1);
    let all = vstd::set_lib::set_int_range(0, u64::MAX + 1);
    assert(numbers.to_set().subset_of(all));
    vstd::set_lib::lemma_len_subset(numbers.to_set(), all);
}

/// A walk ends, whatever the neighbours are: it takes no more steps than the
/// memories it reaches and the levels of its headings allow, and there are only so
/// many memories.
pub proof fn walks_end(
    near: spec_fn(Heading) -> spec_fn(u64) -> Seq<u64>,
    runs: Seq<WalkRun>,
)
    requires
        is_walk(near, runs),
    ensures
        runs.len() - 1 <= most_steps(runs[0], runs.last().chain@.len()),
        runs.last().chain@.len() <= u64::MAX + 1,
        runs.last().asked() is Finish || runs.len() <= most_steps(
            runs[0],
            runs.last().chain@.len(),
        ),
{
    let last = runs.last();
    lemma_steps_so_far(near, runs, runs.len() - 1);
    assert(last.valid());
    lemma_few_ids(last.chain@);
}

/// Where a memory stands in a sequence.
#[derive(Debug, PartialEq, Eq)]
pub struct SequenceInfo {
    /// How many steps the memory is after the head.
    pub position: u64,
    /// The memory that the sequence begins with.
    pub head: u64,
    pub prev: Option<u64>,
    pub next: Vec<u64>,
}

/// The search for the place of a memory under way.
#[derive(Debug)]
pub struct PlaceRun {
    /// The memory, then the one before it, and so on upwards.
    pub path: Vec<u64>,
    /// The memories right after it, once they are known.
    pub next: Option<Vec<u64>>,
    /// The head is found.
    pub done: bool,
}

/// The first of `neighbors` that `path` does not hold.
pub open spec fn first_new(path: Seq<u64>, neighbors: Seq<u64>) -> Option<u64>
    decreases neighbors.len(),
{
    if neighbors.len() == 0 {
        None
    } else if path.contains(neighbors[0]) {
        first_new(path, neighbors.skip(1))
    } else {
        Some(neighbors[0])
    }
}

impl PlaceRun {
    /// The path begins with the memory and holds none twice.
    pub open spec fn valid(&self) -> bool {
        self.path@.len() > 0 && self.path@.no_duplicates()
    }

    /// The request at hand.
    pub open spec fn asked(&self) -> WalkRequest {
        if self.next is None {
            WalkRequest::Fetch { engram_id: self.path@[0], heading: Heading::Down }
        } else if !self.done {
            WalkRequest::Fetch { engram_id: self.path@.last(), heading: Heading::Up }
        } else {
            WalkRequest::Finish
        }
    }

    /// Begins to look for the place of a memory.
    pub fn begin(engram_id: u64) -> (r: PlaceRun)
        ensures
            r.valid(),
            r.path@ == seq![engram_id],
            r.next is None,
            !r.done,
    {
        let mut path: Vec<u64> = Vec::new();
        path.push(engram_id);
        PlaceRun { path, next: None, done: false }
    }

    /// What to do next.
    pub fn request(&self) -> (r: WalkRequest)
        requires
            self.valid(),
        ensures
            r == self.asked(),
    {
        if self.next.is_none() {
            WalkRequest::Fetch { engram_id: self.path[0], heading: Heading::Down }
        } else if !self.done {
            WalkRequest::Fetch {
                engram_id: self.path[self.path.len() - 1],
                heading: Heading::Up,
            }
        } else {
            WalkRequest::Finish
        }
    }

    fn holds(&self, id: u64) -> (r: bool)
        ensures
            r == self.path@.contains(id),
    {
        let mut i: usize = 0;
        while i < self.path.len()
            invariant
                i <= self.path@.len(),
                forall|j: int| 0 <= j < i ==> self.path@[j] != id,
            decreases self.path@.len() - i,
        {
            if self.path[i] == id {
                return true;
            }
            i += 1;
        }
        false
    }

    /// `next` is this search with the neighbours that were asked for.
    pub open spec fn arrived(&self, neighbors: Vec<u64>, next: PlaceRun) -> bool {
        if self.next is None {
            next.path == self.path && next.next == Some(neighbors) && next.done == self.done
        } else {
            next.next == self.next && match first_new(self.path@, neighbors@) {
                Some(id) => next.path@ == self.path@.push(id) && !next.done,
                None => next.path == self.path && next.done,
            }
        }
    }

    /// `r` is the place of the memory whose search is over.
    pub open spec fn placed(&self, r: Option<SequenceInfo>) -> bool {
        match self.next {
            Some(after) => if self.path@.len() == 1 && after@.len() == 0 {
                r is None
            } else {
                r matches Some(info) && info.position == self.path@.len() - 1 && info.head
                    == self.path@.last() && info.prev == (if self.path@.len() > 1 {
                    Some(self.path@[1])
                } else {
                    None
                }) && info.next == after
            },
            None => false,
        }
    }

    /// Takes the neighbours that were asked for: first those after the memory,
    /// then those before the last one found. Where nothing new stands before
    /// that one, it is the head.
    pub fn arrive(self, neighbors: Vec<u64>) -> (r: PlaceRun)
        requires
            self.valid(),
            self.asked() is Fetch,
        ensures
            r.valid(),
            self.arrived(neighbors, r),
    {
        let mut run = self;
        if run.next.is_none() {
            run.next = Some(neighbors);
            return run;
        }
        let mut i: usize = 0;
        assert(neighbors@.skip(0) =~= neighbors@);
        while i < neighbors.len()
            invariant
                i <= neighbors@.len(),
                run.valid(),
                run == self,
                first_new(self.path@, neighbors@) == first_new(
                    self.path@,
                    neighbors@.skip(i as int),
                ),
                self.next is Some,
                !self.done,
            decreases neighbors@.len() - i,
        {
            let id: u64 = neighbors[i];
            assert(neighbors@.skip(i as int)[0] == id);
            if !run.holds(id) {
                let ghost before = run.path@;
                run.path.push(id);
                assert forall|a: int, b: int|
                    0 <= a < run.path@.len() && 0 <= b < run.path@.len() && a
                        != b implies run.path@[a] != run.path@[b] by {
                    if a < before.len() {
                        assert(before.contains(before[a]));
                    }
                    if b < before.len() {
                        assert(before.contains(before[b]));
                    }
                }
                return run;
            }
            assert(neighbors@.skip(i as int).skip(1) =~= neighbors@.skip(i + 1));
            i += 1;
        }
        run.done = true;
        run
    }

    /// The place of the memory; none where nothing stands before or after it.
    pub fn place(self) -> (r: Option<SequenceInfo>)
        requires
            self.valid(),
            self.asked() is Finish,
        ensures
            self.placed(r),
    {
        let n: usize = self.path.len();
        let head: u64 = self.path[n - 1];
        let prev: Option<u64> = if n > 1 {
            Some(self.path[1])
        } else {
            None
        };
        match self.next {
            Some(next) => if n == 1 && next.len() == 0 {
                None
            } else {
                Some(SequenceInfo { position: (n - 1) as u64, head, prev, next })
            },
            None => None,
        }
    }
}

/// Only the head of a sequence stands at position 0.
pub proof fn head_stands_first(run: PlaceRun)
    requires
        run.valid(),
    ensures
        run.path@.len() - 1 == 0 <==> run.path@.last() == run.path@[0],
{
}

/// The ids as decimal numbers.
pub open spec fn numerals(ids: Seq<u64>) -> Seq<Seq<char>> {
    ids.map_values(|id: u64| decimal(id as nat))
}

fn show_ids(ids: &Vec<u64>) -> (r: String)
    ensures
        r@ == joined(numerals(ids@), ","@),
{
    let mut parts: Vec<String> = Vec::new();
    let mut i: usize = 0;
    while i < ids.len()
        invariant
            i <= ids@.len(),
            views(parts@) == numerals(ids@.take(i as int)),
        decreases ids@.len() - i,
    {
        let ghost before = parts@;
        parts.push(show_u64(ids[i]));
        assert(views(parts@) =~= views(before).push(decimal(ids@[i as int] as nat)));
        assert(numerals(ids@.take(i + 1)) =~= numerals(ids@.take(i as int)).push(
            decimal(ids@[i as int] as nat),
        ));
        i += 1;
    }
    assert(ids@.take(i as int) =~= ids@);
    join(&parts, ",")
}

/// The note on a memory that stands in a sequence.
pub open spec fn sequence_note(info: SequenceInfo) -> Seq<char> {
    "[sequential: pos="@ + decimal(info.position as nat) + " head="@ + decimal(info.head as nat)
        + match info.prev {
        Some(p) => " prev="@ + decimal(p as nat),
        None => Seq::empty(),
    } + if info.next@.len() == 0 {
        Seq::empty()
    } else {
        " next="@ + joined(numerals(info.next@), ","@)
    } + "]"@
}

/// An episode with a note on its place, where it has one.
pub fn annotated(episode: &str, place: Option<&SequenceInfo>) -> (r: String)
    ensures
        r@ == match place {
            Some(info) => episode@ + " "@ + sequence_note(*info),
            None => episode@,
        },
{
    match place {
        Some(info) => {
            let position = show_u64(info.position);
            let head = show_u64(info.head);
            let mut note = "[sequential: pos=".to_owned().concat(position.as_str()).concat(
                " head=",
            ).concat(head.as_str());
            let ghost begun = note@;
            match info.prev {
                Some(p) => {
                    let digits = show_u64(p);
                    note = note.concat(" prev=").concat(digits.as_str());
                    assert(note@ =~= begun + (" prev="@ + decimal(p as nat)));
                },
                None => {
                    assert(note@ =~= begun + Seq::empty());
                },
            }
            let ghost placed = note@;
            if info.next.len() > 0 {
                let ids = show_ids(&info.next);
                note = note.concat(" next=").concat(ids.as_str());
                assert(note@ =~= placed + (" next="@ + joined(numerals(info.next@), ","@)));
            } else {
                assert(note@ =~= placed + Seq::empty());
            }
            note = note.concat("]");
            assert(note@ =~= sequence_note(*info));
            episode.to_owned().concat(" ").concat(note.as_str())
        },
        None => episode.to_owned(),
    }
}

/// The first new neighbour is new, and every one before it is known; there is none
/// exactly where all are known.
pub proof fn the_first_new_neighbour_is_taken(path: Seq<u64>, neighbors: Seq<u64>)
    ensures
        first_new(path, neighbors) is None <==> forall|i: int|
            0 <= i < neighbors.len() ==> path.contains(#[trigger] neighbors[i]),
        first_new(path, neighbors) matches Some(id) ==> !path.contains(id) && exists|k: int|
            0 <= k < neighbors.len() && #[trigger] neighbors[k] == id && forall|i: int|
                0 <= i < k ==> path.contains(#[trigger] neighbors[i]),
    decreases neighbors.len(),
{
    if neighbors.len() > 0 && path.contains(neighbors[0]) {
        let rest = neighbors.skip(1);
        the_first_new_neighbour_is_taken(path, rest);
        if forall|i: int| 0 <= i < rest.len() ==> path.contains(#[trigger] rest[i]) {
            assert forall|i: int| 0 <= i < neighbors.len() implies path.contains(
                #[trigger] neighbors[i],
            ) by {
                if i > 0 {
                    assert(path.contains(rest[i - 1]));
                }
            }
        } else {
            let k = choose|k: int| 0 <= k < rest.len() && !path.contains(#[trigger] rest[k]);
            assert(!path.contains(neighbors[k + 1]));
        }
        if let Some(id) = first_new(path, rest) {
            let k = choose|k: int|
                0 <= k < rest.len() && #[trigger] rest[k] == id && forall|i: int|
                    0 <= i < k ==> path.contains(#[trigger] rest[i]);
            assert(neighbors[k + 1] == id);
            assert forall|i: int| 0 <= i < k + 1 implies path.contains(#[trigger] neighbors[i]) by {
                if i > 0 {
                    assert(path.contains(rest[i - 1]));
                }
            }
        }
    }
}

/// The states of a search from its beginning on, and the neighbours that came in
/// between, among memories whose neighbours are `near`.
pub open spec fn is_search(
    near: spec_fn(Heading) -> spec_fn(u64) -> Seq<u64>,
    engram_id: u64,
    runs: Seq<PlaceRun>,
    replies: Seq<Vec<u64>>,
) -> bool {
    &&& runs.len() == replies.len() + 1
    &&& runs[0].path@ == seq![engram_id]
    &&& runs[0].next is None
    &&& !runs[0].done
    &&& forall|i: int| 0 <= i < runs.len() ==> (#[trigger] runs[i]).valid()
    &&& forall|i: int|
        0 <= i < replies.len() ==> (runs[i].asked() matches WalkRequest::Fetch {
            engram_id: id,
            heading,
        } && (#[trigger] replies[i])@ == near(heading)(id) && runs[i].arrived(
            replies[i],
            runs[i + 1],
        ))
}

/// Where a search stands: each memory of its path stands right before the last.
spec fn climbs(
    near: spec_fn(Heading) -> spec_fn(u64) -> Seq<u64>,
    engram_id: u64,
    run: PlaceRun,
) -> bool {
    &&& run.path@[0] == engram_id
    &&& run.next matches Some(after) ==> after@ == near(Heading::Down)(engram_id)
    &&& run.next is None ==> run.path@.len() == 1 && !run.done
    &&& forall|i: int|
        0 <= i < run.path@.len() - 1 ==> near(Heading::Up)(#[trigger] run.path@[i]).contains(
            run.path@[i + 1],
        )
    &&& run.done ==> forall|id: u64| #[trigger]
        near(Heading::Up)(run.path@.last()).contains(id) ==> run.path@.contains(id)
}

proof fn lemma_climbs(
    near: spec_fn(Heading) -> spec_fn(u64) -> Seq<u64>,
    engram_id: u64,
    runs: Seq<PlaceRun>,
    replies: Seq<Vec<u64>>,
    i: int,
)
    requires
        is_search(near, engram_id, runs, replies),
        0 <= i < runs.len(),
    ensures
        climbs(near, engram_id, runs[i]),
    decreases i,
{
    if i > 0 {
        lemma_climbs(near, engram_id, runs, replies, i - 1);
        let run = runs[i - 1];
        let next = runs[i];
        let reply = replies[i - 1];
        assert(run.valid() && next.valid());
        assert(run.arrived(reply, next));
        if run.next is Some {
            the_first_new_neighbour_is_taken(run.path@, reply@);
            let n = run.path@.len() as int;
            if let Some(id) = first_new(run.path@, reply@) {
                assert(near(Heading::Up)(run.path@[n - 1]).contains(id));
                assert forall|k: int| 0 <= k < next.path@.len() - 1 implies near(Heading::Up)(
                    #[trigger] next.path@[k],
                ).contains(next.path@[k + 1]) by {
                    assert(next.path@[k] == run.path@[k]);
                    if k < n - 1 {
                        assert(next.path@[k + 1] == run.path@[k + 1]);
                    }
                }
            } else {
                assert forall|id: u64| #[trigger]
                    near(Heading::Up)(next.path@.last()).contains(id) implies next.path@.contains(
                    id,
                ) by {
                    let k = choose|k: int| 0 <= k < reply@.len() && reply@[k] == id;
                    assert(run.path@.contains(reply@[k]));
                }
            }
        }
    }
}

/// The place that a finished search gives: from the memory one climbs, each step
/// to a memory right before the last, `position` steps to the head; nothing stands
/// before the head that was not passed; and `next` are the memories right after.
pub proof fn places_are_the_way_to_the_head(
    near: spec_fn(Heading) -> spec_fn(u64) -> Seq<u64>,
    engram_id: u64,
    runs: Seq<PlaceRun>,
    replies: Seq<Vec<u64>>,
    r: Option<SequenceInfo>,
)
    requires
        is_search(near, engram_id, runs, replies),
        runs.last().asked() is Finish,
        runs.last().placed(r),
    ensures
        r matches Some(info) ==> {
            let way = runs.last().path@;
            &&& way.len() == info.position + 1
            &&& way[0] == engram_id
            &&& way.last() == info.head
            &&& forall|i: int|
                0 <= i < info.position ==> near(Heading::Up)(#[trigger] way[i]).contains(way[i + 1])
            &&& forall|id: u64| #[trigger]
                near(Heading::Up)(info.head).contains(id) ==> way.contains(id)
            &&& info.next@ == near(Heading::Down)(engram_id)
            &&& info.prev is Some <==> info.position > 0
            &&& info.prev matches Some(p) ==> near(Heading::Up)(engram_id).contains(p) && p
                != engram_id
        },
{
    lemma_climbs(near, engram_id, runs, replies, runs.len() - 1);
    let last = runs.last();
    assert(last.valid());
    if r is Some && last.path@.len() > 1 {
        assert(near(Heading::Up)(last.path@[0]).contains(last.path@[1]));
    }
}

/// A memory has no place exactly where nothing stands after it and nothing but
/// itself before it.
pub proof fn lone_memories_have_no_place(
    near: spec_fn(Heading) -> spec_fn(u64) -> Seq<u64>,
    engram_id: u64,
    runs: Seq<PlaceRun>,
    replies: Seq<Vec<u64>>,
    r: Option<SequenceInfo>,
)
    requires
        is_search(near, engram_id, runs, replies),
        runs.last().asked() is Finish,
        runs.last().placed(r),
    ensures
        r is None <==> near(Heading::Down)(engram_id).len() == 0 && forall|id: u64| #[trigger]
            near(Heading::Up)(engram_id).contains(id) ==> id == engram_id,
{
    lemma_climbs(near, engram_id, runs, replies, runs.len() - 1);
    let last = runs.last();
    assert(last.valid());
    if last.path@.len() > 1 {
        assert(near(Heading::Up)(last.path@[0]).contains(last.path@[1]));
        assert(last.path@[0] != last.path@[1]);
    } else {
        assert forall|id: u64| #[trigger] near(Heading::Up)(engram_id).contains(id) implies id
            == engram_id by {
            assert(last.path@.contains(id));
        }
    }
}

/// What joins a chain are the neighbours that it did not hold, behind what it
/// held.
pub proof fn new_neighbours_join_the_chain(
    start: u64,
    chain: Seq<u64>,
    neighbors: Seq<u64>,
    id: u64,
)
    ensures
        with_new(start, chain, neighbors).contains(id) <==> chain.contains(id) || (neighbors.contains(
            id,
        ) && id != start),
        chain.is_prefix_of(with_new(start, chain, neighbors)),
{
    lemma_with_new(start, chain, neighbors, id);
}

/// A walk asks for the neighbours of every memory of a level, one after the other,
/// before it goes on, and stops where its levels are used up.
pub proof fn walks_ask_for_each_of_a_level(run: WalkRun)
    requires
        run.valid(),
    ensures
        run.levels_left > 0 && run.at < run.level@.len() ==> run.asked() == (WalkRequest::Fetch {
            engram_id: run.level@[run.at as int],
            heading: run.heading,
        }),
        run.levels_left == 0 && !run.turns <==> run.asked() is Finish,
{
}

} // verus!
