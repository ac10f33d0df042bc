//! The chunk store as a state machine: what a frame shows, what it asks the background
//! workers for, and what becomes of their results.

use crate::chunk::{scene_node_of, Chunk};
use crate::grid::{
    chunk_world_position, distance_squared, lemma_window_no_duplicates,
    lemma_window_of_radius_zero, visible_radius, window, window_in_grid, GridCoordinate,
    Viewpoint,
};
use crate::lod::{
    detail_factors_ascend, lemma_detail_factor_monotonic, selected_level, LevelOfDetailInfo,
};
use crate::scenenode::SceneNode;
use vstd::prelude::*;

verus! {

/// An order to build the chunk at `position` from the settings of version `epoch`.
#[derive(Clone, Copy, Debug, PartialEq, Eq, Structural)]
pub struct ChunkRequest {
    pub position: GridCoordinate,
    pub epoch: u64,
}

/// How a background unit of work ended.
pub enum GenerationOutcome {
    /// The chunk was built.
    Built(Chunk),
    /// The chunk could not be built.
    Failed(ChunkRequest),
}

/// The state of a chunk store. `chunks` lists every chunk that the store holds and
/// `chunks[0]` is the default chunk, shown in place of chunks that are not built yet;
/// `slots` tells where in that list the chunk of a coordinate is found.
#[verifier::ext_equal]
pub struct StoreState {
    pub chunk_size: i32,
    pub radius: u32,
    pub epoch: u64,
    pub detail_levels: Seq<LevelOfDetailInfo>,
    pub chunks: Seq<Chunk>,
    pub slots: Map<GridCoordinate, int>,
    pub in_flight: Seq<GridCoordinate>,
    pub visible: Seq<int>,
}

/// Tests that a coordinate has no entry in `slots`.
pub open spec fn is_missing_in(slots: Map<GridCoordinate, int>) -> spec_fn(GridCoordinate) -> bool {
    |c: GridCoordinate| !slots.contains_key(c)
}

/// Where the chunk shown for a coordinate is found: its own slot, or the default chunk's
/// when it has none.
pub open spec fn slot_in(slots: Map<GridCoordinate, int>) -> spec_fn(GridCoordinate) -> int {
    |c: GridCoordinate|
        if slots.contains_key(c) {
            slots[c]
        } else {
            0
        }
}

/// Makes the request for a coordinate under the given version of the settings.
pub open spec fn request_at(epoch: u64) -> spec_fn(GridCoordinate) -> ChunkRequest {
    |c: GridCoordinate| ChunkRequest { position: c, epoch }
}

/// The request that a unit of work answers.
pub open spec fn request_of(outcome: GenerationOutcome) -> ChunkRequest {
    match outcome {
        GenerationOutcome::Built(chunk) => ChunkRequest {
            position: chunk.position,
            epoch: chunk.epoch,
        },
        GenerationOutcome::Failed(request) => request,
    }
}

/// Tests that a coordinate differs from `position`.
pub open spec fn is_other_than(position: GridCoordinate) -> spec_fn(GridCoordinate) -> bool {
    |c: GridCoordinate| c != position
}

impl StoreState {
    /// The invariant of a chunk store.
    pub open spec fn wf(self) -> bool {
        &&& self.chunk_size > 0
        &&& self.detail_levels.len() > 0
        &&& detail_factors_ascend(self.detail_levels)
        &&& self.chunks.len() > 0
        &&& forall|i: int|
            0 <= i < self.chunks.len() ==> {
                &&& (#[trigger] self.chunks[i]).wf()
                &&& self.chunks[i].levels() == self.detail_levels.len()
                &&& self.chunks[i].epoch == self.epoch
            }
        &&& forall|c: GridCoordinate| #[trigger]
            self.slots.contains_key(c) ==> {
                &&& 0 <= self.slots[c] < self.chunks.len()
                &&& self.slots[c] != 0 ==> self.chunks[self.slots[c]].position == c
            }
        &&& self.in_flight.no_duplicates()
        &&& forall|i: int|
            0 <= i < self.in_flight.len() ==> {
                &&& self.slots.contains_key(#[trigger] self.in_flight[i])
                &&& self.slots[self.in_flight[i]] == 0
            }
        &&& forall|i: int|
            0 <= i < self.visible.len() ==> 0 <= (#[trigger] self.visible[i]) < self.chunks.len()
    }

    /// True when the chunk of `c` has been built and stored.
    pub open spec fn resident(self, c: GridCoordinate) -> bool {
        self.slots.contains_key(c) && self.slots[c] != 0
    }

    /// The state after a frame has looked at the coordinates of `path`, in order: each
    /// is shown, by its own chunk or by the default chunk, and each that had no entry
    /// gets one for the default chunk and is in flight.
    pub open spec fn shown_along(self, path: Seq<GridCoordinate>) -> StoreState {
        StoreState {
            slots: Map::new(
                |c: GridCoordinate| self.slots.contains_key(c) || path.contains(c),
                slot_in(self.slots),
            ),
            in_flight: self.in_flight + path.filter(is_missing_in(self.slots)),
            visible: path.map_values(slot_in(self.slots)),
            ..self
        }
    }

    /// The requests that such a frame hands out: one for each coordinate of `path` that
    /// had no entry, in order.
    pub open spec fn requested_along(self, path: Seq<GridCoordinate>) -> Seq<ChunkRequest> {
        path.filter(is_missing_in(self.slots)).map_values(request_at(self.epoch))
    }

    /// The state after a frame around `center`.
    pub open spec fn shown(self, center: GridCoordinate) -> StoreState {
        self.shown_along(window(center, self.radius as int))
    }

    /// The requests that a frame around `center` hands out.
    pub open spec fn requested(self, center: GridCoordinate) -> Seq<ChunkRequest> {
        self.requested_along(window(center, self.radius as int))
    }

    /// True when the store waits for the result of `request`.
    pub open spec fn awaits(self, request: ChunkRequest) -> bool {
        request.epoch == self.epoch && self.in_flight.contains(request.position)
    }

    /// True when a chunk has the shape that this store's chunks have.
    pub open spec fn fits(self, chunk: Chunk) -> bool {
        chunk.wf() && chunk.levels() == self.detail_levels.len()
    }

    /// The state once `position` is no longer in flight.
    pub open spec fn settled(self, position: GridCoordinate) -> StoreState {
        StoreState { in_flight: self.in_flight.filter(is_other_than(position)), ..self }
    }

    /// The state after one unit of work has ended. A result that the store does not wait
    /// for changes nothing. One that it waits for is no longer in flight, and where a
    /// chunk of the right shape was built, that chunk takes the place of the default
    /// chunk at its coordinate.
    pub open spec fn absorbed(self, outcome: GenerationOutcome) -> StoreState {
        if !self.awaits(request_of(outcome)) {
            self
        } else {
            match outcome {
                GenerationOutcome::Built(chunk) => {
                    if self.fits(chunk) {
                        StoreState {
                            chunks: self.chunks.push(chunk),
                            slots: self.slots.insert(chunk.position, self.chunks.len() as int),
                            ..self.settled(chunk.position)
                        }
                    } else {
                        self.settled(chunk.position)
                    }
                },
                GenerationOutcome::Failed(request) => self.settled(request.position),
            }
        }
    }

    /// The state after several units of work have ended, in order.
    pub open spec fn absorbed_all(self, outcomes: Seq<GenerationOutcome>) -> StoreState
        decreases outcomes.len(),
    {
        if outcomes.len() == 0 {
            self
        } else {
            self.absorbed_all(outcomes.drop_last()).absorbed(outcomes.last())
        }
    }

    /// The state once nothing is in flight.
    pub open spec fn drained(self) -> StoreState {
        StoreState { in_flight: Seq::empty(), ..self }
    }

    /// The requests that are given up when the store is drained.
    pub open spec fn abandoned(self) -> Seq<ChunkRequest> {
        self.in_flight.map_values(request_at(self.epoch))
    }

    /// The state after everything was thrown away and `chunk` became the default chunk,
    /// standing at `center`, under version `epoch` of the settings.
    pub open spec fn rebuilt(self, center: GridCoordinate, chunk: Chunk, epoch: u64) -> StoreState {
        StoreState {
            epoch,
            chunks: seq![chunk],
            slots: Map::empty().insert(center, 0int),
            in_flight: Seq::empty(),
            visible: seq![0int],
            ..self
        }
    }

    /// The state after `c` was asked for by hand. Nothing changes where `c` is in flight
    /// or resident.
    pub open spec fn asked_for(self, c: GridCoordinate) -> StoreState {
        if self.in_flight.contains(c) || self.resident(c) {
            self
        } else {
            StoreState {
                slots: self.slots.insert(c, 0int),
                in_flight: self.in_flight.push(c),
                ..self
            }
        }
    }

    /// The level of detail at which the chunk in `slot` is drawn for the viewpoint.
    pub open spec fn level_for(self, slot: int, viewpoint: Viewpoint) -> int {
        selected_level(
            self.detail_levels,
            distance_squared(
                viewpoint,
                chunk_world_position(self.chunks[slot].position, self.chunk_size as int),
            ),
        )
    }

    /// The node that the chunk in `slot` contributes to a frame.
    pub open spec fn node_for(self, slot: int, shader_id: u32, viewpoint: Viewpoint) -> SceneNode {
        scene_node_of(
            self.chunks[slot],
            shader_id,
            self.level_for(slot, viewpoint),
            self.chunk_size as int,
        )
    }

    /// The nodes of a frame: one for each visible chunk, in order.
    pub open spec fn scene(self, shader_id: u32, viewpoint: Viewpoint) -> Seq<SceneNode> {
        Seq::new(
            self.visible.len(),
            |i: int| self.node_for(self.visible[i], shader_id, viewpoint),
        )
    }
}

/// What a filter keeps: exactly the entries that pass the test, and none of them twice
/// when none occurred twice before.
pub proof fn lemma_filter_keeps(path: Seq<GridCoordinate>, test: spec_fn(GridCoordinate) -> bool)
    ensures
        forall|c: GridCoordinate| #[trigger]
            path.filter(test).contains(c) <==> path.contains(c) && test(c),
        path.no_duplicates() ==> path.filter(test).no_duplicates(),
    decreases path.len(),
{
    if path.len() == 0 {
        reveal(Seq::filter);
    } else {
        let front = path.drop_last();
        let last = path.last();
        let kept = front.filter(test);
        let all = path.filter(test);
        lemma_filter_keeps(front, test);
        assert(path =~= front.push(last));
        front.lemma_filter_push(last, test);
        assert forall|c: GridCoordinate| #[trigger] all.contains(c) <==> path.contains(c) && test(
            c,
        ) by {
            if all.contains(c) {
                let i = choose|i: int| 0 <= i < all.len() && all[i] == c;
                if i < kept.len() {
                    assert(kept[i] == c);
                    assert(kept.contains(c));
                    let j = choose|j: int| 0 <= j < front.len() && front[j] == c;
                    assert(path[j] == c);
                } else {
                    assert(path[path.len() - 1] == c);
                }
            }
            if path.contains(c) && test(c) {
                let i = choose|i: int| 0 <= i < path.len() && path[i] == c;
                if i < front.len() {
                    assert(front[i] == c);
                    assert(front.contains(c));
                    assert(kept.contains(c));
                    let j = choose|j: int| 0 <= j < kept.len() && kept[j] == c;
                    assert(all[j] == c);
                } else {
                    assert(all[kept.len() as int] == c);
                }
            }
        }
        if path.no_duplicates() {
            assert forall|i: int, j: int|
                0 <= i < front.len() && 0 <= j < front.len() && i != j implies front[i]
                != front[j] by {
                assert(path[i] != path[j]);
            }
            if test(last) && kept.contains(last) {
                let j = choose|j: int| 0 <= j < front.len() && front[j] == last;
                assert(path[j] == path[path.len() - 1]);
            }
            assert forall|i: int, j: int|
                0 <= i < all.len() && 0 <= j < all.len() && i != j implies all[i] != all[j] by {
                if i < kept.len() && j < kept.len() {
                    assert(kept[i] != kept[j]);
                } else if i < kept.len() {
                    assert(kept.contains(kept[i]));
                } else if j < kept.len() {
                    assert(kept.contains(kept[j]));
                }
            }
        }
    }
}

/// What one more coordinate adds to a frame. A coordinate with an entry is shown by its
/// own chunk; one without is shown by the default chunk, gets an entry for it and is
/// asked for.
pub proof fn lemma_shown_one_more(s: StoreState, path: Seq<GridCoordinate>, c: GridCoordinate)
    requires
        !path.contains(c),
    ensures
        s.shown_along(path).slots.contains_key(c) <==> s.slots.contains_key(c),
        s.slots.contains_key(c) ==> {
            &&& s.shown_along(path).slots[c] == s.slots[c]
            &&& s.shown_along(path.push(c)) == (StoreState {
                visible: s.shown_along(path).visible.push(s.slots[c]),
                ..s.shown_along(path)
            })
            &&& s.requested_along(path.push(c)) == s.requested_along(path)
        },
        !s.slots.contains_key(c) ==> {
            &&& s.shown_along(path.push(c)) == (StoreState {
                slots: s.shown_along(path).slots.insert(c, 0int),
                in_flight: s.shown_along(path).in_flight.push(c),
                visible: s.shown_along(path).visible.push(0int),
                ..s.shown_along(path)
            })
            &&& s.requested_along(path.push(c)) == s.requested_along(path).push(
                ChunkRequest { position: c, epoch: s.epoch },
            )
        },
{
    let t = s.shown_along(path);
    let u = s.shown_along(path.push(c));
    let test = is_missing_in(s.slots);
    path.lemma_filter_push(c, test);
    path.lemma_push_map_commute(slot_in(s.slots), c);
    path.filter(test).lemma_push_map_commute(request_at(s.epoch), c);
    assert forall|x: GridCoordinate| path.push(c).contains(x) <==> path.contains(x) || x == c by {
        if path.contains(x) {
            let i = choose|i: int| 0 <= i < path.len() && path[i] == x;
            assert(path.push(c)[i] == x);
        }
        if x == c {
            assert(path.push(c)[path.len() as int] == x);
        }
        if path.push(c).contains(x) {
            let i = choose|i: int| 0 <= i < path.push(c).len() && path.push(c)[i] == x;
            if i < path.len() {
                assert(path[i] == x);
            }
        }
    }
    if s.slots.contains_key(c) {
        assert(u.slots =~= t.slots);
        assert(u =~= (StoreState { visible: t.visible.push(s.slots[c]), ..t }));
    } else {
        assert(u.slots =~= t.slots.insert(c, 0int));
        assert(u.in_flight =~= t.in_flight.push(c));
        assert(u =~= (StoreState {
            slots: t.slots.insert(c, 0int),
            in_flight: t.in_flight.push(c),
            visible: t.visible.push(0int),
            ..t
        }));
    }
}

/// A frame that has looked at nothing yet has changed nothing but the list of what is
/// visible, which is empty.
pub proof fn lemma_shown_nothing(s: StoreState)
    ensures
        s.shown_along(Seq::empty()) == (StoreState { visible: Seq::empty(), ..s }),
        s.requested_along(Seq::empty()) == Seq::<ChunkRequest>::empty(),
{
    reveal(Seq::filter);
    let t = s.shown_along(Seq::empty());
    assert(Seq::<GridCoordinate>::empty().filter(is_missing_in(s.slots)) =~= Seq::empty());
    assert(t.slots =~= s.slots);
    assert(t.in_flight =~= s.in_flight);
    assert(t.visible =~= Seq::empty());
    assert(t =~= (StoreState { visible: Seq::empty(), ..s }));
    assert(s.requested_along(Seq::empty()) =~= Seq::<ChunkRequest>::empty());
}

/// A frame keeps the store's invariant.
pub proof fn lemma_shown_along_wf(s: StoreState, path: Seq<GridCoordinate>)
    requires
        s.wf(),
        path.no_duplicates(),
    ensures
        s.shown_along(path).wf(),
{
    let t = s.shown_along(path);
    let fresh = path.filter(is_missing_in(s.slots));
    lemma_filter_keeps(path, is_missing_in(s.slots));
    assert forall|i: int| 0 <= i < t.in_flight.len() implies {
        &&& t.slots.contains_key(#[trigger] t.in_flight[i])
        &&& t.slots[t.in_flight[i]] == 0
    } by {
        if i >= s.in_flight.len() {
            assert(fresh.contains(fresh[i - s.in_flight.len()]));
        }
    }
    assert forall|i: int, j: int|
        0 <= i < t.in_flight.len() && 0 <= j < t.in_flight.len() && i != j implies t.in_flight[i]
        != t.in_flight[j] by {
        let n = s.in_flight.len() as int;
        if i < n && j >= n {
            assert(fresh.contains(fresh[j - n]));
        }
        if j < n && i >= n {
            assert(fresh.contains(fresh[i - n]));
        }
    }
    assert forall|i: int| 0 <= i < t.visible.len() implies 0 <= (#[trigger] t.visible[i])
        < t.chunks.len() by {
        assert(t.visible[i] == slot_in(s.slots)(path[i]));
    }
}

/// The result of one unit of work keeps the store's invariant.
pub proof fn lemma_absorbed_wf(s: StoreState, outcome: GenerationOutcome)
    requires
        s.wf(),
    ensures
        s.absorbed(outcome).wf(),
{
    let t = s.absorbed(outcome);
    let position = match outcome {
        GenerationOutcome::Built(chunk) => chunk.position,
        GenerationOutcome::Failed(request) => request.position,
    };
    lemma_filter_keeps(s.in_flight, is_other_than(position));
    if t != s {
        assert(t.in_flight == s.in_flight.filter(is_other_than(position)));
        assert forall|i: int| 0 <= i < t.in_flight.len() implies {
            &&& t.slots.contains_key(#[trigger] t.in_flight[i])
            &&& t.slots[t.in_flight[i]] == 0
        } by {
            let c = t.in_flight[i];
            assert(t.in_flight.contains(c));
            assert(s.in_flight.contains(c) && c != position);
            let j = choose|j: int| 0 <= j < s.in_flight.len() && s.in_flight[j] == c;
            assert(s.slots.contains_key(s.in_flight[j]));
        }
        assert forall|i: int| 0 <= i < t.chunks.len() implies {
            &&& (#[trigger] t.chunks[i]).wf()
            &&& t.chunks[i].levels() == t.detail_levels.len()
            &&& t.chunks[i].epoch == t.epoch
        } by {
            if i < s.chunks.len() {
                assert(t.chunks[i] == s.chunks[i]);
            }
        }
        assert forall|c: GridCoordinate| #[trigger] t.slots.contains_key(c) implies {
            &&& 0 <= t.slots[c] < t.chunks.len()
            &&& t.slots[c] != 0 ==> t.chunks[t.slots[c]].position == c
        } by {
            if c != position || t.slots == s.slots {
                assert(s.slots.contains_key(c));
                assert(t.chunks[t.slots[c]] == s.chunks[s.slots[c]]);
            }
        }
        assert forall|i: int| 0 <= i < t.visible.len() implies 0 <= (#[trigger] t.visible[i])
            < t.chunks.len() by {
            assert(t.visible[i] == s.visible[i]);
        }
    }
}

/// Asking for a coordinate by hand keeps the store's invariant.
pub proof fn lemma_asked_for_wf(s: StoreState, c: GridCoordinate)
    requires
        s.wf(),
    ensures
        s.asked_for(c).wf(),
{
    let t = s.asked_for(c);
    if t != s {
        assert forall|i: int| 0 <= i < t.in_flight.len() implies {
            &&& t.slots.contains_key(#[trigger] t.in_flight[i])
            &&& t.slots[t.in_flight[i]] == 0
        } by {
            if i < s.in_flight.len() {
                assert(s.slots.contains_key(s.in_flight[i]));
            }
        }
        assert forall|i: int, j: int|
            0 <= i < t.in_flight.len() && 0 <= j < t.in_flight.len() && i != j implies t.in_flight[i]
            != t.in_flight[j] by {
            if i < s.in_flight.len() {
                assert(s.in_flight.contains(s.in_flight[i]));
            }
            if j < s.in_flight.len() {
                assert(s.in_flight.contains(s.in_flight[j]));
            }
        }
    }
}

/// Throwing everything away for a new default chunk keeps the store's invariant.
pub proof fn lemma_rebuilt_wf(s: StoreState, center: GridCoordinate, chunk: Chunk, epoch: u64)
    requires
        s.wf(),
        s.fits(chunk),
        chunk.epoch == epoch,
    ensures
        s.rebuilt(center, chunk, epoch).wf(),
{
}

/// The results of several units of work keep the store's invariant.
pub proof fn lemma_absorbed_all_wf(s: StoreState, outcomes: Seq<GenerationOutcome>)
    requires
        s.wf(),
    ensures
        s.absorbed_all(outcomes).wf(),
    decreases outcomes.len(),
{
    if outcomes.len() > 0 {
        lemma_absorbed_all_wf(s, outcomes.drop_last());
        lemma_absorbed_wf(s.absorbed_all(outcomes.drop_last()), outcomes.last());
    }
}

/// No coordinate is in flight twice, in any state that keeps the invariant.
pub proof fn lemma_one_request_for_each_coordinate(s: StoreState, i: int, j: int)
    requires
        s.wf(),
        0 <= i < s.in_flight.len(),
        0 <= j < s.in_flight.len(),
        s.in_flight[i] == s.in_flight[j],
    ensures
        i == j,
{
}

/// A frame asks for no coordinate that is in flight or has an entry already, and for
/// none twice.
pub proof fn lemma_requests_are_new(s: StoreState, path: Seq<GridCoordinate>)
    requires
        s.wf(),
        path.no_duplicates(),
    ensures
        s.requested_along(path).len() == path.filter(is_missing_in(s.slots)).len(),
        forall|k: int|
            0 <= k < s.requested_along(path).len() ==> {
                &&& !s.slots.contains_key((#[trigger] s.requested_along(path)[k]).position)
                &&& !s.in_flight.contains(s.requested_along(path)[k].position)
                &&& s.requested_along(path)[k].epoch == s.epoch
            },
        forall|k: int, l: int|
            0 <= k < l < s.requested_along(path).len() ==> s.requested_along(path)[k].position
                != s.requested_along(path)[l].position,
{
    let fresh = path.filter(is_missing_in(s.slots));
    lemma_filter_keeps(path, is_missing_in(s.slots));
    assert forall|k: int| 0 <= k < s.requested_along(path).len() implies {
        &&& !s.slots.contains_key((#[trigger] s.requested_along(path)[k]).position)
        &&& !s.in_flight.contains(s.requested_along(path)[k].position)
        &&& s.requested_along(path)[k].epoch == s.epoch
    } by {
        assert(fresh.contains(fresh[k]));
        if s.in_flight.contains(fresh[k]) {
            let j = choose|j: int| 0 <= j < s.in_flight.len() && s.in_flight[j] == fresh[k];
            assert(s.slots.contains_key(s.in_flight[j]));
        }
    }
}

/// After the settings have moved on to a later version, the store holds no chunk that
/// was built from an earlier one.
pub proof fn lemma_no_chunk_of_earlier_settings(before: StoreState, after: StoreState)
    requires
        after.wf(),
        before.epoch < after.epoch,
    ensures
        forall|i: int| 0 <= i < after.chunks.len() ==> (#[trigger] after.chunks[i]).epoch > before.epoch,
        forall|c: GridCoordinate| #[trigger]
            after.slots.contains_key(c) ==> after.chunks[after.slots[c]].epoch != before.epoch,
{
}

/// A second frame from the same place, with no work finished in between, changes
/// nothing: it shows the same chunks and asks for nothing.
pub proof fn lemma_shown_twice(s: StoreState, path: Seq<GridCoordinate>)
    requires
        s.wf(),
        path.no_duplicates(),
    ensures
        s.shown_along(path).shown_along(path) == s.shown_along(path),
        s.shown_along(path).requested_along(path) == Seq::<ChunkRequest>::empty(),
{
    let t = s.shown_along(path);
    let u = t.shown_along(path);
    lemma_filter_keeps(path, is_missing_in(t.slots));
    let fresh = path.filter(is_missing_in(t.slots));
    if fresh.len() > 0 {
        assert(fresh.contains(fresh[0]));
    }
    assert(fresh =~= Seq::empty());
    assert(u.in_flight =~= t.in_flight);
    assert(u.slots =~= t.slots);
    assert forall|i: int| 0 <= i < path.len() implies u.visible[i] == t.visible[i] by {
        assert(path.contains(path[i]));
    }
    assert(u.visible =~= t.visible);
    assert(u =~= t);
    assert(t.requested_along(path) =~= Seq::<ChunkRequest>::empty());
}

/// A second frame around the same centre, with no work finished in between, shows the
/// same chunks as the first and asks for nothing.
pub proof fn lemma_frame_idempotent(s: StoreState, center: GridCoordinate)
    requires
        s.wf(),
        window_in_grid(center, s.radius as int),
    ensures
        s.shown(center).shown(center) == s.shown(center),
        s.shown(center).requested(center) == Seq::<ChunkRequest>::empty(),
        s.shown(center).wf(),
{
    lemma_window_no_duplicates(center, s.radius as int);
    lemma_shown_twice(s, window(center, s.radius as int));
    lemma_shown_along_wf(s, window(center, s.radius as int));
}

/// A chunk that the store takes in is found at its coordinate afterwards, and its node
/// stands at that coordinate scaled by the chunk size, at height zero.
pub proof fn lemma_absorbed_chunk_stands_at_its_coordinate(
    s: StoreState,
    chunk: Chunk,
    shader_id: u32,
    viewpoint: Viewpoint,
)
    requires
        s.wf(),
        s.awaits(ChunkRequest { position: chunk.position, epoch: chunk.epoch }),
        s.fits(chunk),
    ensures
        ({
            let t = s.absorbed(GenerationOutcome::Built(chunk));
            let c = chunk.position;
            &&& t.resident(c)
            &&& t.chunks[t.slots[c]] == chunk
            &&& t.node_for(t.slots[c], shader_id, viewpoint).position.x == c.x * s.chunk_size
            &&& t.node_for(t.slots[c], shader_id, viewpoint).position.y == 0
            &&& t.node_for(t.slots[c], shader_id, viewpoint).position.z == c.z * s.chunk_size
        }),
{
    crate::grid::lemma_product_of_i32_fits(chunk.position.x as int, s.chunk_size as int);
    crate::grid::lemma_product_of_i32_fits(chunk.position.z as int, s.chunk_size as int);
    let t = s.absorbed(GenerationOutcome::Built(chunk));
    assert(t.slots[chunk.position] == s.chunks.len());
    assert(t.chunks[s.chunks.len() as int] == chunk);
}

/// Every resident chunk stands at the coordinate under which it is stored.
pub proof fn lemma_resident_chunk_stands_at_its_coordinate(
    s: StoreState,
    c: GridCoordinate,
    shader_id: u32,
    viewpoint: Viewpoint,
)
    requires
        s.wf(),
        s.resident(c),
    ensures
        s.node_for(s.slots[c], shader_id, viewpoint).position.x == c.x * s.chunk_size,
        s.node_for(s.slots[c], shader_id, viewpoint).position.y == 0,
        s.node_for(s.slots[c], shader_id, viewpoint).position.z == c.z * s.chunk_size,
{
    crate::grid::lemma_product_of_i32_fits(c.x as int, s.chunk_size as int);
    crate::grid::lemma_product_of_i32_fits(c.z as int, s.chunk_size as int);
}

/// A chunk that is stored stays where it is, the same chunk in the same slot, whatever
/// frames are shown, whatever work ends and whatever is asked for by hand. Only throwing
/// everything away removes it.
pub proof fn lemma_resident_chunk_stays(
    s: StoreState,
    c: GridCoordinate,
    path: Seq<GridCoordinate>,
    outcome: GenerationOutcome,
    asked: GridCoordinate,
)
    requires
        s.wf(),
        s.resident(c),
    ensures
        s.shown_along(path).resident(c),
        s.shown_along(path).slots[c] == s.slots[c],
        s.shown_along(path).chunks[s.slots[c]] == s.chunks[s.slots[c]],
        s.absorbed(outcome).resident(c),
        s.absorbed(outcome).slots[c] == s.slots[c],
        s.absorbed(outcome).chunks[s.slots[c]] == s.chunks[s.slots[c]],
        s.asked_for(asked).resident(c),
        s.asked_for(asked).slots[c] == s.slots[c],
        s.asked_for(asked).chunks[s.slots[c]] == s.chunks[s.slots[c]],
        s.drained().resident(c),
        s.drained().slots[c] == s.slots[c],
        s.drained().chunks[s.slots[c]] == s.chunks[s.slots[c]],
{
    let position = request_of(outcome).position;
    if s.in_flight.contains(position) {
        let i = choose|i: int| 0 <= i < s.in_flight.len() && s.in_flight[i] == position;
        assert(s.slots[s.in_flight[i]] == 0);
    }
    if s.in_flight.contains(asked) {
        let i = choose|i: int| 0 <= i < s.in_flight.len() && s.in_flight[i] == asked;
        assert(s.slots[s.in_flight[i]] == 0);
    }
}

/// Moving the viewpoint away from a stored chunk never lowers the detail factor at
/// which the chunk is drawn.
pub proof fn lemma_farther_is_coarser(
    s: StoreState,
    slot: int,
    nearer: Viewpoint,
    farther: Viewpoint,
)
    requires
        s.wf(),
        0 <= slot < s.chunks.len(),
        distance_squared(
            nearer,
            chunk_world_position(s.chunks[slot].position, s.chunk_size as int),
        ) <= distance_squared(
            farther,
            chunk_world_position(s.chunks[slot].position, s.chunk_size as int),
        ),
    ensures
        0 <= s.level_for(slot, nearer) <= s.level_for(slot, farther) < s.detail_levels.len(),
        s.detail_levels[s.level_for(slot, nearer)].lod <= s.detail_levels[s.level_for(
            slot,
            farther,
        )].lod,
{
    let position = chunk_world_position(s.chunks[slot].position, s.chunk_size as int);
    lemma_detail_factor_monotonic(
        s.detail_levels,
        distance_squared(nearer, position),
        distance_squared(farther, position),
    );
    crate::lod::lemma_selected_below_is_highest(
        s.detail_levels,
        distance_squared(nearer, position),
        s.detail_levels.len() as int,
    );
    crate::lod::lemma_selected_below_is_highest(
        s.detail_levels,
        distance_squared(farther, position),
        s.detail_levels.len() as int,
    );
}

/// With a view distance of zero a frame shows one chunk: that of the viewpoint's own
/// coordinate.
pub proof fn lemma_zero_view_distance_shows_one_chunk(s: StoreState, center: GridCoordinate)
    requires
        s.wf(),
        s.radius == visible_radius(0, s.chunk_size as int),
    ensures
        s.radius == 0,
        window(center, s.radius as int) == seq![center],
        s.shown(center).visible == seq![slot_in(s.slots)(center)],
        s.shown(center).slots.contains_key(center),
{
    crate::grid::lemma_nearest_quotient_bounds(0, s.chunk_size as int);
    lemma_window_of_radius_zero(center);
    assert(s.shown(center).visible =~= seq![slot_in(s.slots)(center)]);
    assert(seq![center][0] == center);
}

/// A coordinate that has no chunk yet is shown by the default chunk.
pub proof fn lemma_missing_chunk_shown_by_default(
    s: StoreState,
    path: Seq<GridCoordinate>,
    i: int,
)
    requires
        s.wf(),
        0 <= i < path.len(),
        !s.slots.contains_key(path[i]),
    ensures
        s.shown_along(path).visible[i] == 0,
        s.shown_along(path).slots.contains_key(path[i]),
        s.shown_along(path).slots[path[i]] == 0,
        s.shown_along(path).in_flight.contains(path[i]),
{
    lemma_filter_keeps(path, is_missing_in(s.slots));
    let fresh = path.filter(is_missing_in(s.slots));
    assert(path.contains(path[i]));
    assert(fresh.contains(path[i]));
    let j = choose|j: int| 0 <= j < fresh.len() && fresh[j] == path[i];
    assert(s.shown_along(path).in_flight[s.in_flight.len() + j] == path[i]);
}

} // verus!
