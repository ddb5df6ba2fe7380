//! Walks through a dungeon, and what holds of a breadth-first search for one.
use vstd::prelude::*;
use crate::dungeon::rooms::{is_last_room, lemma_room, plan, Direction, Room, RoomView};

verus! {

/// Whether the room `from` has an exit that leads to `to`.
pub open spec fn adjacent(rooms: Map<Seq<char>, RoomView>, from: Seq<char>, to: Seq<char>) -> bool {
    rooms.contains_key(from) && exists|d: Direction| #[trigger] rooms[from].exit(d) == Some(to)
}

/// Whether `walk` names rooms of the dungeon, each of which has an exit that
/// leads to the next.
pub open spec fn is_walk(rooms: Map<Seq<char>, RoomView>, walk: Seq<Seq<char>>) -> bool {
    &&& walk.len() > 0
    &&& forall|i: int| 0 <= i < walk.len() ==> rooms.contains_key(#[trigger] walk[i])
    &&& forall|i: int| 0 <= i < walk.len() - 1 ==> #[trigger] adjacent(rooms, walk[i], walk[i + 1])
}

/// Whether `walk` is a walk through the dungeon from `from` to `to`.
pub open spec fn connects(
    rooms: Map<Seq<char>, RoomView>,
    walk: Seq<Seq<char>>,
    from: Seq<char>,
    to: Seq<char>,
) -> bool {
    is_walk(rooms, walk) && walk[0] == from && walk.last() == to
}

/// Whether the exit of `room` in `direction` leads to a room that the
/// dungeon does not have.
pub open spec fn dangling(rooms: Map<Seq<char>, RoomView>, room: Seq<char>, direction: Direction)
    -> bool {
    &&& rooms.contains_key(room)
    &&& rooms[room].exit(direction) is Some
    &&& !rooms.contains_key(rooms[room].exit(direction)->0)
}

/// Whether every exit of the dungeon leads to a room that it has.
pub open spec fn sound(rooms: Map<Seq<char>, RoomView>) -> bool {
    forall|room: Seq<char>, direction: Direction| !#[trigger] dangling(rooms, room, direction)
}

/// Whether no room that a walk of fewer than `length` rooms reaches from
/// `from` has an exit that leads to a room which the dungeon does not have.
pub open spec fn sound_within(rooms: Map<Seq<char>, RoomView>, from: Seq<char>, length: int)
    -> bool {
    forall|walk: Seq<Seq<char>>, d: Direction|
        #![trigger is_walk(rooms, walk), dangling(rooms, walk.last(), d)]
        is_walk(rooms, walk) && walk[0] == from && walk.len() < length ==> !dangling(
            rooms,
            walk.last(),
            d,
        )
}

/// Whether a search from `from` for `to` fails at the exit of the last room
/// of `walk` in direction `d`: that exit leads out of the dungeon, the exits
/// of the room that are tried before it do not, no room nearer to `from` has
/// such an exit, and `to` is no nearer to `from` than that room.
pub open spec fn fails_at(
    rooms: Map<Seq<char>, RoomView>,
    from: Seq<char>,
    to: Seq<char>,
    walk: Seq<Seq<char>>,
    d: Direction,
) -> bool {
    &&& is_walk(rooms, walk)
    &&& walk[0] == from
    &&& dangling(rooms, walk.last(), d)
    &&& forall|earlier: Direction|
        turn(earlier) < turn(d) ==> !#[trigger] dangling(rooms, walk.last(), earlier)
    &&& sound_within(rooms, from, walk.len() as int)
    &&& forall|way: Seq<Seq<char>>| #[trigger]
        connects(rooms, way, from, to) ==> walk.len() <= way.len()
}

/// The names of a row of rooms.
pub open spec fn names_of(path: Seq<&Room>) -> Seq<Seq<char>> {
    path.map_values(|room: &Room| room@.name)
}

/// The place of a direction in the order in which a search tries them.
pub open spec fn turn(direction: Direction) -> int {
    match direction {
        Direction::North => 0,
        Direction::South => 1,
        Direction::East => 2,
        Direction::West => 3,
    }
}

/// The name of the room at index `i` of the list.
pub open spec fn name_at(rooms: Seq<Room>, i: int) -> Seq<char> {
    rooms[i]@.name
}

/// Whether the room at index `i` has an exit that leads to the one at `j`.
pub open spec fn leads(rooms: Seq<Room>, i: int, j: int) -> bool {
    exists|d: Direction| #[trigger] rooms[i]@.exit(d) == Some(name_at(rooms, j))
}

/// Whether the search has found the room `x` no deeper than `bound`.
pub open spec fn reached(
    rooms: Seq<Room>,
    queue: Seq<usize>,
    depth: Seq<int>,
    x: Seq<char>,
    bound: int,
) -> bool {
    exists|p: int|
        0 <= p < queue.len() && name_at(rooms, #[trigger] queue[p] as int) == x && depth[p]
            <= bound
}

/// Whether the search has found what lies behind the exit in direction `d`
/// of the room at place `k` of its queue, one step deeper at most.
pub open spec fn explored(
    rooms: Seq<Room>,
    queue: Seq<usize>,
    depth: Seq<int>,
    k: int,
    d: Direction,
) -> bool {
    match rooms[queue[k] as int]@.exit(d) {
        Some(x) => reached(rooms, queue, depth, x, depth[k] + 1),
        None => true,
    }
}

/// The state of a breadth-first search from the room at index `start`.
///
/// `queue` holds the rooms found so far in the order in which they were
/// found, `parent` the place in the queue from which each was found and
/// `depth` the number of steps that led to it. The places before `head` are
/// done with, and of the room at `head` the first `done` directions.
pub open spec fn searching(
    rooms: Seq<Room>,
    start: int,
    queue: Seq<usize>,
    parent: Seq<usize>,
    depth: Seq<int>,
    seen: Seq<bool>,
    head: int,
    done: int,
) -> bool {
    &&& queue.len() == parent.len()
    &&& queue.len() == depth.len()
    &&& queue.len() >= 1
    &&& seen.len() == rooms.len()
    &&& 0 <= head <= queue.len()
    &&& 0 <= done <= 4
    &&& head == queue.len() ==> done == 0
    &&& queue[0] == start
    &&& depth[0] == 0
    &&& forall|k: int|
        0 <= k < queue.len() ==> (#[trigger] queue[k]) < rooms.len() && is_last_room(
            rooms,
            name_at(rooms, queue[k] as int),
            queue[k] as int,
        ) && seen[queue[k] as int]
    &&& forall|k: int|
        1 <= k < queue.len() ==> (#[trigger] parent[k]) < k && parent[k] <= head && depth[k]
            == depth[parent[k] as int] + 1 && leads(
            rooms,
            queue[parent[k] as int] as int,
            queue[k] as int,
        )
    &&& forall|a: int, b: int|
        0 <= a < b < queue.len() ==> (#[trigger] queue[a]) != (#[trigger] queue[b])
    &&& forall|i: int|
        0 <= i < rooms.len() && #[trigger] seen[i] ==> exists|k: int|
            0 <= k < queue.len() && #[trigger] queue[k] == i
    &&& forall|a: int, b: int|
        0 <= a <= b < queue.len() ==> (#[trigger] depth[a]) <= (#[trigger] depth[b])
    &&& head < queue.len() ==> forall|k: int|
        0 <= k < queue.len() ==> (#[trigger] depth[k]) <= depth[head] + 1
    &&& forall|k: int, d: Direction|
        0 <= k < head || (k == head && head < queue.len() && turn(d) < done) ==> #[trigger] explored(
            rooms,
            queue,
            depth,
            k,
            d,
        )
}

/// The walk that led the search to the room at place `k` of its queue.
pub open spec fn trail(rooms: Seq<Room>, queue: Seq<usize>, parent: Seq<usize>, k: int) -> Seq<
    Seq<char>,
>
    decreases k,
{
    if k <= 0 || parent[k] >= k {
        seq![name_at(rooms, queue[0] as int)]
    } else {
        trail(rooms, queue, parent, parent[k] as int).push(name_at(rooms, queue[k] as int))
    }
}

/// Whether a walk has, before its step `i`, come through a room that the
/// search has found early enough and is not done with.
pub open spec fn waiting(
    rooms: Seq<Room>,
    queue: Seq<usize>,
    depth: Seq<int>,
    head: int,
    walk: Seq<Seq<char>>,
    i: int,
) -> bool {
    exists|j: int, p: int|
        0 <= j < i && head <= p < queue.len() && name_at(rooms, #[trigger] queue[p] as int)
            == #[trigger] walk[j] && depth[p] <= j
}

/// Only one room of a list is the last with a given name.
pub proof fn lemma_last_room_is_unique(rooms: Seq<Room>, name: Seq<char>, a: int, b: int)
    requires
        is_last_room(rooms, name, a),
        is_last_room(rooms, name, b),
    ensures
        a == b,
{
    if a < b {
        assert(rooms[b]@.name != name);
    } else if b < a {
        assert(rooms[a]@.name != name);
    }
}

/// A direction is known by its turn.
pub proof fn lemma_turns(a: Direction, b: Direction)
    ensures
        0 <= turn(a) < 4,
        turn(a) == turn(b) ==> a == b,
{
}

/// What the search has reached stays reached when another room is found.
pub proof fn lemma_reached_stays(
    rooms: Seq<Room>,
    queue: Seq<usize>,
    depth: Seq<int>,
    x: Seq<char>,
    bound: int,
    j: usize,
    e: int,
)
    requires
        queue.len() == depth.len(),
        reached(rooms, queue, depth, x, bound),
    ensures
        reached(rooms, queue.push(j), depth.push(e), x, bound),
{
    let p = choose|p: int|
        0 <= p < queue.len() && name_at(rooms, #[trigger] queue[p] as int) == x && depth[p]
            <= bound;
    assert(queue.push(j)[p] == queue[p]);
    assert(depth.push(e)[p] == depth[p]);
}

/// An exit that leads nowhere needs no search.
pub proof fn lemma_no_exit(
    rooms: Seq<Room>,
    start: int,
    queue: Seq<usize>,
    parent: Seq<usize>,
    depth: Seq<int>,
    seen: Seq<bool>,
    head: int,
    done: int,
    d: Direction,
)
    requires
        searching(rooms, start, queue, parent, depth, seen, head, done),
        head < queue.len(),
        turn(d) == done,
        rooms[queue[head] as int]@.exit(d) is None,
    ensures
        searching(rooms, start, queue, parent, depth, seen, head, done + 1),
{
    assert forall|k: int, other: Direction|
        0 <= k < head || (k == head && head < queue.len() && turn(other) < done
            + 1) implies #[trigger] explored(rooms, queue, depth, k, other) by {
        lemma_turns(other, d);
    }
}

/// An exit that leads to a room which the search has seen is searched.
pub proof fn lemma_seen_exit(
    rooms: Seq<Room>,
    start: int,
    queue: Seq<usize>,
    parent: Seq<usize>,
    depth: Seq<int>,
    seen: Seq<bool>,
    head: int,
    done: int,
    d: Direction,
    j: int,
)
    requires
        searching(rooms, start, queue, parent, depth, seen, head, done),
        head < queue.len(),
        turn(d) == done,
        0 <= j < rooms.len(),
        rooms[queue[head] as int]@.exit(d) == Some(name_at(rooms, j)),
        seen[j],
    ensures
        searching(rooms, start, queue, parent, depth, seen, head, done + 1),
{
    let k = choose|k: int| 0 <= k < queue.len() && #[trigger] queue[k] == j;
    assert(depth[k] <= depth[head] + 1);
    assert(reached(rooms, queue, depth, name_at(rooms, j), depth[head] + 1));
    assert forall|k: int, other: Direction|
        0 <= k < head || (k == head && head < queue.len() && turn(other) < done
            + 1) implies #[trigger] explored(rooms, queue, depth, k, other) by {
        lemma_turns(other, d);
    }
}

/// An exit that leads to a room which the search has not seen adds that
/// room to the queue, one step deeper than the room it was found from.
pub proof fn lemma_new_exit(
    rooms: Seq<Room>,
    start: int,
    queue: Seq<usize>,
    parent: Seq<usize>,
    depth: Seq<int>,
    seen: Seq<bool>,
    head: int,
    done: int,
    d: Direction,
    j: usize,
)
    requires
        searching(rooms, start, queue, parent, depth, seen, head, done),
        head < queue.len() <= usize::MAX,
        turn(d) == done,
        j < rooms.len(),
        is_last_room(rooms, name_at(rooms, j as int), j as int),
        rooms[queue[head] as int]@.exit(d) == Some(name_at(rooms, j as int)),
        !seen[j as int],
    ensures
        searching(
            rooms,
            start,
            queue.push(j),
            parent.push(head as usize),
            depth.push(depth[head] + 1),
            seen.update(j as int, true),
            head,
            done + 1,
        ),
{
    let queue2 = queue.push(j);
    let parent2 = parent.push(head as usize);
    let depth2 = depth.push(depth[head] + 1);
    let seen2 = seen.update(j as int, true);
    let last = queue.len() as int;
    assert forall|k: int| 0 <= k < queue2.len() implies (#[trigger] queue2[k]) < rooms.len()
        && is_last_room(rooms, name_at(rooms, queue2[k] as int), queue2[k] as int)
        && seen2[queue2[k] as int] by {
        if k < last {
            assert(queue2[k] == queue[k]);
        }
    }
    assert forall|k: int| 1 <= k < queue2.len() implies (#[trigger] parent2[k]) < k && parent2[k]
        <= head && depth2[k] == depth2[parent2[k] as int] + 1 && leads(
        rooms,
        queue2[parent2[k] as int] as int,
        queue2[k] as int,
    ) by {
        if k < last {
            assert(parent2[k] == parent[k]);
            assert(queue2[k] == queue[k]);
        } else {
            assert(parent2[k] == head);
            assert(queue2[head] == queue[head]);
            assert(rooms[queue[head] as int]@.exit(d) == Some(name_at(rooms, j as int)));
        }
    }
    assert forall|a: int, b: int| 0 <= a < b < queue2.len() implies (#[trigger] queue2[a]) != (
    #[trigger] queue2[b]) by {
        if b == last {
            assert(queue2[a] == queue[a]);
            assert(seen[queue[a] as int]);
        } else {
            assert(queue2[a] == queue[a] && queue2[b] == queue[b]);
        }
    }
    assert forall|i: int| 0 <= i < rooms.len() && #[trigger] seen2[i] implies exists|k: int|
        0 <= k < queue2.len() && #[trigger] queue2[k] == i by {
        if i == j {
            assert(queue2[last] == i);
        } else {
            assert(seen[i]);
            let k = choose|k: int| 0 <= k < queue.len() && #[trigger] queue[k] == i;
            assert(queue2[k] == i);
        }
    }
    assert forall|a: int, b: int| 0 <= a <= b < queue2.len() implies (#[trigger] depth2[a]) <= (
    #[trigger] depth2[b]) by {
        if b == last {
            if a < last {
                assert(depth[a] <= depth[head] + 1);
            }
        } else {
            assert(depth[a] <= depth[b]);
        }
    }
    assert forall|k: int| 0 <= k < queue2.len() implies (#[trigger] depth2[k]) <= depth2[head]
        + 1 by {
        if k < last {
            assert(depth[k] <= depth[head] + 1);
        }
    }
    assert forall|k: int, other: Direction|
        0 <= k < head || (k == head && head < queue2.len() && turn(other) < done
            + 1) implies #[trigger] explored(rooms, queue2, depth2, k, other) by {
        lemma_turns(other, d);
        assert(queue2[k] == queue[k]);
        assert(depth2[k] == depth[k]);
        if k == head && other == d {
            assert(name_at(rooms, queue2[last] as int) == name_at(rooms, j as int));
            assert(depth2[last] <= depth2[head] + 1);
            assert(reached(rooms, queue2, depth2, name_at(rooms, j as int), depth2[head] + 1));
        } else {
            assert(explored(rooms, queue, depth, k, other));
            match rooms[queue[k] as int]@.exit(other) {
                Some(x) => {
                    lemma_reached_stays(rooms, queue, depth, x, depth[k] + 1, j, depth[head] + 1);
                },
                None => {},
            }
        }
    }
}

/// A room all of whose exits are searched is done with.
pub proof fn lemma_room_done(
    rooms: Seq<Room>,
    start: int,
    queue: Seq<usize>,
    parent: Seq<usize>,
    depth: Seq<int>,
    seen: Seq<bool>,
    head: int,
)
    requires
        searching(rooms, start, queue, parent, depth, seen, head, 4),
        head < queue.len(),
    ensures
        searching(rooms, start, queue, parent, depth, seen, head + 1, 0),
{
    assert forall|k: int| 1 <= k < queue.len() implies (#[trigger] parent[k]) < k && parent[k]
        <= head + 1 && depth[k] == depth[parent[k] as int] + 1 && leads(
        rooms,
        queue[parent[k] as int] as int,
        queue[k] as int,
    ) by {}
    if head + 1 < queue.len() {
        assert forall|k: int| 0 <= k < queue.len() implies (#[trigger] depth[k]) <= depth[head
            + 1] + 1 by {
            assert(depth[k] <= depth[head] + 1);
            assert(depth[head] <= depth[head + 1]);
        }
    }
    assert forall|k: int, d: Direction|
        0 <= k < head + 1 || (k == head + 1 && head + 1 < queue.len() && turn(d)
            < 0) implies #[trigger] explored(rooms, queue, depth, k, d) by {
        lemma_turns(d, d);
    }
}

/// Wherever a walk from the start has come after `i` steps, the search has
/// either found that room, no deeper than `i`, or it is not done with a room
/// that the walk came through before.
pub proof fn lemma_walk_is_followed(
    rooms: Seq<Room>,
    start: int,
    queue: Seq<usize>,
    parent: Seq<usize>,
    depth: Seq<int>,
    seen: Seq<bool>,
    head: int,
    done: int,
    walk: Seq<Seq<char>>,
    i: int,
)
    requires
        searching(rooms, start, queue, parent, depth, seen, head, done),
        is_walk(plan(rooms), walk),
        walk[0] == name_at(rooms, start),
        0 <= i < walk.len(),
    ensures
        reached(rooms, queue, depth, walk[i], i) || waiting(rooms, queue, depth, head, walk, i),
    decreases i,
{
    if i == 0 {
        assert(name_at(rooms, queue[0] as int) == walk[0] && depth[0] <= 0);
    } else {
        lemma_walk_is_followed(rooms, start, queue, parent, depth, seen, head, done, walk, i - 1);
        if waiting(rooms, queue, depth, head, walk, i - 1) {
            let (j, p) = choose|j: int, p: int|
                0 <= j < i - 1 && head <= p < queue.len() && name_at(
                    rooms,
                    #[trigger] queue[p] as int,
                ) == #[trigger] walk[j] && depth[p] <= j;
            assert(0 <= j < i && head <= p < queue.len() && name_at(rooms, queue[p] as int)
                == walk[j] && depth[p] <= j);
        } else {
            let p = choose|p: int|
                0 <= p < queue.len() && name_at(rooms, #[trigger] queue[p] as int) == walk[i - 1]
                    && depth[p] <= i - 1;
            if p >= head {
                assert(0 <= i - 1 < i && head <= p < queue.len() && name_at(
                    rooms,
                    queue[p] as int,
                ) == walk[i - 1] && depth[p] <= i - 1);
            } else {
                lemma_room(rooms, walk[i - 1], queue[p] as int);
                assert(adjacent(plan(rooms), walk[i - 1], walk[i - 1 + 1]));
                let d = choose|d: Direction| #[trigger]
                    plan(rooms)[walk[i - 1]].exit(d) == Some(walk[i]);
                assert(explored(rooms, queue, depth, p, d));
                let q = choose|q: int|
                    0 <= q < queue.len() && name_at(rooms, #[trigger] queue[q] as int) == walk[i]
                        && depth[q] <= depth[p] + 1;
                assert(0 <= q < queue.len() && name_at(rooms, queue[q] as int) == walk[i]
                    && depth[q] <= i);
            }
        }
    }
}

/// The trail of a room in the queue is a walk from the start to that room,
/// of as many steps as the room is deep.
pub proof fn lemma_trail(
    rooms: Seq<Room>,
    start: int,
    queue: Seq<usize>,
    parent: Seq<usize>,
    depth: Seq<int>,
    seen: Seq<bool>,
    head: int,
    done: int,
    k: int,
)
    requires
        searching(rooms, start, queue, parent, depth, seen, head, done),
        0 <= k < queue.len(),
    ensures
        connects(
            plan(rooms),
            trail(rooms, queue, parent, k),
            name_at(rooms, start),
            name_at(rooms, queue[k] as int),
        ),
        trail(rooms, queue, parent, k).len() == depth[k] + 1,
    decreases k,
{
    let here = name_at(rooms, queue[k] as int);
    lemma_room(rooms, here, queue[k] as int);
    if k > 0 {
        let from = parent[k] as int;
        lemma_trail(rooms, start, queue, parent, depth, seen, head, done, from);
        let before = trail(rooms, queue, parent, from);
        let walk = trail(rooms, queue, parent, k);
        assert(walk == before.push(here));
        let there = name_at(rooms, queue[from] as int);
        lemma_room(rooms, there, queue[from] as int);
        assert(leads(rooms, queue[from] as int, queue[k] as int));
        let d = choose|d: Direction| #[trigger]
            rooms[queue[from] as int]@.exit(d) == Some(name_at(rooms, queue[k] as int));
        assert(plan(rooms)[there].exit(d) == Some(here));
        assert(adjacent(plan(rooms), there, here));
        assert forall|i: int| 0 <= i < walk.len() implies plan(rooms).contains_key(
            #[trigger] walk[i],
        ) by {
            if i < before.len() {
                assert(walk[i] == before[i]);
            }
        }
        assert forall|i: int| 0 <= i < walk.len() - 1 implies #[trigger] adjacent(
            plan(rooms),
            walk[i],
            walk[i + 1],
        ) by {
            if i < before.len() - 1 {
                assert(walk[i] == before[i] && walk[i + 1] == before[i + 1]);
                assert(adjacent(plan(rooms), before[i], before[i + 1]));
            } else {
                assert(walk[i] == there && walk[i + 1] == here);
            }
        }
    }
}

/// The number of rooms that a search has not seen.
pub open spec fn unseen(seen: Seq<bool>) -> nat
    decreases seen.len(),
{
    if seen.len() == 0 {
        0
    } else if seen.last() {
        unseen(seen.drop_last())
    } else {
        unseen(seen.drop_last()) + 1
    }
}

/// Seeing a room leaves one room less unseen.
pub proof fn lemma_one_more_seen(seen: Seq<bool>, j: int)
    requires
        0 <= j < seen.len(),
        !seen[j],
    ensures
        unseen(seen.update(j, true)) + 1 == unseen(seen),
    decreases seen.len(),
{
    let after = seen.update(j, true);
    if j == seen.len() - 1 {
        assert(after.drop_last() =~= seen.drop_last());
    } else {
        lemma_one_more_seen(seen.drop_last(), j);
        assert(after.drop_last() =~= seen.drop_last().update(j, true));
    }
}

/// A room that the search is done with, or one of whose exits it has tried,
/// has behind that exit a room of the dungeon, if it has the exit at all.
pub proof fn lemma_explored_is_sound(
    rooms: Seq<Room>,
    start: int,
    queue: Seq<usize>,
    parent: Seq<usize>,
    depth: Seq<int>,
    seen: Seq<bool>,
    head: int,
    done: int,
    p: int,
    d: Direction,
)
    requires
        searching(rooms, start, queue, parent, depth, seen, head, done),
        0 <= p < head || (p == head && head < queue.len() && turn(d) < done),
    ensures
        !dangling(plan(rooms), name_at(rooms, queue[p] as int), d),
{
    let here = name_at(rooms, queue[p] as int);
    lemma_room(rooms, here, queue[p] as int);
    assert(explored(rooms, queue, depth, p, d));
    match rooms[queue[p] as int]@.exit(d) {
        Some(x) => {
            let q = choose|q: int|
                0 <= q < queue.len() && name_at(rooms, #[trigger] queue[q] as int) == x && depth[q]
                    <= depth[p] + 1;
            lemma_room(rooms, x, queue[q] as int);
        },
        None => {},
    }
}

/// A room that a walk from the start reaches in fewer steps than the room at
/// the head of the queue is deep, or any room that a walk reaches once the
/// queue is used up, has no exit that leads out of the dungeon.
pub proof fn lemma_near_rooms_are_sound(
    rooms: Seq<Room>,
    start: int,
    queue: Seq<usize>,
    parent: Seq<usize>,
    depth: Seq<int>,
    seen: Seq<bool>,
    head: int,
    done: int,
    walk: Seq<Seq<char>>,
    d: Direction,
)
    requires
        searching(rooms, start, queue, parent, depth, seen, head, done),
        is_walk(plan(rooms), walk),
        walk[0] == name_at(rooms, start),
        head < queue.len() ==> walk.len() - 1 < depth[head],
    ensures
        !dangling(plan(rooms), walk.last(), d),
{
    let last = walk.len() - 1;
    lemma_walk_is_followed(rooms, start, queue, parent, depth, seen, head, done, walk, last);
    if reached(rooms, queue, depth, walk[last], last) {
        let p = choose|p: int|
            0 <= p < queue.len() && name_at(rooms, #[trigger] queue[p] as int) == walk[last]
                && depth[p] <= last;
        if p >= head {
            assert(depth[head] <= depth[p]);
        }
        lemma_explored_is_sound(rooms, start, queue, parent, depth, seen, head, done, p, d);
    } else {
        let (j, p) = choose|j: int, p: int|
            0 <= j < last && head <= p < queue.len() && name_at(rooms, #[trigger] queue[p] as int)
                == #[trigger] walk[j] && depth[p] <= j;
        assert(depth[head] <= depth[p]);
    }
}

/// While the search has not come to the goal, no walk from the start to the
/// goal is shorter than the trail of the room at the head of the queue.
pub proof fn lemma_goal_is_no_nearer(
    rooms: Seq<Room>,
    start: int,
    queue: Seq<usize>,
    parent: Seq<usize>,
    depth: Seq<int>,
    seen: Seq<bool>,
    head: int,
    done: int,
    goal: int,
    walk: Seq<Seq<char>>,
)
    requires
        searching(rooms, start, queue, parent, depth, seen, head, done),
        head < queue.len(),
        is_last_room(rooms, name_at(rooms, goal), goal),
        forall|k: int| 0 <= k < head ==> queue[k] != goal,
        is_walk(plan(rooms), walk),
        walk[0] == name_at(rooms, start),
        walk.last() == name_at(rooms, goal),
    ensures
        depth[head] + 1 <= walk.len(),
{
    let last = walk.len() - 1;
    lemma_walk_is_followed(rooms, start, queue, parent, depth, seen, head, done, walk, last);
    if reached(rooms, queue, depth, walk[last], last) {
        let p = choose|p: int|
            0 <= p < queue.len() && name_at(rooms, #[trigger] queue[p] as int) == walk[last]
                && depth[p] <= last;
        lemma_last_room_is_unique(rooms, name_at(rooms, goal), goal, queue[p] as int);
        assert(depth[head] <= depth[p]);
    } else {
        let (j, p) = choose|j: int, p: int|
            0 <= j < last && head <= p < queue.len() && name_at(rooms, #[trigger] queue[p] as int)
                == #[trigger] walk[j] && depth[p] <= j;
        assert(depth[head] <= depth[p]);
    }
}

} // verus!
