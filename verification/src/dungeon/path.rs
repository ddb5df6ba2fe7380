//! Finding a shortest way from one room to another.
use vstd::prelude::*;
use vstd::string::*;
use crate::dungeon::rooms::{
    is_last_room, lemma_room, plan, Direction, Dungeon, Errors, ErrorsView, Room,
};
use crate::dungeon::search::{
    connects, dangling, fails_at, is_walk, lemma_explored_is_sound, lemma_goal_is_no_nearer,
    lemma_last_room_is_unique, lemma_near_rooms_are_sound, lemma_new_exit, lemma_no_exit,
    lemma_one_more_seen, lemma_room_done, lemma_seen_exit, lemma_trail, lemma_walk_is_followed,
    name_at, names_of, reached, searching, sound, sound_within, trail, turn, unseen,
};
use crate::text::same_text;

verus! {

/// The direction that a search tries at the given turn.
fn direction_at(at: usize) -> (d: Direction)
    requires
        at < 4,
    ensures
        turn(d) == at,
{
    if at == 0 {
        Direction::North
    } else if at == 1 {
        Direction::South
    } else if at == 2 {
        Direction::East
    } else {
        Direction::West
    }
}

/// The names, from the last to the first, of the rooms at the given places
/// of the queue.
pub open spec fn names_back(rooms: Seq<Room>, queue: Seq<usize>, back: Seq<usize>) -> Seq<
    Seq<char>,
> {
    Seq::new(back.len(), |t: int| name_at(rooms, queue[back[back.len() - 1 - t] as int] as int))
}

impl Dungeon {
    /// A shortest way from one room to another: the rooms that it leads
    /// through, from the first to the last, or nothing where there is no way.
    ///
    /// The search goes outward from the first room, one step at a time, and
    /// tries the exits of each room to the north, south, east and west. It
    /// fails where one of the two rooms is unknown, or where it comes to an
    /// exit that leads to an unknown room before it has come to the goal: so
    /// no room nearer than the goal has such an exit where a path is found,
    /// and the goal is no nearer than the room with that exit where the
    /// search fails. In a dungeon all of whose exits lead to rooms it never
    /// fails for rooms that are known.
    pub fn find_path<'a>(&'a self, start_room_name: &str, end_room_name: &str) -> (r: Result<
        Option<Vec<&'a Room>>,
        Errors,
    >)
        ensures
            !self@.contains_key(start_room_name@) ==> (r matches Err(e) && e@
                == ErrorsView::UnknownRoom(start_room_name@)),
            self@.contains_key(start_room_name@) && !self@.contains_key(end_room_name@) ==> (r matches Err(
                e,
            ) && e@ == ErrorsView::UnknownRoom(end_room_name@)),
            self@.contains_key(start_room_name@) && self@.contains_key(end_room_name@) && sound(
                self@,
            ) ==> r is Ok,
            self@.contains_key(start_room_name@) && start_room_name@ == end_room_name@ ==> (r matches Ok(
                Some(path),
            ) && path@.len() == 1),
            match r {
                Ok(Some(path)) => {
                    &&& connects(self@, names_of(path@), start_room_name@, end_room_name@)
                    &&& forall|i: int|
                        0 <= i < path@.len() ==> self@.contains_key((#[trigger] path@[i])@.name)
                            && path@[i]@ == self@[path@[i]@.name]
                    &&& forall|other: Seq<Seq<char>>| #[trigger]
                        connects(self@, other, start_room_name@, end_room_name@) ==> path@.len()
                            <= other.len()
                    &&& sound_within(self@, start_room_name@, path@.len() as int)
                },
                Ok(None) => {
                    &&& forall|walk: Seq<Seq<char>>|
                        !#[trigger] connects(self@, walk, start_room_name@, end_room_name@)
                    &&& forall|length: int| #[trigger]
                        sound_within(self@, start_room_name@, length)
                },
                Err(e) => self@.contains_key(start_room_name@) && self@.contains_key(
                    end_room_name@,
                ) ==> exists|walk: Seq<Seq<char>>, d: Direction| #[trigger]
                    fails_at(self@, start_room_name@, end_room_name@, walk, d) && e@
                        == ErrorsView::UnknownRoom(self@[walk.last()].exit(d)->0),
            },
    {
        let start = match self.find(start_room_name) {
            Some(at) => at,
            None => {
                return Err(Errors::UnknownRoom(start_room_name.to_owned()));
            },
        };
        let end = match self.find(end_room_name) {
            Some(at) => at,
            None => {
                return Err(Errors::UnknownRoom(end_room_name.to_owned()));
            },
        };
        let ghost rooms = self.rooms@;
        proof {
            self.lemma_plan();
        }
        if same_text(start_room_name, end_room_name) {
            let mut path: Vec<&'a Room> = Vec::new();
            path.push(&self.rooms[end]);
            assert(names_of(path@) =~= seq![end_room_name@]);
            return Ok(Some(path));
        }
        let mut seen: Vec<bool> = Vec::new();
        while seen.len() < self.rooms.len()
            invariant
                seen@.len() <= self.rooms@.len(),
                forall|i: int| 0 <= i < seen@.len() ==> !seen@[i],
            decreases self.rooms.len() - seen.len(),
        {
            seen.push(false);
        }
        seen.set(start, true);
        let mut queue: Vec<usize> = Vec::new();
        queue.push(start);
        let mut parent: Vec<usize> = Vec::new();
        parent.push(0);
        let ghost mut depth: Seq<int> = seq![0int];
        let mut head: usize = 0;
        let mut found: Option<usize> = None;
        let ghost total = unseen(seen@) + 1;
        assert(searching(rooms, start as int, queue@, parent@, depth, seen@, 0, 0)) by {
            assert forall|i: int| 0 <= i < rooms.len() && #[trigger] seen@[i] implies exists|
                k: int,
            |
                0 <= k < queue@.len() && #[trigger] queue@[k] == i by {
                assert(queue@[0] == i);
            }
        }
        while head < queue.len()
            invariant_except_break
                found is None,
            invariant
                rooms == self.rooms@,
                self@ == plan(rooms),
                start < rooms.len(),
                end < rooms.len(),
                is_last_room(rooms, end_room_name@, end as int),
                searching(rooms, start as int, queue@, parent@, depth, seen@, head as int, 0),
                forall|k: int| 0 <= k < head ==> queue@[k] != end,
                self@.contains_key(start_room_name@),
                self@.contains_key(end_room_name@),
                start_room_name@ != end_room_name@,
                name_at(rooms, start as int) == start_room_name@,
                unseen(seen@) + queue@.len() == total,
            ensures
                match found {
                    Some(at) => at == head && head < queue@.len() && queue@[at as int] == end,
                    None => head == queue@.len(),
                },
            decreases total - head,
        {
            let current = queue[head];
            if current == end {
                found = Some(head);
                break ;
            }
            let mut at: usize = 0;
            while at < 4
                invariant
                    at <= 4,
                    head < queue.len(),
                    rooms == self.rooms@,
                    self@ == plan(rooms),
                    current == queue@[head as int],
                    current < rooms.len(),
                    current != end,
                    end < rooms.len(),
                    is_last_room(rooms, end_room_name@, end as int),
                    searching(
                        rooms,
                        start as int,
                        queue@,
                        parent@,
                        depth,
                        seen@,
                        head as int,
                        at as int,
                    ),
                    forall|k: int| 0 <= k < head ==> queue@[k] != end,
                    self@.contains_key(start_room_name@),
                    self@.contains_key(end_room_name@),
                    start_room_name@ != end_room_name@,
                    name_at(rooms, start as int) == start_room_name@,
                    unseen(seen@) + queue@.len() == total,
                decreases 4 - at,
            {
                let d = direction_at(at);
                match self.rooms[current].exit(d) {
                    None => {
                        proof {
                            lemma_no_exit(
                                rooms,
                                start as int,
                                queue@,
                                parent@,
                                depth,
                                seen@,
                                head as int,
                                at as int,
                                d,
                            );
                        }
                    },
                    Some(name) => match self.find(name.as_str()) {
                        None => {
                            proof {
                                lemma_trail(
                                    rooms,
                                    start as int,
                                    queue@,
                                    parent@,
                                    depth,
                                    seen@,
                                    head as int,
                                    at as int,
                                    head as int,
                                );
                                let walk = trail(rooms, queue@, parent@, head as int);
                                lemma_room(rooms, walk.last(), current as int);
                                assert(dangling(self@, walk.last(), d));
                                assert forall|earlier: Direction|
                                    turn(earlier) < turn(d) implies !#[trigger] dangling(
                                    self@,
                                    walk.last(),
                                    earlier,
                                ) by {
                                    lemma_explored_is_sound(
                                        rooms,
                                        start as int,
                                        queue@,
                                        parent@,
                                        depth,
                                        seen@,
                                        head as int,
                                        at as int,
                                        head as int,
                                        earlier,
                                    );
                                }
                                assert forall|near: Seq<Seq<char>>, way: Direction|
                                    #![trigger is_walk(self@, near), dangling(self@, near.last(), way)]
                                    is_walk(self@, near) && near[0] == start_room_name@ && near.len()
                                        < walk.len() implies !dangling(self@, near.last(), way) by {
                                    lemma_near_rooms_are_sound(
                                        rooms,
                                        start as int,
                                        queue@,
                                        parent@,
                                        depth,
                                        seen@,
                                        head as int,
                                        at as int,
                                        near,
                                        way,
                                    );
                                }
                                assert forall|way: Seq<Seq<char>>| #[trigger]
                                    connects(
                                        self@,
                                        way,
                                        start_room_name@,
                                        end_room_name@,
                                    ) implies walk.len() <= way.len() by {
                                    lemma_goal_is_no_nearer(
                                        rooms,
                                        start as int,
                                        queue@,
                                        parent@,
                                        depth,
                                        seen@,
                                        head as int,
                                        at as int,
                                        end as int,
                                        way,
                                    );
                                }
                                assert(fails_at(
                                    self@,
                                    start_room_name@,
                                    end_room_name@,
                                    walk,
                                    d,
                                ));
                            }
                            return Err(Errors::UnknownRoom(name.clone()));
                        },
                        Some(next) => {
                            if seen[next] {
                                proof {
                                    lemma_seen_exit(
                                        rooms,
                                        start as int,
                                        queue@,
                                        parent@,
                                        depth,
                                        seen@,
                                        head as int,
                                        at as int,
                                        d,
                                        next as int,
                                    );
                                }
                            } else {
                                proof {
                                    lemma_new_exit(
                                        rooms,
                                        start as int,
                                        queue@,
                                        parent@,
                                        depth,
                                        seen@,
                                        head as int,
                                        at as int,
                                        d,
                                        next,
                                    );
                                    depth = depth.push(depth[head as int] + 1);
                                    lemma_one_more_seen(seen@, next as int);
                                }
                                seen.set(next, true);
                                queue.push(next);
                                parent.push(head);
                            }
                        },
                    },
                }
                at += 1;
            }
            proof {
                lemma_room_done(rooms, start as int, queue@, parent@, depth, seen@, head as int);
            }
            head += 1;
        }
        match found {
            None => {
                proof {
                    assert forall|walk: Seq<Seq<char>>|
                        !#[trigger] connects(self@, walk, start_room_name@, end_room_name@) by {
                        if connects(self@, walk, start_room_name@, end_room_name@) {
                            let last = walk.len() - 1;
                            lemma_walk_is_followed(
                                rooms,
                                start as int,
                                queue@,
                                parent@,
                                depth,
                                seen@,
                                head as int,
                                0,
                                walk,
                                last,
                            );
                            if reached(rooms, queue@, depth, walk[last], last) {
                                let p = choose|p: int|
                                    0 <= p < queue@.len() && name_at(
                                        rooms,
                                        #[trigger] queue@[p] as int,
                                    ) == walk[last] && depth[p] <= last;
                                lemma_last_room_is_unique(
                                    rooms,
                                    end_room_name@,
                                    end as int,
                                    queue@[p] as int,
                                );
                            }
                        }
                    }
                    assert forall|near: Seq<Seq<char>>, way: Direction|
                        #![trigger is_walk(self@, near), dangling(self@, near.last(), way)]
                        is_walk(self@, near) && near[0] == start_room_name@ implies !dangling(
                        self@,
                        near.last(),
                        way,
                    ) by {
                        lemma_near_rooms_are_sound(
                            rooms,
                            start as int,
                            queue@,
                            parent@,
                            depth,
                            seen@,
                            head as int,
                            0,
                            near,
                            way,
                        );
                    }
                }
                Ok(None)
            },
            Some(found_at) => {
                let mut back: Vec<usize> = Vec::new();
                back.push(found_at);
                let mut k: usize = found_at;
                proof {
                    lemma_trail(
                        rooms,
                        start as int,
                        queue@,
                        parent@,
                        depth,
                        seen@,
                        head as int,
                        0,
                        found_at as int,
                    );
                    assert(trail(rooms, queue@, parent@, k as int).drop_last() + names_back(
                        rooms,
                        queue@,
                        back@,
                    ) =~= trail(rooms, queue@, parent@, found_at as int));
                }
                while k > 0
                    invariant
                        k < queue@.len(),
                        found_at < queue@.len(),
                        searching(
                            rooms,
                            start as int,
                            queue@,
                            parent@,
                            depth,
                            seen@,
                            head as int,
                            0,
                        ),
                        back@.len() >= 1,
                        forall|m: int| 0 <= m < back@.len() ==> (#[trigger] back@[m]) < queue@.len(),
                        trail(rooms, queue@, parent@, k as int).drop_last() + names_back(
                            rooms,
                            queue@,
                            back@,
                        ) == trail(rooms, queue@, parent@, found_at as int),
                    decreases k,
                {
                    let ghost old_back = back@;
                    let ghost old_k = k;
                    k = parent[k];
                    back.push(k);
                    proof {
                        lemma_trail(
                            rooms,
                            start as int,
                            queue@,
                            parent@,
                            depth,
                            seen@,
                            head as int,
                            0,
                            k as int,
                        );
                        let before = trail(rooms, queue@, parent@, k as int);
                        assert(trail(rooms, queue@, parent@, old_k as int).drop_last() =~= before);
                        assert(names_back(rooms, queue@, back@) =~= seq![
                            name_at(rooms, queue@[k as int] as int),
                        ] + names_back(rooms, queue@, old_back));
                        assert(before =~= before.drop_last() + seq![
                            name_at(rooms, queue@[k as int] as int),
                        ]);
                        assert(before.drop_last() + names_back(rooms, queue@, back@) =~= before
                            + names_back(rooms, queue@, old_back));
                    }
                }
                assert(names_back(rooms, queue@, back@) =~= trail(
                    rooms,
                    queue@,
                    parent@,
                    found_at as int,
                )) by {
                    assert(trail(rooms, queue@, parent@, 0).drop_last() =~= Seq::<
                        Seq<char>,
                    >::empty());
                }
                let mut path: Vec<&'a Room> = Vec::new();
                let mut t: usize = back.len();
                while t > 0
                    invariant
                        t <= back@.len(),
                        rooms == self.rooms@,
                        path@.len() == back@.len() - t,
                        forall|m: int| 0 <= m < back@.len() ==> (#[trigger] back@[m]) < queue@.len(),
                        forall|m: int| 0 <= m < queue@.len() ==> (#[trigger] queue@[m]) < rooms.len(),
                        forall|m: int|
                            0 <= m < path@.len() ==> *(#[trigger] path@[m]) == rooms[queue@[back@[back@.len()
                                - 1 - m] as int] as int],
                    decreases t,
                {
                    t -= 1;
                    path.push(&self.rooms[queue[back[t]]]);
                }
                proof {
                    let way = trail(rooms, queue@, parent@, found_at as int);
                    assert(names_of(path@) =~= way);
                    lemma_last_room_is_unique(
                        rooms,
                        end_room_name@,
                        end as int,
                        queue@[found_at as int] as int,
                    );
                    assert forall|i: int| 0 <= i < path@.len() implies self@.contains_key(
                        (#[trigger] path@[i])@.name,
                    ) && path@[i]@ == self@[path@[i]@.name] by {
                        let at = queue@[back@[back@.len() - 1 - i] as int] as int;
                        lemma_room(rooms, name_at(rooms, at), at);
                    }
                    lemma_trail(
                        rooms,
                        start as int,
                        queue@,
                        parent@,
                        depth,
                        seen@,
                        head as int,
                        0,
                        found_at as int,
                    );
                    assert forall|other: Seq<Seq<char>>| #[trigger]
                        connects(self@, other, start_room_name@, end_room_name@) implies path@.len()
                        <= other.len() by {
                        lemma_goal_is_no_nearer(
                            rooms,
                            start as int,
                            queue@,
                            parent@,
                            depth,
                            seen@,
                            head as int,
                            0,
                            end as int,
                            other,
                        );
                    }
                    assert forall|near: Seq<Seq<char>>, way: Direction|
                        #![trigger is_walk(self@, near), dangling(self@, near.last(), way)]
                        is_walk(self@, near) && near[0] == start_room_name@ && near.len()
                            < path@.len() implies !dangling(self@, near.last(), way) by {
                        lemma_near_rooms_are_sound(
                            rooms,
                            start as int,
                            queue@,
                            parent@,
                            depth,
                            seen@,
                            head as int,
                            0,
                            near,
                            way,
                        );
                    }
                }
                Ok(Some(path))
            },
        }
    }
}

} // verus!
