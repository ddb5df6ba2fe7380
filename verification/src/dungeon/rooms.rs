//! Rooms, the links between them, and the dungeon that holds them.
use vstd::prelude::*;
use vstd::string::*;
use crate::text::{chars_of, same_text};

verus! {

/// What can go wrong while a dungeon is built, read or walked.
#[derive(Debug)]
pub enum Errors {
    /// A room of this name is there already.
    DuplicateRoom(String),
    /// No room has this name.
    UnknownRoom(String),
    /// Reading the description failed.
    IoError(std::io::Error),
    /// The line with this number, counted from one, is malformed.
    LineParseError { line_number: usize },
    /// This text names no direction.
    DirectionParseError(String),
}

/// An `Errors` value with its texts as sequences of characters.
pub enum ErrorsView {
    DuplicateRoom(Seq<char>),
    UnknownRoom(Seq<char>),
    IoError,
    LineParseError { line_number: usize },
    DirectionParseError(Seq<char>),
}

impl View for Errors {
    type V = ErrorsView;

    open spec fn view(&self) -> ErrorsView {
        match self {
            Errors::DuplicateRoom(name) => ErrorsView::DuplicateRoom(name@),
            Errors::UnknownRoom(name) => ErrorsView::UnknownRoom(name@),
            Errors::IoError(_) => ErrorsView::IoError,
            Errors::LineParseError { line_number } => ErrorsView::LineParseError {
                line_number: *line_number,
            },
            Errors::DirectionParseError(text) => ErrorsView::DirectionParseError(text@),
        }
    }
}

/// One of the four ways out of a room.
#[derive(Debug, Clone, Copy, PartialEq, Eq, Hash, Structural)]
pub enum Direction {
    North,
    South,
    East,
    West,
}

/// The direction that a text names, if it names one.
pub open spec fn direction_of(s: Seq<char>) -> Option<Direction> {
    if s == seq!['N', 'o', 'r', 't', 'h'] {
        Some(Direction::North)
    } else if s == seq!['S', 'o', 'u', 't', 'h'] {
        Some(Direction::South)
    } else if s == seq!['E', 'a', 's', 't'] {
        Some(Direction::East)
    } else if s == seq!['W', 'e', 's', 't'] {
        Some(Direction::West)
    } else {
        None
    }
}

impl Direction {
    /// The direction that leads back.
    pub open spec fn reverse(self) -> Direction {
        match self {
            Direction::North => Direction::South,
            Direction::South => Direction::North,
            Direction::East => Direction::West,
            Direction::West => Direction::East,
        }
    }

    /// The direction that leads back.
    pub fn opposite(&self) -> (back: Direction)
        ensures
            back == self.reverse(),
    {
        match self {
            Direction::North => Direction::South,
            Direction::South => Direction::North,
            Direction::East => Direction::West,
            Direction::West => Direction::East,
        }
    }

}

impl core::str::FromStr for Direction {
    type Err = Errors;

    /// The direction that `s` names: `North`, `South`, `East` or `West`.
    fn from_str(s: &str) -> (r: Result<Direction, Errors>)
        ensures
            match direction_of(s@) {
                Some(d) => r matches Ok(x) && x == d,
                None => r matches Err(e) && e@ == ErrorsView::DirectionParseError(s@),
            },
    {
        proof {
            reveal_strlit("North");
            reveal_strlit("South");
            reveal_strlit("East");
            reveal_strlit("West");
            assert("North"@ =~= seq!['N', 'o', 'r', 't', 'h']);
            assert("South"@ =~= seq!['S', 'o', 'u', 't', 'h']);
            assert("East"@ =~= seq!['E', 'a', 's', 't']);
            assert("West"@ =~= seq!['W', 'e', 's', 't']);
        }
        if same_text(s, "North") {
            Ok(Direction::North)
        } else if same_text(s, "South") {
            Ok(Direction::South)
        } else if same_text(s, "East") {
            Ok(Direction::East)
        } else if same_text(s, "West") {
            Ok(Direction::West)
        } else {
            Err(Errors::DirectionParseError(s.to_owned()))
        }
    }
}

/// A room: its name, and the name of the room behind each of its exits.
#[derive(Debug, Default)]
pub struct Room {
    pub name: String,
    north: Option<String>,
    south: Option<String>,
    east: Option<String>,
    west: Option<String>,
}

/// A `Room` with its texts as sequences of characters.
pub struct RoomView {
    pub name: Seq<char>,
    pub north: Option<Seq<char>>,
    pub south: Option<Seq<char>>,
    pub east: Option<Seq<char>>,
    pub west: Option<Seq<char>>,
}

impl RoomView {
    /// A room without exits.
    pub open spec fn closed_off(name: Seq<char>) -> RoomView {
        RoomView { name, north: None, south: None, east: None, west: None }
    }

    /// The name of the room behind the exit in `direction`, if there is one.
    pub open spec fn exit(self, direction: Direction) -> Option<Seq<char>> {
        match direction {
            Direction::North => self.north,
            Direction::South => self.south,
            Direction::East => self.east,
            Direction::West => self.west,
        }
    }

    /// The room with its exit in `direction` leading to `target`.
    pub open spec fn with_exit(self, direction: Direction, target: Seq<char>) -> RoomView {
        match direction {
            Direction::North => RoomView { north: Some(target), ..self },
            Direction::South => RoomView { south: Some(target), ..self },
            Direction::East => RoomView { east: Some(target), ..self },
            Direction::West => RoomView { west: Some(target), ..self },
        }
    }
}

/// An optional string by its characters.
pub open spec fn text_of(s: Option<String>) -> Option<Seq<char>> {
    match s {
        Some(s) => Some(s@),
        None => None,
    }
}

impl View for Room {
    type V = RoomView;

    closed spec fn view(&self) -> RoomView {
        RoomView {
            name: self.name@,
            north: text_of(self.north),
            south: text_of(self.south),
            east: text_of(self.east),
            west: text_of(self.west),
        }
    }
}

impl Room {
    /// The name of the room: the field `name`, which is the name that
    /// contracts speak of.
    pub fn name(&self) -> (name: &String)
        ensures
            name@ == self@.name,
    {
        &self.name
    }

    /// A room without exits.
    pub fn new(name: &str) -> (room: Room)
        ensures
            room@ == RoomView::closed_off(name@),
    {
        Room { name: name.to_owned(), north: None, south: None, east: None, west: None }
    }

    /// The name of the room behind the exit in `direction`, if there is one.
    pub fn exit(&self, direction: Direction) -> (target: Option<&String>)
        ensures
            text_of_ref(target) == self@.exit(direction),
    {
        match direction {
            Direction::North => self.north.as_ref(),
            Direction::South => self.south.as_ref(),
            Direction::East => self.east.as_ref(),
            Direction::West => self.west.as_ref(),
        }
    }

    /// The same room with its exit in `direction` leading to `target`.
    fn linked(&self, direction: Direction, target: &str) -> (room: Room)
        ensures
            room@ == self@.with_exit(direction, target@),
    {
        let mut room = Room {
            name: self.name.clone(),
            north: self.north.clone(),
            south: self.south.clone(),
            east: self.east.clone(),
            west: self.west.clone(),
        };
        match direction {
            Direction::North => {
                room.north = Some(target.to_owned());
            },
            Direction::South => {
                room.south = Some(target.to_owned());
            },
            Direction::East => {
                room.east = Some(target.to_owned());
            },
            Direction::West => {
                room.west = Some(target.to_owned());
            },
        }
        room
    }
}

/// An optional reference to a string by its characters.
pub open spec fn text_of_ref(s: Option<&String>) -> Option<Seq<char>> {
    match s {
        Some(s) => Some(s@),
        None => None,
    }
}

/// The map that a list of rooms stands for: each room under its name, a
/// later room hiding an earlier one of the same name.
pub open spec fn plan(rooms: Seq<Room>) -> Map<Seq<char>, RoomView>
    decreases rooms.len(),
{
    if rooms.len() == 0 {
        Map::empty()
    } else {
        plan(rooms.drop_last()).insert(rooms.last()@.name, rooms.last()@)
    }
}

/// Whether `at` is the last room of the list with the name `name`.
pub open spec fn is_last_room(rooms: Seq<Room>, name: Seq<char>, at: int) -> bool {
    &&& 0 <= at < rooms.len()
    &&& rooms[at]@.name == name
    &&& forall|k: int| at < k < rooms.len() ==> (#[trigger] rooms[k])@.name != name
}

/// A name that no room of the list has is not in the plan.
pub proof fn lemma_no_room(rooms: Seq<Room>, name: Seq<char>)
    requires
        forall|k: int| 0 <= k < rooms.len() ==> (#[trigger] rooms[k])@.name != name,
    ensures
        !plan(rooms).contains_key(name),
    decreases rooms.len(),
{
    if rooms.len() > 0 {
        lemma_no_room(rooms.drop_last(), name);
    }
}

/// The plan holds, under a name, the last room of the list with that name.
pub proof fn lemma_room(rooms: Seq<Room>, name: Seq<char>, at: int)
    requires
        is_last_room(rooms, name, at),
    ensures
        plan(rooms).contains_key(name),
        plan(rooms)[name] == rooms[at]@,
    decreases rooms.len(),
{
    if at < rooms.len() - 1 {
        lemma_room(rooms.drop_last(), name, at);
    }
}

/// Replacing the last room of a name by another of that name replaces it in
/// the plan.
pub proof fn lemma_room_replaced(rooms: Seq<Room>, at: int, room: Room)
    requires
        is_last_room(rooms, room@.name, at),
    ensures
        plan(rooms.update(at, room)) == plan(rooms).insert(room@.name, room@),
    decreases rooms.len(),
{
    let changed = rooms.update(at, room);
    if at < rooms.len() - 1 {
        lemma_room_replaced(rooms.drop_last(), at, room);
        assert(changed.drop_last() =~= rooms.drop_last().update(at, room));
    } else {
        assert(changed.drop_last() =~= rooms.drop_last());
    }
}

/// Every room of the plan stands under its own name.
pub proof fn lemma_plan_names(rooms: Seq<Room>)
    ensures
        forall|name: Seq<char>| #[trigger]
            plan(rooms).contains_key(name) ==> plan(rooms)[name].name == name,
    decreases rooms.len(),
{
    if rooms.len() > 0 {
        lemma_plan_names(rooms.drop_last());
    }
}

/// A dungeon: its rooms by name.
pub struct Dungeon {
    pub(super) rooms: Vec<Room>,
}

impl View for Dungeon {
    type V = Map<Seq<char>, RoomView>;

    closed spec fn view(&self) -> Map<Seq<char>, RoomView> {
        plan(self.rooms@)
    }
}

impl Dungeon {
    /// A dungeon without rooms.
    pub fn new() -> (dungeon: Dungeon)
        ensures
            dungeon@ == Map::<Seq<char>, RoomView>::empty(),
    {
        Dungeon { rooms: Vec::new() }
    }

    /// Every room of the dungeon stands under its own name.
    pub proof fn lemma_names(&self)
        ensures
            forall|name: Seq<char>| #[trigger]
                self@.contains_key(name) ==> self@[name].name == name,
    {
        lemma_plan_names(self.rooms@);
    }

    /// The dungeon is the plan of its list of rooms.
    pub(super) proof fn lemma_plan(&self)
        ensures
            self@ == plan(self.rooms@),
    {
    }

    /// The index of the last room with the name `name`, if there is one.
    pub(super) fn find(&self, name: &str) -> (found: Option<usize>)
        ensures
            match found {
                Some(at) => is_last_room(self.rooms@, name@, at as int) && self@.contains_key(
                    name@,
                ) && self@[name@] == self.rooms@[at as int]@,
                None => !self@.contains_key(name@),
            },
    {
        let mut i: usize = self.rooms.len();
        while i > 0
            invariant
                i <= self.rooms.len(),
                forall|k: int| i <= k < self.rooms@.len() ==> (#[trigger] self.rooms@[k])@.name
                    != name@,
            decreases i,
        {
            i -= 1;
            if same_text(self.rooms[i].name.as_str(), name) {
                proof {
                    lemma_room(self.rooms@, name@, i as int);
                }
                return Some(i);
            }
        }
        proof {
            lemma_no_room(self.rooms@, name@);
        }
        None
    }

    /// Adds a room without exits, unless a room of that name is there.
    pub fn add_room(&mut self, name: &str) -> (r: Result<(), Errors>)
        ensures
            match r {
                Ok(_) => !old(self)@.contains_key(name@) && final(self)@ == old(self)@.insert(
                    name@,
                    RoomView::closed_off(name@),
                ),
                Err(e) => old(self)@.contains_key(name@) && final(self)@ == old(self)@ && e@
                    == ErrorsView::DuplicateRoom(name@),
            },
    {
        match self.find(name) {
            Some(_) => Err(Errors::DuplicateRoom(name.to_owned())),
            None => {
                self.rooms.push(Room::new(name));
                assert(self.rooms@.drop_last() =~= old(self).rooms@);
                Ok(())
            },
        }
    }

    /// Links `room_name` to `other_room_name` in `direction`, and back in
    /// the opposite direction.
    ///
    /// The first link is made as soon as the first room is found: where the
    /// second room is unknown, it stays in place although the call fails.
    pub fn set_link(&mut self, room_name: &str, direction: Direction, other_room_name: &str) -> (r:
        Result<(), Errors>)
        ensures
            final(self)@ == linked(old(self)@, room_name@, direction, other_room_name@).0,
            match r {
                Ok(_) => linked(old(self)@, room_name@, direction, other_room_name@).1 is None,
                Err(e) => linked(old(self)@, room_name@, direction, other_room_name@).1 == Some(
                    e@,
                ),
            },
    {
        let at = match self.find(room_name) {
            Some(at) => at,
            None => {
                return Err(Errors::UnknownRoom(room_name.to_owned()));
            },
        };
        let room = self.rooms[at].linked(direction, other_room_name);
        proof {
            lemma_room_replaced(self.rooms@, at as int, room);
        }
        self.rooms.set(at, room);
        let other_at = match self.find(other_room_name) {
            Some(at) => at,
            None => {
                return Err(Errors::UnknownRoom(other_room_name.to_owned()));
            },
        };
        let other = self.rooms[other_at].linked(direction.opposite(), room_name);
        proof {
            lemma_room_replaced(self.rooms@, other_at as int, other);
        }
        self.rooms.set(other_at, other);
        Ok(())
    }

    /// The room with the name `room_name`.
    pub fn get_room(&self, room_name: &str) -> (r: Result<&Room, Errors>)
        ensures
            match r {
                Ok(room) => self@.contains_key(room_name@) && room@ == self@[room_name@],
                Err(e) => !self@.contains_key(room_name@) && e@ == ErrorsView::UnknownRoom(
                    room_name@,
                ),
            },
    {
        match self.find(room_name) {
            Some(at) => Ok(&self.rooms[at]),
            None => Err(Errors::UnknownRoom(room_name.to_owned())),
        }
    }

    /// The room behind the exit of `room_name` in `direction`, if that exit
    /// is there.
    pub fn get_next_room(&self, room_name: &str, direction: Direction) -> (r: Result<
        Option<&Room>,
        Errors,
    >)
        ensures
            match next_room(self@, room_name@, direction) {
                Ok(Some(name)) => r matches Ok(Some(room)) && room@ == self@[name],
                Ok(None) => r matches Ok(None),
                Err(e) => r matches Err(x) && x@ == e,
            },
    {
        let room = match self.find(room_name) {
            Some(at) => &self.rooms[at],
            None => {
                return Err(Errors::UnknownRoom(room_name.to_owned()));
            },
        };
        match room.exit(direction) {
            Some(other_room_name) => match self.find(other_room_name.as_str()) {
                Some(at) => Ok(Some(&self.rooms[at])),
                None => Err(Errors::UnknownRoom(other_room_name.clone())),
            },
            None => Ok(None),
        }
    }
}

/// What `set_link` makes of a dungeon, and the error it ends with, if any.
pub open spec fn linked(
    rooms: Map<Seq<char>, RoomView>,
    room: Seq<char>,
    direction: Direction,
    other: Seq<char>,
) -> (Map<Seq<char>, RoomView>, Option<ErrorsView>) {
    if !rooms.contains_key(room) {
        (rooms, Some(ErrorsView::UnknownRoom(room)))
    } else {
        let first = rooms.insert(room, rooms[room].with_exit(direction, other));
        if !first.contains_key(other) {
            (first, Some(ErrorsView::UnknownRoom(other)))
        } else {
            (first.insert(other, first[other].with_exit(direction.reverse(), room)), None)
        }
    }
}

/// The name of the room behind the exit of `room` in `direction`: nothing
/// where the room has no such exit, an error where the room or the one
/// behind the exit is unknown.
pub open spec fn next_room(rooms: Map<Seq<char>, RoomView>, room: Seq<char>, direction: Direction)
    -> Result<Option<Seq<char>>, ErrorsView> {
    if !rooms.contains_key(room) {
        Err(ErrorsView::UnknownRoom(room))
    } else {
        match rooms[room].exit(direction) {
            None => Ok(None),
            Some(other) => if rooms.contains_key(other) {
                Ok(Some(other))
            } else {
                Err(ErrorsView::UnknownRoom(other))
            },
        }
    }
}

/// What follows `prefix` in `input`, if `input` starts with it.
pub open spec fn after_prefix(prefix: Seq<char>, input: Seq<char>) -> Option<Seq<char>> {
    if prefix.len() <= input.len() && input.take(prefix.len() as int) == prefix {
        Some(input.skip(prefix.len() as int))
    } else {
        None
    }
}

/// What follows `prefix` in `input`, if `input` starts with it.
pub fn match_prefix<'a, 'b>(prefix: &'a str, input: &'b str) -> (rest: Option<&'b str>)
    ensures
        match after_prefix(prefix@, input@) {
            Some(text) => rest matches Some(r) && r@ == text,
            None => rest is None,
        },
{
    let p = chars_of(prefix);
    let s = chars_of(input);
    if p.len() > s.len() {
        return None;
    }
    let mut i: usize = 0;
    while i < p.len()
        invariant
            i <= p.len() <= s.len(),
            p@ == prefix@,
            s@ == input@,
            forall|k: int| 0 <= k < i ==> p@[k] == s@[k],
        decreases p.len() - i,
    {
        if p[i] != s[i] {
            return None;
        }
        i += 1;
    }
    assert(s@.take(p@.len() as int) =~= p@);
    Some(input.substring_char(p.len(), s.len()))
}

/// Turning round twice is not turning at all, and no direction leads back
/// by itself.
pub proof fn lemma_reverse(direction: Direction)
    ensures
        direction.reverse().reverse() == direction,
        direction.reverse() != direction,
{
}

/// A link that was set leads from the first room to the second, and from the
/// second back to the first in the opposite direction.
pub proof fn lemma_link_goes_both_ways(
    rooms: Map<Seq<char>, RoomView>,
    room: Seq<char>,
    direction: Direction,
    other: Seq<char>,
)
    requires
        linked(rooms, room, direction, other).1 is None,
    ensures
        next_room(linked(rooms, room, direction, other).0, room, direction) == Ok::<
            Option<Seq<char>>,
            ErrorsView,
        >(Some(other)),
        next_room(linked(rooms, room, direction, other).0, other, direction.reverse()) == Ok::<
            Option<Seq<char>>,
            ErrorsView,
        >(Some(room)),
{
}

/// Setting a link keeps the rooms that there are, and their names.
pub proof fn lemma_link_keeps_rooms(
    rooms: Map<Seq<char>, RoomView>,
    room: Seq<char>,
    direction: Direction,
    other: Seq<char>,
    name: Seq<char>,
)
    ensures
        linked(rooms, room, direction, other).0.contains_key(name) == rooms.contains_key(name),
        rooms.contains_key(name) ==> linked(rooms, room, direction, other).0[name].name
            == rooms[name].name,
{
}

} // verus!
