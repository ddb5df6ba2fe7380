use std::str::FromStr;

use tiny_basic::dungeon::{match_prefix, Direction, Dungeon, Errors};

fn lines_of(text: &str) -> Vec<Result<String, std::io::Error>> {
    text.lines().map(|line| Ok(line.to_string())).collect()
}

fn names(path: &[&tiny_basic::dungeon::Room]) -> Vec<String> {
    path.iter().map(|room| room.name.clone()).collect()
}

const DESCRIPTION: &str = "## Rooms
- Entrance
- Hallway
- Magic Lab
- Treasure Room

## Links
- Entrance -> East -> Hallway
- Hallway -> East -> Magic Lab
- Magic Lab -> North -> Treasure Room
";

#[test]
fn a_new_dungeon_has_no_rooms() {
    let dungeon = Dungeon::new();
    assert!(matches!(dungeon.get_room("Entrance"), Err(Errors::UnknownRoom(name)) if name == "Entrance"));
}

#[test]
fn add_room_refuses_a_second_room_of_the_same_name() {
    let mut dungeon = Dungeon::new();
    assert!(dungeon.add_room("Entrance").is_ok());
    assert!(dungeon.add_room("Hallway").is_ok());
    assert!(matches!(dungeon.add_room("Entrance"), Err(Errors::DuplicateRoom(name)) if name == "Entrance"));
    assert_eq!(dungeon.get_room("Entrance").unwrap().name, "Entrance");
    assert_eq!(dungeon.get_room("Hallway").unwrap().name, "Hallway");
}

#[test]
fn set_link_links_both_ways() {
    let mut dungeon = Dungeon::new();
    dungeon.add_room("Entrance").unwrap();
    dungeon.add_room("Hallway").unwrap();
    dungeon.set_link("Entrance", Direction::East, "Hallway").unwrap();
    assert_eq!(dungeon.get_next_room("Entrance", Direction::East).unwrap().unwrap().name, "Hallway");
    assert_eq!(dungeon.get_next_room("Hallway", Direction::West).unwrap().unwrap().name, "Entrance");
    assert!(dungeon.get_next_room("Entrance", Direction::West).unwrap().is_none());
    assert!(dungeon.get_next_room("Hallway", Direction::East).unwrap().is_none());
    assert!(dungeon.get_next_room("Hallway", Direction::North).unwrap().is_none());
    assert!(dungeon.get_next_room("Hallway", Direction::South).unwrap().is_none());
}

#[test]
fn a_later_link_replaces_an_earlier_one() {
    let mut dungeon = Dungeon::new();
    dungeon.add_room("A").unwrap();
    dungeon.add_room("B").unwrap();
    dungeon.add_room("C").unwrap();
    dungeon.set_link("A", Direction::North, "B").unwrap();
    dungeon.set_link("A", Direction::North, "C").unwrap();
    assert_eq!(dungeon.get_next_room("A", Direction::North).unwrap().unwrap().name, "C");
    assert_eq!(dungeon.get_next_room("B", Direction::South).unwrap().unwrap().name, "A");
    assert_eq!(dungeon.get_next_room("C", Direction::South).unwrap().unwrap().name, "A");
}

#[test]
fn a_room_can_be_linked_to_itself() {
    let mut dungeon = Dungeon::new();
    dungeon.add_room("A").unwrap();
    dungeon.set_link("A", Direction::North, "A").unwrap();
    assert_eq!(dungeon.get_next_room("A", Direction::North).unwrap().unwrap().name, "A");
    assert_eq!(dungeon.get_next_room("A", Direction::South).unwrap().unwrap().name, "A");
}

#[test]
fn set_link_reports_unknown_rooms() {
    let mut dungeon = Dungeon::new();
    dungeon.add_room("A").unwrap();
    assert!(matches!(
        dungeon.set_link("X", Direction::North, "A"),
        Err(Errors::UnknownRoom(name)) if name == "X"
    ));
    assert!(dungeon.get_next_room("A", Direction::South).unwrap().is_none());
    assert!(matches!(
        dungeon.set_link("A", Direction::North, "Y"),
        Err(Errors::UnknownRoom(name)) if name == "Y"
    ));
    assert!(matches!(
        dungeon.get_next_room("A", Direction::North),
        Err(Errors::UnknownRoom(name)) if name == "Y"
    ));
}

#[test]
fn get_next_room_reports_an_unknown_room() {
    let dungeon = Dungeon::new();
    assert!(matches!(
        dungeon.get_next_room("A", Direction::North),
        Err(Errors::UnknownRoom(name)) if name == "A"
    ));
}

#[test]
fn directions_have_opposites_and_names() {
    assert!(Direction::North.opposite() == Direction::South);
    assert!(Direction::South.opposite() == Direction::North);
    assert!(Direction::East.opposite() == Direction::West);
    assert!(Direction::West.opposite() == Direction::East);
    assert!(matches!(Direction::from_str("North"), Ok(Direction::North)));
    assert!(matches!(Direction::from_str("South"), Ok(Direction::South)));
    assert!(matches!(Direction::from_str("East"), Ok(Direction::East)));
    assert!(matches!(Direction::from_str("West"), Ok(Direction::West)));
    assert!(matches!("East".parse::<Direction>(), Ok(Direction::East)));
    assert!(matches!(
        Direction::from_str("north"),
        Err(Errors::DirectionParseError(text)) if text == "north"
    ));
}

#[test]
fn match_prefix_gives_what_follows() {
    assert_eq!(match_prefix("- ", "- Entrance"), Some("Entrance"));
    assert_eq!(match_prefix("- ", "- "), Some(""));
    assert_eq!(match_prefix("", "abc"), Some("abc"));
    assert_eq!(match_prefix("- ", "-Entrance"), None);
    assert_eq!(match_prefix("- ", "-"), None);
    assert_eq!(match_prefix("é-", "é-ü"), Some("ü"));
}

#[test]
fn from_reader_reads_rooms_and_links() {
    let dungeon = Dungeon::from_reader(lines_of(DESCRIPTION)).unwrap();
    assert_eq!(dungeon.get_room("Magic Lab").unwrap().name, "Magic Lab");
    assert_eq!(dungeon.get_next_room("Entrance", Direction::East).unwrap().unwrap().name, "Hallway");
    assert_eq!(dungeon.get_next_room("Hallway", Direction::East).unwrap().unwrap().name, "Magic Lab");
    assert_eq!(
        dungeon.get_next_room("Treasure Room", Direction::South).unwrap().unwrap().name,
        "Magic Lab"
    );
}

#[test]
fn from_reader_names_the_line_that_does_not_fit() {
    let cases: [(&str, usize); 9] = [
        ("", 0),
        ("## Rooms", 0),
        ("# Rooms\n", 1),
        ("## Rooms\n- A\n", 2),
        ("## Rooms\n- A\nB\n", 3),
        ("## Rooms\n- A\n\n", 3),
        ("## Rooms\n- A\n\n## Lynx\n", 4),
        ("## Rooms\n- A\n\n## Links\nA -> North -> A\n", 5),
        ("## Rooms\n- A\n\n## Links\n- A -> North\n", 5),
    ];
    for (text, number) in cases {
        match Dungeon::from_reader(lines_of(text)) {
            Err(Errors::LineParseError { line_number }) => assert_eq!(line_number, number, "{:?}", text),
            Err(other) => panic!("unexpected error for {:?}: {:?}", text, other),
            Ok(_) => panic!("no error for {:?}", text),
        }
    }
}

#[test]
fn from_reader_reports_what_the_dungeon_refuses() {
    assert!(matches!(
        Dungeon::from_reader(lines_of("## Rooms\n- A\n- A\n")),
        Err(Errors::DuplicateRoom(name)) if name == "A"
    ));
    assert!(matches!(
        Dungeon::from_reader(lines_of("## Rooms\n- A\n\n## Links\n- A -> Up -> A\n")),
        Err(Errors::DirectionParseError(text)) if text == "Up"
    ));
    assert!(matches!(
        Dungeon::from_reader(lines_of("## Rooms\n- A\n\n## Links\n- A -> North -> B\n")),
        Err(Errors::UnknownRoom(name)) if name == "B"
    ));
    assert!(matches!(
        Dungeon::from_reader(lines_of("## Rooms\n- A\n\n## Links\n- B -> Up -> A\n")),
        Err(Errors::DirectionParseError(text)) if text == "Up"
    ));
}

#[test]
fn from_reader_takes_headings_with_space_around_them() {
    let dungeon = Dungeon::from_reader(lines_of("  ## Rooms \n- A\n   \n\t## Links\n")).unwrap();
    assert_eq!(dungeon.get_room("A").unwrap().name, "A");
}

#[test]
fn from_reader_hands_on_a_failed_read() {
    let mut lines = lines_of("## Rooms\n- A\n");
    lines.push(Err(std::io::Error::new(std::io::ErrorKind::Other, "lost")));
    lines.push(Ok("garbage".to_string()));
    assert!(matches!(Dungeon::from_reader(lines), Err(Errors::IoError(_))));
    let mut lines = lines_of("## Rooms\nA\n");
    lines.push(Err(std::io::Error::new(std::io::ErrorKind::Other, "lost")));
    assert!(matches!(
        Dungeon::from_reader(lines),
        Err(Errors::LineParseError { line_number: 2 })
    ));
}

#[test]
fn find_path_finds_a_shortest_way() {
    let dungeon = Dungeon::from_reader(lines_of(DESCRIPTION)).unwrap();
    let path = dungeon.find_path("Entrance", "Treasure Room").unwrap().unwrap();
    assert_eq!(names(&path), ["Entrance", "Hallway", "Magic Lab", "Treasure Room"]);
    let path = dungeon.find_path("Treasure Room", "Entrance").unwrap().unwrap();
    assert_eq!(names(&path), ["Treasure Room", "Magic Lab", "Hallway", "Entrance"]);
    let path = dungeon.find_path("Hallway", "Hallway").unwrap().unwrap();
    assert_eq!(names(&path), ["Hallway"]);
}

#[test]
fn find_path_prefers_the_short_way_round() {
    let mut dungeon = Dungeon::new();
    for name in ["A", "B", "C", "D", "E"] {
        dungeon.add_room(name).unwrap();
    }
    dungeon.set_link("A", Direction::North, "B").unwrap();
    dungeon.set_link("B", Direction::North, "C").unwrap();
    dungeon.set_link("C", Direction::North, "D").unwrap();
    dungeon.set_link("D", Direction::North, "E").unwrap();
    dungeon.set_link("A", Direction::East, "D").unwrap();
    let path = dungeon.find_path("A", "E").unwrap().unwrap();
    assert_eq!(names(&path), ["A", "D", "E"]);
}

#[test]
fn find_path_finds_no_way_between_rooms_that_are_not_linked() {
    let mut dungeon = Dungeon::new();
    dungeon.add_room("A").unwrap();
    dungeon.add_room("B").unwrap();
    dungeon.add_room("C").unwrap();
    dungeon.set_link("A", Direction::North, "B").unwrap();
    assert!(dungeon.find_path("A", "C").unwrap().is_none());
    assert!(dungeon.find_path("C", "B").unwrap().is_none());
}

#[test]
fn find_path_reports_unknown_rooms() {
    let mut dungeon = Dungeon::new();
    dungeon.add_room("A").unwrap();
    assert!(matches!(dungeon.find_path("X", "Y"), Err(Errors::UnknownRoom(name)) if name == "X"));
    assert!(matches!(dungeon.find_path("A", "Y"), Err(Errors::UnknownRoom(name)) if name == "Y"));
    assert!(matches!(dungeon.find_path("X", "A"), Err(Errors::UnknownRoom(name)) if name == "X"));
}

#[test]
fn find_path_fails_at_an_exit_to_an_unknown_room() {
    let mut dungeon = Dungeon::new();
    dungeon.add_room("A").unwrap();
    dungeon.add_room("B").unwrap();
    dungeon.add_room("C").unwrap();
    dungeon.set_link("A", Direction::South, "B").unwrap();
    assert!(dungeon.set_link("A", Direction::North, "Nowhere").is_err());
    assert!(matches!(
        dungeon.find_path("A", "C"),
        Err(Errors::UnknownRoom(name)) if name == "Nowhere"
    ));
    let path = dungeon.find_path("B", "B").unwrap().unwrap();
    assert_eq!(names(&path), ["B"]);
}

#[test]
fn find_path_passes_an_unknown_exit_beyond_the_goal() {
    let mut dungeon = Dungeon::new();
    for name in ["A", "B", "C"] {
        dungeon.add_room(name).unwrap();
    }
    dungeon.set_link("A", Direction::North, "B").unwrap();
    dungeon.set_link("B", Direction::North, "C").unwrap();
    assert!(dungeon.set_link("C", Direction::East, "Nowhere").is_err());
    let path = dungeon.find_path("A", "B").unwrap().unwrap();
    assert_eq!(names(&path), ["A", "B"]);
    let path = dungeon.find_path("A", "C").unwrap().unwrap();
    assert_eq!(names(&path), ["A", "B", "C"]);
    assert!(matches!(
        dungeon.find_path("C", "A"),
        Err(Errors::UnknownRoom(name)) if name == "Nowhere"
    ));
}

#[test]
fn find_path_tries_the_exits_in_their_order() {
    let mut dungeon = Dungeon::new();
    dungeon.add_room("A").unwrap();
    dungeon.add_room("B").unwrap();
    assert!(dungeon.set_link("A", Direction::West, "Last").is_err());
    assert!(dungeon.set_link("A", Direction::South, "First").is_err());
    assert!(matches!(
        dungeon.find_path("A", "B"),
        Err(Errors::UnknownRoom(name)) if name == "First"
    ));
}

#[test]
fn a_room_gives_its_name() {
    let mut dungeon = Dungeon::new();
    dungeon.add_room("Hall").unwrap();
    let room = dungeon.get_room("Hall").unwrap();
    assert_eq!(room.name(), "Hall");
    assert_eq!(room.name(), &room.name);
}
