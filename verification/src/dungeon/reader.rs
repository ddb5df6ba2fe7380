//! Reading a dungeon from its description, line by line.
use core::str::FromStr;
use vstd::prelude::*;
use vstd::string::*;
use crate::dungeon::rooms::{
    after_prefix, direction_of, linked, match_prefix, Direction, Dungeon, Errors, ErrorsView,
    RoomView,
};
use crate::text::{chars_of, same_text, string_of};
use crate::words::{pieces, split_on, trim_bounds, trimmed};

verus! {

/// The lines of a description as contracts see them: the text of each line
/// that was read, and nothing for one whose reading failed.
pub open spec fn texts_of(lines: Seq<Result<String, std::io::Error>>) -> Seq<Option<Seq<char>>> {
    lines.map_values(
        |line: Result<String, std::io::Error>|
            match line {
                Ok(text) => Some(text@),
                Err(_) => None,
            },
    )
}

/// The dungeon that the link lines from index `i` on make of `rooms`.
///
/// A link line is `- `, a room, a direction and another room, with ` -> `
/// between the three.
pub open spec fn with_links(lines: Seq<Option<Seq<char>>>, i: int, rooms: Map<Seq<char>, RoomView>)
    -> Result<Map<Seq<char>, RoomView>, ErrorsView>
    decreases lines.len() - i,
{
    if i < 0 || i >= lines.len() {
        Ok(rooms)
    } else {
        match lines[i] {
            None => Err(ErrorsView::IoError),
            Some(line) => match after_prefix("- "@, line) {
                None => Err(ErrorsView::LineParseError { line_number: (i + 1) as usize }),
                Some(link) => {
                    let parts = pieces(link, " -> "@);
                    if parts.len() != 3 {
                        Err(ErrorsView::LineParseError { line_number: (i + 1) as usize })
                    } else {
                        match direction_of(parts[1]) {
                            None => Err(ErrorsView::DirectionParseError(parts[1])),
                            Some(direction) => match linked(rooms, parts[0], direction, parts[2]) {
                                (_, Some(e)) => Err(e),
                                (next, None) => with_links(lines, i + 1, next),
                            },
                        }
                    }
                },
            },
        }
    }
}

/// The dungeon that the lines from index `i` on make of `rooms`, where line
/// `i` has to be the heading of the links.
pub open spec fn with_links_section(
    lines: Seq<Option<Seq<char>>>,
    i: int,
    rooms: Map<Seq<char>, RoomView>,
    last_read: usize,
) -> Result<Map<Seq<char>, RoomView>, ErrorsView> {
    if i < 0 || i >= lines.len() {
        Err(ErrorsView::LineParseError { line_number: last_read })
    } else {
        match lines[i] {
            None => Err(ErrorsView::IoError),
            Some(line) => if trimmed(line) == "## Links"@ {
                with_links(lines, i + 1, rooms)
            } else {
                Err(ErrorsView::LineParseError { line_number: (i + 1) as usize })
            },
        }
    }
}

/// The dungeon that the lines from index `i` on make of `rooms`, where the
/// room lines go on at line `i`: each is `- ` and a name, and a blank line
/// ends them. `last_read` is the number of the last room line read, zero if
/// there was none.
pub open spec fn with_rooms(
    lines: Seq<Option<Seq<char>>>,
    i: int,
    rooms: Map<Seq<char>, RoomView>,
    last_read: usize,
) -> Result<Map<Seq<char>, RoomView>, ErrorsView>
    decreases lines.len() - i,
{
    if i < 0 || i >= lines.len() {
        with_links_section(lines, i, rooms, last_read)
    } else {
        match lines[i] {
            None => Err(ErrorsView::IoError),
            Some(line) => if trimmed(line).len() == 0 {
                with_links_section(lines, i + 1, rooms, (i + 1) as usize)
            } else {
                match after_prefix("- "@, line) {
                    None => Err(ErrorsView::LineParseError { line_number: (i + 1) as usize }),
                    Some(name) => if rooms.contains_key(name) {
                        Err(ErrorsView::DuplicateRoom(name))
                    } else {
                        with_rooms(
                            lines,
                            i + 1,
                            rooms.insert(name, RoomView::closed_off(name)),
                            (i + 1) as usize,
                        )
                    },
                }
            },
        }
    }
}

/// The dungeon that a description spells: the heading `## Rooms`, one line
/// for each room, a blank line, the heading `## Links`, and one line for each
/// link. A line that does not fit is reported by its number, counted from
/// one.
pub open spec fn dungeon_of(lines: Seq<Option<Seq<char>>>) -> Result<
    Map<Seq<char>, RoomView>,
    ErrorsView,
> {
    if lines.len() == 0 {
        Err(ErrorsView::LineParseError { line_number: 0 })
    } else {
        match lines[0] {
            None => Err(ErrorsView::IoError),
            Some(line) => if trimmed(line) == "## Rooms"@ {
                with_rooms(lines, 1, Map::empty(), 0)
            } else {
                Err(ErrorsView::LineParseError { line_number: 1 })
            },
        }
    }
}

/// Hands out the error of the line at index `i`, whose reading failed, as it
/// came from the reader. The line leaves the list, and the last line of the
/// list takes its place.
fn take_failure(lines: &mut Vec<Result<String, std::io::Error>>, i: usize) -> (e: Errors)
    requires
        i < old(lines)@.len(),
        old(lines)@[i as int] is Err,
    ensures
        e == Errors::IoError(old(lines)@[i as int]->Err_0),
        e@ == ErrorsView::IoError,
        final(lines)@ == old(lines)@.update(i as int, old(lines)@.last()).drop_last(),
{
    match lines.swap_remove(i) {
        Err(source) => Errors::IoError(source),
        Ok(_) => Errors::LineParseError { line_number: i },
    }
}

/// Whether `line`, without the whitespace at its ends, is `title`.
fn is_heading(line: &str, title: &str) -> (b: bool)
    ensures
        b == (trimmed(line@) == title@),
{
    let chars = chars_of(line);
    let (from, to) = trim_bounds(&chars);
    same_text(string_of(&chars, from, to).as_str(), title)
}

/// Whether `line` holds nothing but whitespace.
fn is_blank(line: &str) -> (b: bool)
    ensures
        b == (trimmed(line@).len() == 0),
{
    let chars = chars_of(line);
    let (from, to) = trim_bounds(&chars);
    from == to
}

/// The text of a line that was read.
fn text_in(line: &Result<String, std::io::Error>) -> (text: &str)
    requires
        line is Ok,
    ensures
        texts_of(seq![*line])[0] == Some(text@),
{
    match line {
        Ok(text) => text.as_str(),
        Err(_) => "",
    }
}

impl Dungeon {
    /// The dungeon that the lines of a description spell. Each line is given
    /// as it was read, or as the error with which reading it failed; the
    /// first line that fails or does not fit ends the reading.
    pub fn from_reader(lines: Vec<Result<String, std::io::Error>>) -> (r: Result<Dungeon, Errors>)
        ensures
            match dungeon_of(texts_of(lines@)) {
                Ok(rooms) => r matches Ok(dungeon) && dungeon@ == rooms,
                Err(e) => r matches Err(x) && x@ == e,
            },
    {
        let mut source = lines;
        let ghost texts = texts_of(lines@);
        let mut dungeon = Dungeon::new();
        if source.len() == 0 {
            return Err(Errors::LineParseError { line_number: 0 });
        }
        if source[0].is_err() {
            return Err(take_failure(&mut source, 0));
        }
        if !is_heading(text_in(&source[0]), "## Rooms") {
            return Err(Errors::LineParseError { line_number: 1 });
        }
        let mut i: usize = 1;
        let mut last_read: usize = 0;
        let mut blank = false;
        while i < source.len() && !blank
            invariant
                1 <= i <= source.len(),
                texts == texts_of(lines@),
                source@ == lines@,
                dungeon_of(texts) == if blank {
                    with_links_section(texts, i as int, dungeon@, last_read)
                } else {
                    with_rooms(texts, i as int, dungeon@, last_read)
                },
            decreases source.len() - i,
        {
            if source[i].is_err() {
                return Err(take_failure(&mut source, i));
            }
            let line = text_in(&source[i]);
            last_read = i + 1;
            if is_blank(line) {
                blank = true;
            } else {
                let name = match match_prefix("- ", line) {
                    Some(name) => name,
                    None => {
                        return Err(Errors::LineParseError { line_number: i + 1 });
                    },
                };
                match dungeon.add_room(name) {
                    Ok(_) => {},
                    Err(e) => {
                        return Err(e);
                    },
                }
            }
            i += 1;
        }
        if i >= source.len() {
            return Err(Errors::LineParseError { line_number: last_read });
        }
        if source[i].is_err() {
            return Err(take_failure(&mut source, i));
        }
        if !is_heading(text_in(&source[i]), "## Links") {
            return Err(Errors::LineParseError { line_number: i + 1 });
        }
        i += 1;
        let arrow = chars_of(" -> ");
        proof {
            reveal_strlit(" -> ");
        }
        while i < source.len()
            invariant
                1 <= i <= source.len(),
                texts == texts_of(lines@),
                source@ == lines@,
                arrow@ == " -> "@,
                arrow@.len() == 4,
                dungeon_of(texts) == with_links(texts, i as int, dungeon@),
            decreases source.len() - i,
        {
            if source[i].is_err() {
                return Err(take_failure(&mut source, i));
            }
            let line = text_in(&source[i]);
            let link = match match_prefix("- ", line) {
                Some(link) => link,
                None => {
                    return Err(Errors::LineParseError { line_number: i + 1 });
                },
            };
            let parts = split_on(&chars_of(link), &arrow);
            if parts.len() != 3 {
                return Err(Errors::LineParseError { line_number: i + 1 });
            }
            let direction = match Direction::from_str(parts[1].as_str()) {
                Ok(direction) => direction,
                Err(e) => {
                    return Err(e);
                },
            };
            match dungeon.set_link(parts[0].as_str(), direction, parts[2].as_str()) {
                Ok(_) => {},
                Err(e) => {
                    return Err(e);
                },
            }
            i += 1;
        }
        Ok(dungeon)
    }
}

} // verus!
