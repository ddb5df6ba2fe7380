//! Statements, and the parser that reads one from a source line.
use vstd::prelude::*;
use vstd::string::*;
use crate::basic::error::{ErrorView, InterpreterError};
use crate::number::{parse_u16, read_u16};
use crate::text::{chars_of, same_text};
use crate::words::{joined, split_words, words};

verus! {

/// Whether `c` has the Unicode property Uppercase, as `char::is_uppercase`
/// finds it.
pub uninterp spec fn is_upper(c: char) -> bool;

/// `char::is_uppercase` looks the character up in the Unicode tables; its
/// answer depends on the character alone.
pub assume_specification[ char::is_uppercase ](c: char) -> (b: bool)
    ensures
        b == is_upper(c),
;

/// One statement of a program.
#[derive(Debug)]
pub enum Statement {
    /// Writes the value of a token, or the token itself where it is no value.
    Print { value: String },
    /// Reads a number from the input into a variable.
    Read { var_name: String },
    /// Continues at another line.
    Goto { line_number: u16 },
    /// Continues at another line if the comparison `condition` holds.
    If { condition: String, line_number: u16 },
}

/// A `Statement` with its texts as sequences of characters.
pub enum StatementView {
    Print { value: Seq<char> },
    Read { var_name: Seq<char> },
    Goto { line_number: u16 },
    If { condition: Seq<char>, line_number: u16 },
}

impl View for Statement {
    type V = StatementView;

    open spec fn view(&self) -> StatementView {
        match self {
            Statement::Print { value } => StatementView::Print { value: value@ },
            Statement::Read { var_name } => StatementView::Read { var_name: var_name@ },
            Statement::Goto { line_number } => StatementView::Goto { line_number: *line_number },
            Statement::If { condition, line_number } => StatementView::If {
                condition: condition@,
                line_number: *line_number,
            },
        }
    }
}

/// Whether a token starts with an uppercase letter, and so names a variable.
pub open spec fn names_variable(token: Seq<char>) -> bool {
    token.len() > 0 && is_upper(token[0])
}

/// The statement that the words `t` of a line spell after the line number,
/// once it is known whether the third word names a variable.
pub open spec fn statement_given(t: Seq<Seq<char>>, variable_named: bool) -> Option<
    StatementView,
> {
    if t.len() < 3 {
        None
    } else if t[1] == "PRINT"@ {
        if t.len() == 3 {
            Some(StatementView::Print { value: t[2] })
        } else {
            None
        }
    } else if t[1] == "READ"@ {
        if t.len() == 3 && variable_named {
            Some(StatementView::Read { var_name: t[2] })
        } else {
            None
        }
    } else if t[1] == "GOTO"@ {
        match parse_u16(t[2]) {
            Some(target) if t.len() == 3 => Some(StatementView::Goto { line_number: target }),
            _ => None,
        }
    } else if t[1] == "IF"@ {
        if t.len() == 7 && t[5] == "GOTO"@ {
            match parse_u16(t[6]) {
                Some(target) => Some(
                    StatementView::If { condition: joined(t[2], t[3], t[4]), line_number: target },
                ),
                None => None,
            }
        } else {
            None
        }
    } else {
        None
    }
}

/// What a source line means, once it is known whether its third word names
/// a variable: a line number and a statement, or nothing where the line is
/// malformed.
pub open spec fn parse_line_given(line: Seq<char>, variable_named: bool) -> Option<
    (u16, StatementView),
> {
    let t = words(line);
    if t.len() == 0 {
        None
    } else {
        match (parse_u16(t[0]), statement_given(t, variable_named)) {
            (Some(number), Some(statement)) => Some((number, statement)),
            _ => None,
        }
    }
}

/// Whether the third word of a line is there and names a variable.
pub open spec fn third_names_variable(line: Seq<char>) -> bool {
    words(line).len() >= 3 && names_variable(words(line)[2])
}

/// The statement that the words `t` of a line spell after the line number.
pub open spec fn statement_of(t: Seq<Seq<char>>) -> Option<StatementView> {
    statement_given(t, t.len() >= 3 && names_variable(t[2]))
}

/// What a source line means: a line number and a statement, or nothing where
/// the line is malformed.
pub open spec fn parse_line(line: Seq<char>) -> Option<(u16, StatementView)> {
    parse_line_given(line, third_names_variable(line))
}

/// The program with the statement of `line` stored under its line number,
/// in place of any statement that was there; the program itself where the
/// line is malformed.
pub open spec fn installed(program: Map<u16, StatementView>, line: Seq<char>) -> Map<
    u16,
    StatementView,
> {
    match parse_line(line) {
        Some((number, statement)) => program.insert(number, statement),
        None => program,
    }
}

/// Reads one source line.
///
/// The line is split at whitespace. Its first word is the line number, its
/// second the keyword, and the rest must have the shape that the keyword
/// asks for; a line of any other shape is a `SyntaxError` that carries the
/// line as it was given.
pub fn parse_code_line(input: &str) -> (r: Result<(u16, Statement), InterpreterError>)
    ensures
        match parse_line(input@) {
            Some((number, statement)) => r matches Ok((n, s)) && n == number && s@ == statement,
            None => r matches Err(e) && e@ == (ErrorView::SyntaxError { code: input@ }),
        },
{
    let parts = split_words(&chars_of(input));
    let variable_named = if parts.len() >= 3 {
        let name = chars_of(parts[2].as_str());
        name.len() > 0 && name[0].is_uppercase()
    } else {
        false
    };
    parse_code_line_given(input, variable_named)
}

/// Reads one source line, once it is known whether its third word names a
/// variable, which a `READ` asks of it.
pub fn parse_code_line_given(input: &str, variable_named: bool) -> (r: Result<
    (u16, Statement),
    InterpreterError,
>)
    ensures
        match parse_line_given(input@, variable_named) {
            Some((number, statement)) => r matches Ok((n, s)) && n == number && s@ == statement,
            None => r matches Err(e) && e@ == (ErrorView::SyntaxError { code: input@ }),
        },
{
    let chars = chars_of(input);
    let parts = split_words(&chars);
    if parts.len() == 0 {
        return Err(InterpreterError::SyntaxError { code: input.to_owned() });
    }
    let number = match read_u16(&chars_of(parts[0].as_str())) {
        Some(n) => n,
        None => {
            return Err(InterpreterError::SyntaxError { code: input.to_owned() });
        },
    };
    match read_statement(&parts, variable_named) {
        Some(statement) => Ok((number, statement)),
        None => Err(InterpreterError::SyntaxError { code: input.to_owned() }),
    }
}

/// Reads the statement that follows the line number in the words of a line.
fn read_statement(parts: &Vec<String>, variable_named: bool) -> (r: Option<Statement>)
    ensures
        match statement_given(parts@.map_values(|p: String| p@), variable_named) {
            Some(statement) => r matches Some(s) && s@ == statement,
            None => r is None,
        },
{
    let ghost t = parts@.map_values(|p: String| p@);
    if parts.len() < 3 {
        return None;
    }
    let keyword = parts[1].as_str();
    if same_text(keyword, "PRINT") {
        if parts.len() == 3 {
            Some(Statement::Print { value: parts[2].clone() })
        } else {
            None
        }
    } else if same_text(keyword, "READ") {
        if parts.len() == 3 && variable_named {
            Some(Statement::Read { var_name: parts[2].clone() })
        } else {
            None
        }
    } else if same_text(keyword, "GOTO") {
        match read_u16(&chars_of(parts[2].as_str())) {
            Some(target) => {
                if parts.len() == 3 {
                    Some(Statement::Goto { line_number: target })
                } else {
                    None
                }
            },
            None => None,
        }
    } else if same_text(keyword, "IF") {
        if parts.len() != 7 || !same_text(parts[5].as_str(), "GOTO") {
            return None;
        }
        match read_u16(&chars_of(parts[6].as_str())) {
            Some(target) => {
                let mut condition = parts[2].clone();
                condition.push(' ');
                condition.append(parts[3].as_str());
                condition.push(' ');
                condition.append(parts[4].as_str());
                assert(condition@ =~= joined(t[2], t[3], t[4]));
                Some(Statement::If { condition, line_number: target })
            },
            None => None,
        }
    } else {
        None
    }
}

} // verus!
