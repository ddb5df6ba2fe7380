//! What a program means: the state of a run, and the effect of each statement
//! on it.
use vstd::prelude::*;
use crate::basic::error::{debug_quoted, ErrorView};
use crate::basic::statement::{names_variable, StatementView};
use crate::number::{decimal, parse_u16};
use crate::words::{trimmed, words};

verus! {

/// How control leaves a statement that was carried out.
#[derive(Clone, Copy, Debug, PartialEq, Eq, Structural)]
pub enum Flow {
    /// On to the next higher line number, or to the end if there is none.
    Advance,
    /// On to the given line.
    Jump { line: u16 },
}

/// Where a run stands when it returns without an error.
#[derive(Clone, Copy, Debug, PartialEq, Eq, Structural)]
pub enum Progress {
    /// The program ran off its last line.
    Halted,
    /// The allowance of steps is used up; `line` is the next to carry out.
    Paused { line: u16 },
    /// There is no statement at `line`, or none that can be carried out: see
    /// `can_execute`.
    Stuck { line: u16 },
}

/// The state that a run reads and changes.
pub struct Machine {
    /// The value of each variable that has one.
    pub variables: Map<Seq<char>, u16>,
    /// The input that has not been read yet.
    pub input: Seq<char>,
    /// The output written so far.
    pub output: Seq<char>,
}

/// A program: its statements by line number.
pub type Program = Map<u16, StatementView>;

/// The value of a token once it is known whether it starts with an uppercase
/// letter: that of the variable it names if it does, else the number that it
/// writes.
pub open spec fn value_given(
    token: Seq<char>,
    variables: Map<Seq<char>, u16>,
    leading_upper: bool,
) -> Result<u16, ErrorView> {
    if leading_upper {
        if variables.contains_key(token) {
            Ok(variables[token])
        } else {
            Err(ErrorView::UnknownVariable { name: token })
        }
    } else {
        match parse_u16(trimmed(token)) {
            Some(n) => Ok(n),
            None => Err(ErrorView::NotANumber { value: token }),
        }
    }
}

/// The value of a token: that of the variable it names if it starts with an
/// uppercase letter, else the number it writes. The empty token writes no
/// number.
pub open spec fn value_of(token: Seq<char>, variables: Map<Seq<char>, u16>) -> Result<
    u16,
    ErrorView,
> {
    value_given(token, variables, names_variable(token))
}

/// The index just after the first line feed at or after `i`; `input.len()`
/// if there is none.
pub open spec fn line_end(input: Seq<char>, i: int) -> int
    decreases input.len() - i,
{
    if 0 <= i < input.len() {
        if input[i] == '\n' {
            i + 1
        } else {
            line_end(input, i + 1)
        }
    } else {
        input.len() as int
    }
}

/// One of the three comparison operators.
pub open spec fn is_comparison(op: Seq<char>) -> bool {
    op == ">"@ || op == "<"@ || op == "="@
}

/// What the comparison `left op right` yields.
pub open spec fn compare(op: Seq<char>, left: u16, right: u16) -> bool
    recommends
        is_comparison(op),
{
    if op == ">"@ {
        left > right
    } else if op == "<"@ {
        left < right
    } else {
        left == right
    }
}

/// What an evaluator failure reads as inside the message of a runtime error.
pub open spec fn failure_text(e: ErrorView) -> Seq<char> {
    match e {
        ErrorView::UnknownVariable { name } => "UnknownVariable { name: "@ + debug_quoted(name)
            + " }"@,
        ErrorView::NotANumber { value } => "NotANumber { value: "@ + debug_quoted(value) + " }"@,
        _ => Seq::empty(),
    }
}

/// Whether a statement can be carried out at all. An `If` needs three words;
/// and an `If` both of whose operands have a value needs one of the three
/// comparison operators between them.
pub open spec fn can_execute(statement: StatementView, variables: Map<Seq<char>, u16>) -> bool {
    match statement {
        StatementView::If { condition, line_number } => {
            let t = words(condition);
            &&& t.len() >= 3
            &&& value_of(t[0], variables) is Ok && value_of(t[2], variables) is Ok
                ==> is_comparison(t[1])
        },
        _ => true,
    }
}

/// A jump from `line` to `target`: taken if the program has a line `target`,
/// else a runtime error at `line`.
pub open spec fn jump(program: Program, line: u16, target: u16) -> Result<Flow, ErrorView> {
    if program.contains_key(target) {
        Ok(Flow::Jump { line: target })
    } else {
        Err(
            ErrorView::RuntimeError {
                line_number: line,
                message: "Invalid line number for GOTO: "@ + decimal(target as nat),
            },
        )
    }
}

/// The effect of the statement at `line`: the machine after it, and where
/// control goes or why the run fails.
pub open spec fn execute(program: Program, machine: Machine, line: u16) -> (
    Machine,
    Result<Flow, ErrorView>,
)
    recommends
        program.contains_key(line),
        can_execute(program[line], machine.variables),
{
    match program[line] {
        StatementView::Print { value } => match value_of(value, machine.variables) {
            Ok(n) => (
                Machine { output: machine.output + decimal(n as nat) + seq!['\n'], ..machine },
                Ok(Flow::Advance),
            ),
            Err(ErrorView::UnknownVariable { name }) => (
                machine,
                Err(
                    ErrorView::RuntimeError {
                        line_number: line,
                        message: "Unknown variable: "@ + name,
                    },
                ),
            ),
            Err(_) => (
                Machine { output: machine.output + value + seq!['\n'], ..machine },
                Ok(Flow::Advance),
            ),
        },
        StatementView::Read { var_name } => {
            let end = line_end(machine.input, 0);
            let text = trimmed(machine.input.take(end));
            let rest = machine.input.skip(end);
            match parse_u16(text) {
                Some(n) => (
                    Machine {
                        variables: machine.variables.insert(var_name, n),
                        input: rest,
                        ..machine
                    },
                    Ok(Flow::Advance),
                ),
                None => (
                    Machine { input: rest, ..machine },
                    Err(
                        ErrorView::RuntimeError {
                            line_number: line,
                            message: "Not a number: "@ + text,
                        },
                    ),
                ),
            }
        },
        StatementView::Goto { line_number } => (machine, jump(program, line, line_number)),
        StatementView::If { condition, line_number } => {
            let t = words(condition);
            match (value_of(t[0], machine.variables), value_of(t[2], machine.variables)) {
                (Err(e), _) => (
                    machine,
                    Err(ErrorView::RuntimeError { line_number: line, message: failure_text(e) }),
                ),
                (Ok(_), Err(e)) => (
                    machine,
                    Err(ErrorView::RuntimeError { line_number: line, message: failure_text(e) }),
                ),
                (Ok(left), Ok(right)) => if compare(t[1], left, right) {
                    (machine, jump(program, line, line_number))
                } else {
                    (machine, Ok(Flow::Advance))
                },
            }
        },
    }
}

/// Whether `next` is the least line number of `program` above `line`.
pub open spec fn is_successor(program: Program, line: u16, next: u16) -> bool {
    &&& program.contains_key(next)
    &&& line < next
    &&& forall|k: u16| program.contains_key(k) && line < k ==> next <= k
}

/// The least line number of `program` above `line`, if there is one.
pub open spec fn successor(program: Program, line: u16) -> Option<u16> {
    if exists|next: u16| is_successor(program, line, next) {
        Some(choose|next: u16| is_successor(program, line, next))
    } else {
        None
    }
}

/// Whether `first` is the least line number of `program`.
pub open spec fn is_first(program: Program, first: u16) -> bool {
    &&& program.contains_key(first)
    &&& forall|k: u16| program.contains_key(k) ==> first <= k
}

/// The least line number of `program`, if it has any line.
pub open spec fn first_line(program: Program) -> Option<u16> {
    if exists|first: u16| is_first(program, first) {
        Some(choose|first: u16| is_first(program, first))
    } else {
        None
    }
}

/// A run of at most `steps` statements that starts at `line`: the machine
/// when it stops, and how it stopped.
pub open spec fn run_from(program: Program, machine: Machine, line: u16, steps: nat) -> (
    Machine,
    Result<Progress, ErrorView>,
)
    decreases steps,
{
    if steps == 0 {
        (machine, Ok(Progress::Paused { line }))
    } else if !program.contains_key(line) || !can_execute(program[line], machine.variables) {
        (machine, Ok(Progress::Stuck { line }))
    } else {
        let (after, flow) = execute(program, machine, line);
        match flow {
            Err(e) => (after, Err(e)),
            Ok(Flow::Jump { line: target }) => run_from(program, after, target, (steps - 1) as nat),
            Ok(Flow::Advance) => match successor(program, line) {
                Some(next) => run_from(program, after, next, (steps - 1) as nat),
                None => (after, Ok(Progress::Halted)),
            },
        }
    }
}

/// A run of at most `steps` statements from the lowest line number.
pub open spec fn run_program(program: Program, machine: Machine, steps: nat) -> (
    Machine,
    Result<Progress, ErrorView>,
) {
    match first_line(program) {
        Some(line) => run_from(program, machine, line, steps),
        None => (machine, Ok(Progress::Halted)),
    }
}

} // verus!
