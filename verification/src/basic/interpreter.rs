//! The interpreter: a program store, the variables, and the run loop.
use std::collections::{HashMap, VecDeque};
use vstd::prelude::*;
use vstd::string::*;
use vstd::std_specs::hash::*;
use vstd::std_specs::iter::IteratorSpec;
use crate::basic::error::{quote, ErrorView, InterpreterError};
use crate::basic::laws::lemma_empty_token;
use crate::basic::machine::{
    can_execute, compare, execute, failure_text, is_comparison, is_first, is_successor, jump,
    line_end, run_from, run_program, successor, value_given, value_of, Flow, Machine, Program,
    Progress,
};
use crate::basic::statement::{
    installed, parse_code_line, parse_line, Statement, StatementView,
};
use crate::basic::variables::{assign, bindings, lookup};
use crate::number::{decimal, push_decimal, read_u16};
use crate::text::{chars_of, push_chars, same_text};
use crate::words::{split_words, trim};

verus! {

broadcast use vstd::std_specs::hash::group_hash_axioms;

/// A result with the error, if there is one, by its view.
pub open spec fn outcome<T>(r: Result<T, InterpreterError>) -> Result<T, ErrorView> {
    match r {
        Ok(value) => Ok(value),
        Err(e) => Err(e@),
    }
}

/// Whether `numbers` rises strictly from each entry to the next.
pub open spec fn ascending(numbers: Seq<u16>) -> bool {
    forall|i: int, j: int| 0 <= i < j < numbers.len() ==> numbers[i] < numbers[j]
}

/// `sort` on a slice puts its elements in ascending order and keeps each of
/// them, as often as it was there.
#[verifier::external_body]
fn sort_numbers(numbers: &mut Vec<u16>)
    ensures
        final(numbers)@.to_multiset() == old(numbers)@.to_multiset(),
        forall|i: int, j: int|
            0 <= i <= j < final(numbers)@.len() ==> final(numbers)@[i] <= final(numbers)@[j],
{
    numbers.sort();
}

/// An interpreter: the program loaded so far, the variables, the input that
/// is waiting to be read and the output written so far.
pub struct Interpreter {
    code_lines: HashMap<u16, Statement>,
    variables: Vec<(String, u16)>,
    input: VecDeque<char>,
    output: String,
}

impl Interpreter {
    /// The program loaded so far.
    pub closed spec fn program(&self) -> Program {
        self.code_lines@.map_values(|s: Statement| s@)
    }

    /// The state that a run reads and changes.
    pub closed spec fn machine(&self) -> Machine {
        Machine {
            variables: bindings(self.variables@),
            input: self.input@,
            output: self.output@,
        }
    }

    /// An interpreter with no program and no variables, whose input is
    /// `input` and whose output is empty.
    pub fn new(input: &str) -> (interpreter: Self)
        ensures
            interpreter.program() == Map::<u16, StatementView>::empty(),
            interpreter.machine() == (Machine {
                variables: Map::empty(),
                input: input@,
                output: Seq::empty(),
            }),
    {
        let mut interpreter = Interpreter {
            code_lines: HashMap::new(),
            variables: Vec::new(),
            input: VecDeque::new(),
            output: String::new(),
        };
        interpreter.feed(input);
        interpreter
    }

    /// Appends `text` to the input that is waiting to be read.
    pub fn feed(&mut self, text: &str)
        ensures
            final(self).program() == old(self).program(),
            final(self).machine() == (Machine {
                input: old(self).machine().input + text@,
                ..old(self).machine()
            }),
    {
        let chars = chars_of(text);
        let mut i: usize = 0;
        while i < chars.len()
            invariant
                i <= chars.len(),
                self.code_lines == old(self).code_lines,
                self.variables == old(self).variables,
                self.output == old(self).output,
                self.input@ == old(self).input@ + chars@.take(i as int),
            decreases chars.len() - i,
        {
            self.input.push_back(chars[i]);
            i += 1;
        }
        assert(chars@.take(i as int) =~= chars@);
    }

    /// Parses one source line and stores its statement under its line
    /// number, in place of any statement that was there.
    pub fn add(&mut self, code: &str) -> (r: Result<u16, InterpreterError>)
        ensures
            final(self).machine() == old(self).machine(),
            final(self).program() == installed(old(self).program(), code@),
            match parse_line(code@) {
                Some((number, _)) => r matches Ok(n) && n == number,
                None => r matches Err(e) && e@ == (ErrorView::SyntaxError { code: code@ }),
            },
    {
        match parse_code_line(code) {
            Ok((line_number, statement)) => {
                self.code_lines.insert(line_number, statement);
                Ok(line_number)
            },
            Err(e) => Err(e),
        }
    }

    /// The value of a token: that of the variable it names if it starts with
    /// an uppercase letter, else the number that it writes. The empty token
    /// names no variable and writes no number.
    pub fn eval_value(&self, value: &str) -> (r: Result<u16, InterpreterError>)
        ensures
            outcome(r) == value_of(value@, self.machine().variables),
            value@.len() == 0 ==> outcome(r) == Err::<u16, ErrorView>(
                ErrorView::NotANumber { value: Seq::empty() },
            ),
    {
        proof {
            lemma_empty_token(value@, self.machine().variables);
        }
        evaluate(&self.variables, value)
    }

    /// The line numbers of the program, in ascending order.
    pub fn line_numbers(&self) -> (numbers: Vec<u16>)
        ensures
            ascending(numbers@),
            forall|k: u16| numbers@.contains(k) <==> self.program().contains_key(k),
    {
        let mut numbers: Vec<u16> = Vec::new();
        let keys = self.code_lines.keys();
        let ghost order: Seq<u16> = keys.remaining().unref();
        for k in it: keys
            invariant
                it.seq().unref() == order,
                numbers@ == order.take(it.index()),
        {
            numbers.push(*k);
        }
        assert(numbers@ =~= order);
        sort_numbers(&mut numbers);
        proof {
            order.lemma_multiset_has_no_duplicates();
            numbers@.lemma_multiset_has_no_duplicates_conv();
            order.to_multiset_ensures();
            numbers@.to_multiset_ensures();
            assert forall|k: u16| numbers@.contains(k) <==> self.program().contains_key(k) by {
                assert(order.contains(k) <==> order.to_multiset().count(k) > 0);
            }
        }
        numbers
    }

    /// Whether the statement at `line` can be carried out now: there is one,
    /// and it is none of those that `can_execute` rules out.
    pub fn can_step(&self, line: u16) -> (b: bool)
        ensures
            b == (self.program().contains_key(line) && can_execute(
                self.program()[line],
                self.machine().variables,
            )),
    {
        match self.code_lines.get(&line) {
            None => false,
            Some(statement) => match statement {
                Statement::If { condition, .. } => {
                    let parts = split_words(&chars_of(condition.as_str()));
                    if parts.len() < 3 {
                        false
                    } else {
                        let left = evaluate(&self.variables, parts[0].as_str());
                        let right = evaluate(&self.variables, parts[2].as_str());
                        if left.is_ok() && right.is_ok() {
                            known_comparison(parts[1].as_str())
                        } else {
                            true
                        }
                    }
                },
                _ => true,
            },
        }
    }

    /// Carries out the statement at `line`, and says where control goes next.
    pub fn step(&mut self, line: u16) -> (r: Result<Flow, InterpreterError>)
        requires
            old(self).program().contains_key(line),
            can_execute(old(self).program()[line], old(self).machine().variables),
        ensures
            final(self).program() == old(self).program(),
            (final(self).machine(), outcome(r)) == execute(
                old(self).program(),
                old(self).machine(),
                line,
            ),
    {
        let ghost before = self.machine();
        let found = self.code_lines.get(&line);
        let statement = found.unwrap();
        match statement {
            Statement::Print { value } => {
                match evaluate(&self.variables, value.as_str()) {
                    Ok(n) => {
                        push_decimal(&mut self.output, n as u32);
                        self.output.push('\n');
                        assert(self.machine().output =~= before.output + decimal(n as nat)
                            + seq!['\n']);
                        Ok(Flow::Advance)
                    },
                    Err(InterpreterError::UnknownVariable { name }) => {
                        let mut message = "Unknown variable: ".to_owned();
                        message.append(name.as_str());
                        Err(InterpreterError::RuntimeError { line_number: line, message })
                    },
                    Err(_) => {
                        self.output.append(value.as_str());
                        self.output.push('\n');
                        assert(self.machine().output =~= before.output + value@ + seq!['\n']);
                        Ok(Flow::Advance)
                    },
                }
            },
            Statement::Read { var_name } => {
                let text = trim(&read_line(&mut self.input));
                match read_u16(&text) {
                    Some(n) => {
                        assign(&mut self.variables, var_name.as_str(), n);
                        Ok(Flow::Advance)
                    },
                    None => {
                        let mut message = "Not a number: ".to_owned();
                        push_chars(&mut message, &text, 0, text.len());
                        assert(text@.subrange(0, text@.len() as int) =~= text@);
                        Err(InterpreterError::RuntimeError { line_number: line, message })
                    },
                }
            },
            Statement::Goto { line_number } => jump_to(&self.code_lines, line, *line_number),
            Statement::If { condition, line_number } => {
                let parts = split_words(&chars_of(condition.as_str()));
                let left = match evaluate(&self.variables, parts[0].as_str()) {
                    Ok(n) => n,
                    Err(e) => {
                        return Err(
                            InterpreterError::RuntimeError {
                                line_number: line,
                                message: failure_message(&e),
                            },
                        );
                    },
                };
                let right = match evaluate(&self.variables, parts[2].as_str()) {
                    Ok(n) => n,
                    Err(e) => {
                        return Err(
                            InterpreterError::RuntimeError {
                                line_number: line,
                                message: failure_message(&e),
                            },
                        );
                    },
                };
                if holds(parts[1].as_str(), left, right) {
                    jump_to(&self.code_lines, line, *line_number)
                } else {
                    Ok(Flow::Advance)
                }
            },
        }
    }

    /// Runs the program from its lowest line number, for at most `max_steps`
    /// statements.
    ///
    /// The variables keep the values that an earlier run left in them. A run
    /// that meets a statement which cannot be carried out stops in front of
    /// it and reports `Stuck`; one that uses up its steps reports `Paused`,
    /// and `resume` takes it up again.
    pub fn run(&mut self, max_steps: u64) -> (r: Result<Progress, InterpreterError>)
        ensures
            final(self).program() == old(self).program(),
            (final(self).machine(), outcome(r)) == run_program(
                old(self).program(),
                old(self).machine(),
                max_steps as nat,
            ),
    {
        let numbers = self.line_numbers();
        let ghost program = self.program();
        if numbers.len() == 0 {
            proof {
                assert forall|first: u16| !is_first(program, first) by {
                    assert(!numbers@.contains(first));
                }
            }
            return Ok(Progress::Halted);
        }
        let line: u16 = numbers[0];
        proof {
            assert(numbers@.contains(line));
            assert forall|k: u16| program.contains_key(k) implies line <= k by {
                assert(numbers@.contains(k));
            }
            assert(is_first(program, line));
        }
        self.run_on(&numbers, line, max_steps)
    }

    /// Runs the program from `line` on, for at most `max_steps` statements:
    /// the way to go on with a run that was paused at `line`.
    pub fn resume(&mut self, line: u16, max_steps: u64) -> (r: Result<Progress, InterpreterError>)
        ensures
            final(self).program() == old(self).program(),
            (final(self).machine(), outcome(r)) == run_from(
                old(self).program(),
                old(self).machine(),
                line,
                max_steps as nat,
            ),
    {
        let numbers = self.line_numbers();
        self.run_on(&numbers, line, max_steps)
    }

    /// Runs the program from `line` on, for at most `max_steps` statements,
    /// with its line numbers at hand.
    fn run_on(&mut self, numbers: &Vec<u16>, start: u16, max_steps: u64) -> (r: Result<
        Progress,
        InterpreterError,
    >)
        requires
            ascending(numbers@),
            forall|k: u16| numbers@.contains(k) <==> old(self).program().contains_key(k),
        ensures
            final(self).program() == old(self).program(),
            (final(self).machine(), outcome(r)) == run_from(
                old(self).program(),
                old(self).machine(),
                start,
                max_steps as nat,
            ),
    {
        let ghost program = self.program();
        let mut line: u16 = start;
        let mut left: u64 = max_steps;
        loop
            invariant
                self.program() == program,
                program == old(self).program(),
                ascending(numbers@),
                forall|k: u16| numbers@.contains(k) <==> program.contains_key(k),
                run_from(old(self).program(), old(self).machine(), start, max_steps as nat)
                    == run_from(program, self.machine(), line, left as nat),
            decreases left,
        {
            if left == 0 {
                return Ok(Progress::Paused { line });
            }
            if !self.can_step(line) {
                return Ok(Progress::Stuck { line });
            }
            let flow = self.step(line);
            match flow {
                Err(e) => {
                    return Err(e);
                },
                Ok(Flow::Jump { line: target }) => {
                    line = target;
                },
                Ok(Flow::Advance) => {
                    let next = following(numbers, line);
                    proof {
                        lemma_successor(program, numbers@, line, next);
                    }
                    match next {
                        Some(n) => {
                            line = n;
                        },
                        None => {
                            return Ok(Progress::Halted);
                        },
                    }
                },
            }
            left -= 1;
        }
    }

    /// The output written so far.
    pub fn output(&self) -> (text: String)
        ensures
            text@ == self.machine().output,
    {
        self.output.clone()
    }

    /// Hands out the output written so far, and starts afresh with none.
    pub fn take_output(&mut self) -> (text: String)
        ensures
            text@ == old(self).machine().output,
            final(self).program() == old(self).program(),
            final(self).machine() == (Machine { output: Seq::empty(), ..old(self).machine() }),
    {
        let text = self.output.clone();
        self.output = String::new();
        text
    }

    /// Whether the statement at `line` reads from the input.
    pub fn reads_input(&self, line: u16) -> (b: bool)
        ensures
            b == (self.program().contains_key(line) && self.program()[line] is Read),
    {
        match self.code_lines.get(&line) {
            Some(Statement::Read { .. }) => true,
            _ => false,
        }
    }
}

/// The least of `numbers` above `line`, if there is one.
pub fn following(numbers: &Vec<u16>, line: u16) -> (next: Option<u16>)
    requires
        ascending(numbers@),
    ensures
        match next {
            Some(n) => {
                &&& numbers@.contains(n)
                &&& line < n
                &&& forall|k: u16| numbers@.contains(k) && line < k ==> n <= k
            },
            None => forall|k: u16| numbers@.contains(k) ==> k <= line,
        },
{
    let mut low: usize = 0;
    let mut high: usize = numbers.len();
    while low < high
        invariant
            low <= high <= numbers.len(),
            ascending(numbers@),
            forall|i: int| 0 <= i < low ==> numbers@[i] <= line,
            forall|i: int| high <= i < numbers@.len() ==> line < numbers@[i],
        decreases high - low,
    {
        let middle = low + (high - low) / 2;
        if numbers[middle] <= line {
            low = middle + 1;
        } else {
            high = middle;
        }
    }
    if low < numbers.len() {
        Some(numbers[low])
    } else {
        None
    }
}

/// What `following` finds among the line numbers of a program is the
/// program's successor of that line.
proof fn lemma_successor(program: Program, numbers: Seq<u16>, line: u16, next: Option<u16>)
    requires
        forall|k: u16| numbers.contains(k) <==> program.contains_key(k),
        match next {
            Some(n) => {
                &&& numbers.contains(n)
                &&& line < n
                &&& forall|k: u16| numbers.contains(k) && line < k ==> n <= k
            },
            None => forall|k: u16| numbers.contains(k) ==> k <= line,
        },
    ensures
        successor(program, line) == next,
{
    match next {
        Some(n) => {
            assert forall|k: u16| program.contains_key(k) && line < k implies n <= k by {
                assert(numbers.contains(k));
            }
            assert(is_successor(program, line, n));
        },
        None => {
            assert forall|n: u16| !is_successor(program, line, n) by {
                if program.contains_key(n) {
                    assert(numbers.contains(n));
                }
            }
        },
    }
}

/// Takes the first line off the input: all up to and including the first
/// line feed, or all there is where none is left.
fn read_line(input: &mut VecDeque<char>) -> (line: Vec<char>)
    ensures
        line@ == old(input)@.take(line_end(old(input)@, 0)),
        final(input)@ == old(input)@.skip(line_end(old(input)@, 0)),
{
    let mut line: Vec<char> = Vec::new();
    loop
        invariant_except_break
            line@.len() <= old(input)@.len(),
            line@ == old(input)@.take(line@.len() as int),
            input@ == old(input)@.skip(line@.len() as int),
            line_end(old(input)@, 0) == line_end(old(input)@, line@.len() as int),
        ensures
            line@ == old(input)@.take(line_end(old(input)@, 0)),
            input@ == old(input)@.skip(line_end(old(input)@, 0)),
        decreases input@.len(),
    {
        match input.pop_front() {
            None => {
                break ;
            },
            Some(c) => {
                line.push(c);
                if c == '\n' {
                    break ;
                }
            },
        }
    }
    line
}

/// A jump from `line` to `target` in the given program.
fn jump_to(code_lines: &HashMap<u16, Statement>, line: u16, target: u16) -> (r: Result<
    Flow,
    InterpreterError,
>)
    ensures
        outcome(r) == jump(code_lines@.map_values(|s: Statement| s@), line, target),
{
    if code_lines.contains_key(&target) {
        Ok(Flow::Jump { line: target })
    } else {
        let mut message = "Invalid line number for GOTO: ".to_owned();
        push_decimal(&mut message, target as u32);
        Err(InterpreterError::RuntimeError { line_number: line, message })
    }
}

/// Whether `op` is one of the three comparison operators.
fn known_comparison(op: &str) -> (b: bool)
    ensures
        b == is_comparison(op@),
{
    same_text(op, ">") || same_text(op, "<") || same_text(op, "=")
}

/// What the comparison `left op right` yields.
fn holds(op: &str, left: u16, right: u16) -> (b: bool)
    ensures
        b == compare(op@, left, right),
{
    if same_text(op, ">") {
        left > right
    } else if same_text(op, "<") {
        left < right
    } else {
        left == right
    }
}

/// What an evaluator failure reads as inside the message of a runtime error.
fn failure_message(e: &InterpreterError) -> (message: String)
    ensures
        message@ == failure_text(e@),
{
    match e {
        InterpreterError::UnknownVariable { name } => {
            let mut message = "UnknownVariable { name: ".to_owned();
            message.append(quote(name.as_str()).as_str());
            message.append(" }");
            message
        },
        InterpreterError::NotANumber { value } => {
            let mut message = "NotANumber { value: ".to_owned();
            message.append(quote(value.as_str()).as_str());
            message.append(" }");
            message
        },
        _ => String::new(),
    }
}

/// The value of a token among the given variables.
fn evaluate(variables: &Vec<(String, u16)>, value: &str) -> (r: Result<u16, InterpreterError>)
    ensures
        outcome(r) == value_of(value@, bindings(variables@)),
{
    let chars = chars_of(value);
    let leading_upper = chars.len() > 0 && chars[0].is_uppercase();
    evaluate_given(variables, value, leading_upper)
}

/// The value of a token among the given variables, once it is known whether
/// the token starts with an uppercase letter: the value of the variable of
/// that name if it does, else the number that the token writes.
pub fn evaluate_given(variables: &Vec<(String, u16)>, value: &str, leading_upper: bool) -> (r:
    Result<u16, InterpreterError>)
    ensures
        outcome(r) == value_given(value@, bindings(variables@), leading_upper),
{
    if leading_upper {
        match lookup(variables, value) {
            Some(n) => Ok(n),
            None => Err(InterpreterError::UnknownVariable { name: value.to_owned() }),
        }
    } else {
        match read_u16(&trim(&chars_of(value))) {
            Some(n) => Ok(n),
            None => Err(InterpreterError::NotANumber { value: value.to_owned() }),
        }
    }
}

} // verus!
