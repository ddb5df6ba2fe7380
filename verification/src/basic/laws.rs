//! What holds of every program and every run.
use vstd::prelude::*;
use crate::basic::error::ErrorView;
use crate::basic::machine::{
    can_execute, execute, first_line, is_comparison, is_first, is_successor, line_end, run_from,
    successor, value_of, Flow, Machine, Program, Progress,
};
use crate::number::{decimal, parse_u16};
use crate::words::{lemma_words_are_words, lemma_words_of_joined, trimmed, words};
use crate::basic::statement::{installed, is_upper, parse_line, StatementView};

verus! {

/// The line number of a well-formed source line.
pub open spec fn number_in(line: Seq<char>) -> u16
    recommends
        parse_line(line) is Some,
{
    let parsed = parse_line(line)->0;
    parsed.0
}

/// The statement of a well-formed source line.
pub open spec fn statement_in(line: Seq<char>) -> StatementView
    recommends
        parse_line(line) is Some,
{
    let parsed = parse_line(line)->0;
    parsed.1
}

/// Of two lines with the same line number the later one wins: loading both
/// leaves the program that loading the second alone would leave.
pub proof fn lemma_last_add_wins(program: Program, first: Seq<char>, second: Seq<char>)
    requires
        parse_line(first) is Some,
        parse_line(second) is Some,
        number_in(first) == number_in(second),
    ensures
        installed(installed(program, first), second) == installed(program, second),
        installed(installed(program, first), second)[number_in(second)] == statement_in(second),
{
    assert(installed(installed(program, first), second) =~= installed(program, second));
}

/// Loading a line changes the statement at its own line number and at no
/// other.
pub proof fn lemma_add_keeps_other_lines(program: Program, line: Seq<char>, other: u16)
    requires
        parse_line(line) is Some ==> number_in(line) != other,
    ensures
        installed(program, line).contains_key(other) == program.contains_key(other),
        program.contains_key(other) ==> installed(program, line)[other] == program[other],
{
}

/// The variable of a `READ` that the parser accepted starts with an
/// uppercase letter.
pub proof fn lemma_read_names_a_variable(line: Seq<char>)
    requires
        parse_line(line) is Some,
        statement_in(line) is Read,
    ensures
        statement_in(line)->var_name.len() > 0,
        is_upper(statement_in(line)->var_name[0]),
{
}

/// The empty token names no variable and writes no number, whatever the
/// variables hold.
pub proof fn lemma_empty_token(token: Seq<char>, variables: Map<Seq<char>, u16>)
    ensures
        token.len() == 0 ==> value_of(token, variables) == Err::<u16, ErrorView>(
            ErrorView::NotANumber { value: Seq::empty() },
        ),
{
    if token.len() == 0 {
        assert(token =~= Seq::<char>::empty());
        assert(trimmed(token).len() == 0);
    }
}

/// The condition of an `IF` that the parser accepted falls into three words.
pub proof fn lemma_condition_has_three_words(line: Seq<char>)
    requires
        parse_line(line) is Some,
        statement_in(line) is If,
    ensures
        words(statement_in(line)->condition).len() == 3,
{
    let t = words(line);
    lemma_words_are_words(line);
    lemma_words_of_joined(t[2], t[3], t[4]);
}

/// A statement that the parser accepted can be carried out, with one
/// exception: an `IF` both of whose operands have a value, and whose operator
/// is none of `>`, `<` and `=`.
pub proof fn lemma_parsed_statements_execute(line: Seq<char>, variables: Map<Seq<char>, u16>)
    requires
        parse_line(line) is Some,
    ensures
        !can_execute(statement_in(line), variables) <==> {
            &&& statement_in(line) is If
            &&& value_of(words(statement_in(line)->condition)[0], variables) is Ok
            &&& value_of(words(statement_in(line)->condition)[2], variables) is Ok
            &&& !is_comparison(words(statement_in(line)->condition)[1])
        },
{
    let t = words(line);
    lemma_words_are_words(line);
    if statement_in(line) is If {
        lemma_words_of_joined(t[2], t[3], t[4]);
    }
}

/// A failed step is a runtime error that carries the line of the statement.
pub proof fn lemma_errors_carry_the_line(program: Program, machine: Machine, line: u16)
    requires
        execute(program, machine, line).1 is Err,
    ensures
        execute(program, machine, line).1->Err_0 is RuntimeError,
        execute(program, machine, line).1->Err_0->line_number == line,
{
}

/// Among the line numbers of a program from `floor` up, if there is any,
/// there is a least.
proof fn lemma_least_line(program: Program, floor: u16, some: u16)
    requires
        program.contains_key(some),
        floor <= some,
    ensures
        exists|least: u16|
            {
                &&& floor <= least
                &&& #[trigger] program.contains_key(least)
                &&& forall|k: u16| program.contains_key(k) && floor <= k ==> least <= k
            },
    decreases some - floor,
{
    if !program.contains_key(floor) {
        lemma_least_line(program, (floor + 1) as u16, some);
    }
}

/// A program has a first line unless it has no line at all, and the first
/// line is its lowest.
pub proof fn lemma_first_line(program: Program)
    ensures
        first_line(program) is None <==> forall|k: u16| !program.contains_key(k),
        first_line(program) matches Some(first) ==> is_first(program, first),
{
    if exists|k: u16| program.contains_key(k) {
        let some = choose|k: u16| program.contains_key(k);
        lemma_least_line(program, 0, some);
        let least = choose|least: u16|
            {
                &&& 0 <= least
                &&& #[trigger] program.contains_key(least)
                &&& forall|k: u16| program.contains_key(k) && 0 <= k ==> least <= k
            };
        assert(is_first(program, least));
    }
}

/// A line has a successor unless the program has no higher line, and the
/// successor is the lowest of the higher lines.
pub proof fn lemma_successor_line(program: Program, line: u16)
    ensures
        successor(program, line) is None <==> forall|k: u16|
            program.contains_key(k) ==> k <= line,
        successor(program, line) matches Some(next) ==> is_successor(program, line, next),
{
    if exists|k: u16| program.contains_key(k) && line < k {
        let some = choose|k: u16| program.contains_key(k) && line < k;
        lemma_least_line(program, (line + 1) as u16, some);
        let least = choose|least: u16|
            {
                &&& line + 1 <= least
                &&& #[trigger] program.contains_key(least)
                &&& forall|k: u16| program.contains_key(k) && line + 1 <= k ==> least <= k
            };
        assert(is_successor(program, line, least));
    } else {
        assert forall|next: u16| !is_successor(program, line, next) by {}
    }
}

/// A statement that advances from a line above which the program has no
/// other ends the run, successfully.
pub proof fn lemma_halts_after_last_line(
    program: Program,
    machine: Machine,
    line: u16,
    steps: nat,
)
    requires
        steps > 0,
        program.contains_key(line),
        can_execute(program[line], machine.variables),
        execute(program, machine, line).1 == Ok::<Flow, ErrorView>(Flow::Advance),
        forall|k: u16| program.contains_key(k) ==> k <= line,
    ensures
        run_from(program, machine, line, steps) == (
            execute(program, machine, line).0,
            Ok::<Progress, ErrorView>(Progress::Halted),
        ),
{
    assert forall|next: u16| !is_successor(program, line, next) by {}
    assert(successor(program, line) is None);
}

/// A run that was paused goes on from where it stopped: running `first`
/// steps and then `more` is running `first + more` at once.
pub proof fn lemma_run_resumes(
    program: Program,
    machine: Machine,
    line: u16,
    first: nat,
    more: nat,
)
    ensures
        run_from(program, machine, line, first + more) == match run_from(
            program,
            machine,
            line,
            first,
        ) {
            (paused, Ok(Progress::Paused { line: next })) => run_from(program, paused, next, more),
            ended => ended,
        },
    decreases first,
{
    if first > 0 && program.contains_key(line) && can_execute(program[line], machine.variables) {
        let (after, flow) = execute(program, machine, line);
        match flow {
            Err(e) => {},
            Ok(Flow::Jump { line: target }) => {
                lemma_run_resumes(program, after, target, (first - 1) as nat, more);
                assert((first - 1) as nat + more == (first + more - 1) as nat);
            },
            Ok(Flow::Advance) => match successor(program, line) {
                Some(next) => {
                    lemma_run_resumes(program, after, next, (first - 1) as nat, more);
                    assert((first - 1) as nat + more == (first + more - 1) as nat);
                },
                None => {},
            },
        }
    }
}

/// However many statements a run has carried out: once it stands at a line
/// above which the program has no other, and the statement there advances,
/// the run ends successfully with the next step.
pub proof fn lemma_run_ends_after_last_line(
    program: Program,
    machine: Machine,
    start: u16,
    before: nat,
    more: nat,
)
    requires
        more > 0,
        run_from(program, machine, start, before).1 is Ok,
        run_from(program, machine, start, before).1->Ok_0 is Paused,
        ({
            let (paused, progress) = run_from(program, machine, start, before);
            let line = progress->Ok_0->Paused_line;
            &&& program.contains_key(line)
            &&& can_execute(program[line], paused.variables)
            &&& execute(program, paused, line).1 == Ok::<Flow, ErrorView>(Flow::Advance)
            &&& forall|k: u16| program.contains_key(k) ==> k <= line
        }),
    ensures
        ({
            let (paused, progress) = run_from(program, machine, start, before);
            let line = progress->Ok_0->Paused_line;
            run_from(program, machine, start, before + more) == (
                execute(program, paused, line).0,
                Ok::<Progress, ErrorView>(Progress::Halted),
            )
        }),
{
    let (paused, progress) = run_from(program, machine, start, before);
    let line = progress->Ok_0->Paused_line;
    lemma_run_resumes(program, machine, start, before, more);
    lemma_halts_after_last_line(program, paused, line, more);
}

/// A `PRINT` of a variable writes the number that the last `READ` into that
/// variable took from the input.
pub proof fn lemma_print_after_read(
    program: Program,
    machine: Machine,
    read_at: u16,
    print_at: u16,
    name: Seq<char>,
)
    requires
        program.contains_key(read_at),
        program.contains_key(print_at),
        program[read_at] == (StatementView::Read { var_name: name }),
        program[print_at] == (StatementView::Print { value: name }),
        name.len() > 0,
        is_upper(name[0]),
        execute(program, machine, read_at).1 is Ok,
    ensures
        ({
            let line = trimmed(machine.input.take(line_end(machine.input, 0)));
            let after = execute(program, machine, read_at).0;
            &&& parse_u16(line) is Some
            &&& execute(program, after, print_at) == (
                Machine {
                    output: machine.output + decimal(parse_u16(line)->0 as nat) + seq!['\n'],
                    ..after
                },
                Ok::<Flow, ErrorView>(Flow::Advance),
            )
        }),
{
}

/// Whether the variable of every `READ` of the program starts with an
/// uppercase letter.
pub open spec fn reads_variables(program: Program) -> bool {
    forall|line: u16| #[trigger]
        program.contains_key(line) && program[line] is Read ==> program[line]->var_name.len() > 0
            && is_upper(program[line]->var_name[0])
}

/// Whether every variable that has a value starts with an uppercase letter.
pub open spec fn uppercase_led(variables: Map<Seq<char>, u16>) -> bool {
    forall|name: Seq<char>| #[trigger]
        variables.contains_key(name) ==> name.len() > 0 && is_upper(name[0])
}

/// Loading a line into a program whose `READ`s name variables leaves a
/// program whose `READ`s name variables.
pub proof fn lemma_add_reads_variables(program: Program, line: Seq<char>)
    requires
        reads_variables(program),
    ensures
        reads_variables(installed(program, line)),
{
    if parse_line(line) is Some && statement_in(line) is Read {
        lemma_read_names_a_variable(line);
    }
}

/// A step gives no value to a name that does not start with an uppercase
/// letter, writes behind the output that is there, and reads from the front
/// of the input.
pub proof fn lemma_step_keeps_order(program: Program, machine: Machine, line: u16)
    requires
        program.contains_key(line),
        can_execute(program[line], machine.variables),
        reads_variables(program),
        uppercase_led(machine.variables),
    ensures
        uppercase_led(execute(program, machine, line).0.variables),
        machine.output.is_prefix_of(execute(program, machine, line).0.output),
        execute(program, machine, line).0.input.is_suffix_of(machine.input),
{
    let after = execute(program, machine, line).0;
    lemma_line_end(machine.input, 0);
    assert(machine.output =~= after.output.subrange(0, machine.output.len() as int));
    assert(after.input =~= machine.input.subrange(
        machine.input.len() - after.input.len(),
        machine.input.len() as int,
    ));
}

/// The end of a line lies within the text.
pub proof fn lemma_line_end(input: Seq<char>, i: int)
    requires
        0 <= i <= input.len(),
    ensures
        i <= line_end(input, i) <= input.len(),
    decreases input.len() - i,
{
    if i < input.len() && input[i] != '\n' {
        lemma_line_end(input, i + 1);
    }
}

/// A run gives no value to a name that does not start with an uppercase
/// letter, writes behind the output that is there, and reads from the front
/// of the input.
pub proof fn lemma_run_keeps_order(program: Program, machine: Machine, line: u16, steps: nat)
    requires
        reads_variables(program),
        uppercase_led(machine.variables),
    ensures
        uppercase_led(run_from(program, machine, line, steps).0.variables),
        machine.output.is_prefix_of(run_from(program, machine, line, steps).0.output),
        run_from(program, machine, line, steps).0.input.is_suffix_of(machine.input),
    decreases steps,
{
    let end = run_from(program, machine, line, steps).0;
    if steps == 0 || !program.contains_key(line) || !can_execute(
        program[line],
        machine.variables,
    ) {
        assert(machine.output =~= end.output.subrange(0, machine.output.len() as int));
        assert(end.input =~= machine.input.subrange(0, machine.input.len() as int));
    } else {
        let (after, flow) = execute(program, machine, line);
        lemma_step_keeps_order(program, machine, line);
        match flow {
            Err(e) => {},
            Ok(Flow::Jump { line: target }) => {
                lemma_run_keeps_order(program, after, target, (steps - 1) as nat);
                lemma_prefix_of_prefix(machine.output, after.output, end.output);
                lemma_suffix_of_suffix(end.input, after.input, machine.input);
            },
            Ok(Flow::Advance) => match successor(program, line) {
                Some(next) => {
                    lemma_run_keeps_order(program, after, next, (steps - 1) as nat);
                    lemma_prefix_of_prefix(machine.output, after.output, end.output);
                    lemma_suffix_of_suffix(end.input, after.input, machine.input);
                },
                None => {},
            },
        }
    }
}

/// The start of the start of a text is a start of the text.
pub proof fn lemma_prefix_of_prefix(a: Seq<char>, b: Seq<char>, c: Seq<char>)
    requires
        a.is_prefix_of(b),
        b.is_prefix_of(c),
    ensures
        a.is_prefix_of(c),
{
    assert(a =~= c.subrange(0, a.len() as int)) by {
        assert(a == b.subrange(0, a.len() as int));
        assert(b == c.subrange(0, b.len() as int));
    }
}

/// The end of the end of a text is an end of the text.
pub proof fn lemma_suffix_of_suffix(a: Seq<char>, b: Seq<char>, c: Seq<char>)
    requires
        a.is_suffix_of(b),
        b.is_suffix_of(c),
    ensures
        a.is_suffix_of(c),
{
    assert(a =~= c.subrange(c.len() - a.len(), c.len() as int)) by {
        assert(a == b.subrange(b.len() - a.len(), b.len() as int));
        assert(b == c.subrange(c.len() - b.len(), c.len() as int));
    }
}

} // verus!
