//! Rock, paper, scissors against the machine.
use rand::Rng;
use vstd::prelude::*;
use vstd::string::*;

verus! {

/// What a player shows.
#[derive(Debug, Clone, Copy, PartialEq, Eq, Structural)]
pub enum State {
    Rock,
    Scissors,
    Paper,
    Unknown,
}

/// What a number stands for: 1 for rock, 2 for scissors, 3 for paper.
pub open spec fn state_of(number: i8) -> State {
    if number == 1 {
        State::Rock
    } else if number == 2 {
        State::Scissors
    } else if number == 3 {
        State::Paper
    } else {
        State::Unknown
    }
}

impl State {
    /// What `number` stands for.
    pub fn from_number(number: i8) -> (state: State)
        ensures
            state == state_of(number),
    {
        if number == 1 {
            State::Rock
        } else if number == 3 {
            State::Paper
        } else if number == 2 {
            State::Scissors
        } else {
            State::Unknown
        }
    }

    /// The name of the state.
    pub open spec fn label(self) -> Seq<char> {
        match self {
            State::Rock => "Rock"@,
            State::Scissors => "Scissors"@,
            State::Paper => "Paper"@,
            State::Unknown => "Unknown"@,
        }
    }

    /// The name of the state.
    pub fn name(&self) -> (text: &'static str)
        ensures
            text@ == self.label(),
    {
        match self {
            State::Rock => "Rock",
            State::Scissors => "Scissors",
            State::Paper => "Paper",
            State::Unknown => "Unknown",
        }
    }
}

/// One round: what each side showed, and whether they showed the same.
#[derive(Debug, Clone, Copy, PartialEq, Eq, Structural)]
pub struct Round {
    pub user: State,
    pub computer: State,
    pub draw: bool,
}

/// The round in which the user chose `user` and the machine `computer`.
pub open spec fn round_of(user: i8, computer: i8) -> Round {
    Round { user: state_of(user), computer: state_of(computer), draw: user == computer }
}

/// Whether `choice` is one of the three that a player may make.
pub fn is_choice(choice: i8) -> (valid: bool)
    ensures
        valid == (1 <= choice <= 3),
{
    1 <= choice && choice <= 3
}

/// The round in which the user chose `user` and the machine `computer`.
pub fn judge(user: i8, computer: i8) -> (round: Round)
    ensures
        round == round_of(user, computer),
{
    Round {
        user: State::from_number(user),
        computer: State::from_number(computer),
        draw: user == computer,
    }
}

/// `Rng::gen_range` on the thread's generator picks a number of the
/// half-open range at random; it panics on an empty range.
#[verifier::external_body]
fn random_between(low: i8, high: i8) -> (number: i8)
    requires
        low < high,
    ensures
        low <= number < high,
{
    rand::thread_rng().gen_range(low..high)
}

/// Plays one round: the machine picks one of its three choices at random.
pub fn play(user: i8) -> (round: Round)
    ensures
        exists|computer: i8| 1 <= computer <= 3 && round == round_of(user, computer),
{
    let computer = random_between(1, 4);
    judge(user, computer)
}

/// The lines that report a round: what each side showed, then the verdict.
pub open spec fn report_of(round: Round) -> Seq<char> {
    round.user.label() + seq!['\n'] + round.computer.label() + seq!['\n'] + if round.draw {
        "Draft!\n"@
    } else {
        " won!\n"@
    }
}

/// The lines that report a round.
pub fn report(round: &Round) -> (text: String)
    ensures
        text@ == report_of(*round),
{
    let mut text = round.user.name().to_owned();
    text.push('\n');
    text.append(round.computer.name());
    text.push('\n');
    if round.draw {
        text.append("Draft!\n");
    } else {
        text.append(" won!\n");
    }
    text
}

} // verus!
