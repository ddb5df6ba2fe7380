use tiny_basic::rock_paper_scissors::{is_choice, judge, play, report, Round, State};

#[test]
fn numbers_stand_for_states() {
    assert_eq!(State::from_number(1), State::Rock);
    assert_eq!(State::from_number(2), State::Scissors);
    assert_eq!(State::from_number(3), State::Paper);
    assert_eq!(State::from_number(0), State::Unknown);
    assert_eq!(State::from_number(4), State::Unknown);
    assert_eq!(State::from_number(-1), State::Unknown);
}

#[test]
fn states_have_names() {
    assert_eq!(State::Rock.name(), "Rock");
    assert_eq!(State::Scissors.name(), "Scissors");
    assert_eq!(State::Paper.name(), "Paper");
    assert_eq!(State::Unknown.name(), "Unknown");
}

#[test]
fn only_three_choices_are_valid() {
    assert!(!is_choice(0));
    assert!(is_choice(1));
    assert!(is_choice(2));
    assert!(is_choice(3));
    assert!(!is_choice(4));
    assert!(!is_choice(-128));
}

#[test]
fn equal_choices_are_a_draw() {
    assert_eq!(judge(1, 1), Round { user: State::Rock, computer: State::Rock, draw: true });
    assert_eq!(judge(1, 3), Round { user: State::Rock, computer: State::Paper, draw: false });
    assert_eq!(judge(9, 2), Round { user: State::Unknown, computer: State::Scissors, draw: false });
}

#[test]
fn the_machine_picks_one_of_its_three_choices() {
    let mut picked = [false; 3];
    for _ in 0..400 {
        let round = play(2);
        assert_eq!(round.user, State::Scissors);
        match round.computer {
            State::Rock => picked[0] = true,
            State::Scissors => picked[1] = true,
            State::Paper => picked[2] = true,
            State::Unknown => panic!("the machine showed nothing"),
        }
        assert_eq!(round.draw, round.computer == State::Scissors);
    }
    assert_eq!(picked, [true, true, true]);
}

#[test]
fn a_round_is_reported_in_three_lines() {
    assert_eq!(report(&judge(1, 1)), "Rock\nRock\nDraft!\n");
    assert_eq!(report(&judge(3, 2)), "Paper\nScissors\n won!\n");
}
