use facecrop::latest::{Latest, Token};
use facecrop::stage::{dropped_between, Cadence, Follower, Intake, Phase};

#[test]
fn nothing_dropped_between_neighbouring_versions() {
    let mut m = Latest::new();
    m.put(1u8);
    let first = m.token();
    assert_eq!(dropped_between(Token::default(), first), None);
    assert_eq!(dropped_between(first, first), None);
}

#[test]
fn dropped_versions_are_the_gap_less_one() {
    let mut m = Latest::new();
    m.put(1u8);
    let first = m.token();
    m.put(2);
    m.put(3);
    m.put(4);
    assert_eq!(dropped_between(first, m.token()), Some(2));
    assert_eq!(dropped_between(Token::default(), m.token()), Some(3));
}

#[test]
fn cadence_needs_a_round_of_at_least_one() {
    assert!(Cadence::new(0).is_none());
    assert!(Cadence::new(1).is_some());
    assert!(Follower::new(0).is_none());
}

#[test]
fn cadence_of_one_is_always_due() {
    let mut c = Cadence::new(1).expect("a round of one");
    for _ in 0..5 {
        assert!(c.tick());
    }
}

#[test]
fn cadence_of_three_is_due_on_the_first_of_each_three() {
    let mut c = Cadence::new(3).expect("a round of three");
    let due: Vec<bool> = (0..7).map(|_| c.tick()).collect();
    assert_eq!(due, vec![true, false, false, true, false, false, true]);
}

#[test]
fn every_third_of_thirty_inputs_gives_ten_outputs() {
    let mut frames: Latest<u32> = Latest::new();
    let mut results: Latest<u32> = Latest::new();
    let mut stage = Follower::new(3).expect("a round of three");
    let mut outputs = 0;
    let mut shown: Vec<u32> = Vec::new();
    for n in 0..30u32 {
        frames.put(n);
        let (token, frame) = frames.when_changed_from(stage.token()).expect("a new frame");
        let intake = stage.accept(token);
        assert_eq!(intake.missed, 0);
        if intake.due {
            results.put(frame * 100);
            outputs += 1;
        }
        shown.push(results.peek().expect("the first input is worked on"));
    }
    assert_eq!(outputs, 10);
    assert_eq!(results.token().gap_since(Token::default()), 10);
    for (n, seen) in shown.iter().enumerate() {
        assert_eq!(*seen, (n as u32 / 3) * 3 * 100);
    }
}

#[test]
fn follower_counts_what_it_missed() {
    let mut frames: Latest<char> = Latest::new();
    let mut stage = Follower::new(2).expect("a round of two");
    assert_eq!(stage.token(), Token::default());
    frames.put('a');
    let (token, _) = frames.when_changed_from(stage.token()).expect("a frame");
    assert_eq!(stage.accept(token), Intake { missed: 0, due: true });
    assert_eq!(stage.token(), token);
    assert!(frames.when_changed_from(stage.token()).is_none());
    frames.put('b');
    frames.put('c');
    frames.put('d');
    let (token, frame) = frames.when_changed_from(stage.token()).expect("newer frames");
    assert_eq!(frame, 'd');
    assert_eq!(stage.accept(token), Intake { missed: 2, due: false });
    frames.put('e');
    let (token, _) = frames.when_changed_from(stage.token()).expect("a newer frame");
    assert_eq!(stage.accept(token), Intake { missed: 0, due: true });
}

#[test]
fn loop_starts_without_a_face_and_turns_steady_with_one() {
    let p = Phase::Starting;
    assert!(!p.shows_features());
    assert_eq!(p.next(false, false), Phase::Starting);
    let p = p.next(false, true);
    assert_eq!(p, Phase::Steady);
    assert!(p.shows_features());
}

#[test]
fn steady_loop_never_goes_back_to_starting() {
    let p = Phase::Steady;
    assert_eq!(p.next(false, false), Phase::Steady);
    assert_eq!(p.next(false, true), Phase::Steady);
}

#[test]
fn stop_ends_the_loop_from_any_phase() {
    for p in [Phase::Starting, Phase::Steady, Phase::Exiting] {
        assert_eq!(p.next(true, false), Phase::Exiting);
        assert_eq!(p.next(true, true), Phase::Exiting);
    }
    assert_eq!(Phase::Exiting.next(false, true), Phase::Exiting);
    assert_eq!(Phase::Exiting.next(false, false), Phase::Exiting);
    assert!(!Phase::Exiting.shows_features());
}
