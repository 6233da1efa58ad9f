use facecrop::latest::{Latest, Token};

#[test]
fn empty_mailbox_has_nothing_to_peek() {
    let m: Latest<u32> = Latest::new();
    assert_eq!(m.peek(), None);
    assert_eq!(m.token(), Token::default());
}

#[test]
fn default_mailbox_is_empty() {
    let m: Latest<String> = Latest::default();
    assert_eq!(m.peek(), None);
    assert!(m.when_changed_from(Token::default()).is_none());
}

#[test]
fn empty_mailbox_never_reports_a_change() {
    let mut other: Latest<u8> = Latest::new();
    other.put(1);
    let foreign = other.token();
    let m: Latest<u8> = Latest::new();
    assert!(m.when_changed_from(foreign).is_none());
    assert!(m.when_changed_from(Token::default()).is_none());
}

#[test]
fn peek_returns_the_last_value_put() {
    let mut m = Latest::new();
    m.put(String::from("first"));
    m.put(String::from("second"));
    assert_eq!(m.peek(), Some(String::from("second")));
    assert_eq!(m.peek(), Some(String::from("second")));
    m.put(String::from("third"));
    assert_eq!(m.peek(), Some(String::from("third")));
}

#[test]
fn peek_does_not_move_the_token() {
    let mut m = Latest::new();
    m.put(5u32);
    let before = m.token();
    assert_eq!(m.peek(), Some(5));
    assert_eq!(m.token(), before);
}

#[test]
fn change_is_reported_once_per_version() {
    let mut m = Latest::new();
    m.put(10u32);
    let (token, value) = m.when_changed_from(Token::default()).expect("a value was put");
    assert_eq!(value, 10);
    assert_ne!(token, Token::default());
    assert!(m.when_changed_from(token).is_none());
    m.put(11);
    let (next, value) = m.when_changed_from(token).expect("a newer value was put");
    assert_eq!(value, 11);
    assert_ne!(next, token);
    assert_ne!(next, Token::default());
}

#[test]
fn two_puts_without_a_read_give_the_second_value() {
    let mut m = Latest::new();
    m.put('a');
    m.put('b');
    let (token, value) = m.when_changed_from(Token::default()).expect("values were put");
    assert_eq!(value, 'b');
    assert_eq!(token.gap_since(Token::default()), 2);
    assert!(m.when_changed_from(token).is_none());
}

#[test]
fn gap_counts_the_puts_between_two_reads() {
    let mut m = Latest::new();
    m.put(0u32);
    let (seen, _) = m.when_changed_from(Token::default()).expect("a value was put");
    assert_eq!(seen.gap_since(Token::default()), 1);
    m.put(1);
    m.put(2);
    m.put(3);
    let (now, value) = m.when_changed_from(seen).expect("newer values were put");
    assert_eq!(value, 3);
    assert_eq!(now.gap_since(seen), 3);
    assert_eq!(now.gap_since(now), 0);
}

#[test]
fn gap_wraps_round_the_counter() {
    let mut m = Latest::new();
    m.put(0u8);
    let one = m.token();
    assert_eq!(Token::default().gap_since(one), usize::MAX);
    assert_eq!(one.gap_since(Token::default()), 1);
}

#[test]
fn consumers_at_their_own_pace_see_increasing_versions_and_the_final_value() {
    let mut m = Latest::new();
    let paces: [u32; 3] = [1, 7, 64];
    let mut held = [Token::default(); 3];
    let mut seen: [Vec<u32>; 3] = [Vec::new(), Vec::new(), Vec::new()];
    let mut counted: [usize; 3] = [0, 0, 0];
    for n in 1..=10_000u32 {
        m.put(n);
        for c in 0..3 {
            if n % paces[c] == 0 {
                let (token, value) = m.when_changed_from(held[c]).expect("a newer value");
                assert_ne!(token, held[c]);
                counted[c] += token.gap_since(held[c]);
                held[c] = token;
                if let Some(last) = seen[c].last() {
                    assert!(*last < value);
                }
                seen[c].push(value);
            }
        }
    }
    for c in 0..3 {
        match m.when_changed_from(held[c]) {
            Some((token, value)) => {
                counted[c] += token.gap_since(held[c]);
                held[c] = token;
                seen[c].push(value);
            }
            None => {}
        }
        assert_eq!(held[c], m.token());
        assert_eq!(seen[c].last(), Some(&10_000));
        assert_eq!(counted[c], 10_000);
        assert!(m.when_changed_from(held[c]).is_none());
    }
    assert_eq!(seen[0].len(), 10_000);
    assert_eq!(seen[1].len(), 10_000 / 7 + 1);
}
