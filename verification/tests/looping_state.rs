use rho::looping_state::LoopingSequence;

#[test]
fn test_looping_state() {
    let mut s = LoopingSequence::new(vec![10, 20, 30]);

    assert_eq!(s.next(), Some(10));
    assert_eq!(s.next(), Some(20));
    assert_eq!(s.next(), Some(30));
    assert_eq!(s.next(), Some(10));
    s.reset();
    assert_eq!(s.next(), Some(10));
    assert_eq!(s.next(), Some(20));
    s.resize(1, 0);
    assert_eq!(s.next(), Some(10));
    assert_eq!(s.next(), Some(10));
}

#[test]
fn a_full_round_visits_every_value_once_in_order() {
    let data = vec![5, 1, 4, 1, 3];
    let mut s = LoopingSequence::new(data.clone());
    for round in 0..3 {
        let mut seen = vec![];
        for _ in 0..s.len() {
            seen.push(s.next().unwrap());
        }
        assert_eq!(seen, data, "round {}", round);
    }
    s.next();
    s.next();
    s.reset();
    let mut seen = vec![];
    for _ in 0..s.len() {
        seen.push(s.next().unwrap());
    }
    assert_eq!(seen, data);
}

#[test]
fn an_empty_sequence_yields_nothing() {
    let mut s: LoopingSequence<u8> = LoopingSequence::default();
    assert_eq!(s.len(), 0);
    assert_eq!(s.next(), None);
    assert_eq!(s.next(), None);
    assert_eq!(s.get_current_step(), 0);
    s.append(7);
    assert_eq!(s.next(), Some(7));
    assert_eq!(s.next(), Some(7));
}

#[test]
fn current_step_is_the_step_that_was_returned_last() {
    let mut s = LoopingSequence::new(vec!['a', 'b', 'c']);
    // nothing was returned yet: the step before the front
    assert_eq!(s.get_current_step(), 2);
    s.next();
    assert_eq!(s.get_current_step(), 0);
    s.next();
    assert_eq!(s.get_current_step(), 1);
    s.next();
    assert_eq!(s.get_current_step(), 2);
    s.next();
    assert_eq!(s.get_current_step(), 0);
}

#[test]
fn set_step_out_of_range_does_nothing() {
    let mut s = LoopingSequence::new(vec![1, 2, 3]);
    s.set_step(3, 9);
    s.set_step(usize::MAX, 9);
    assert_eq!(s.clone_data(), vec![1, 2, 3]);
    s.set_step(1, 9);
    assert_eq!(s.clone_data(), vec![1, 9, 3]);
}

#[test]
fn resize_pads_cuts_and_wraps_the_cursor() {
    let mut s = LoopingSequence::new(vec![1, 2, 3, 4, 5]);
    s.next();
    s.next();
    s.next();
    s.next();
    // the cursor stands at 4
    s.resize(3, 0);
    assert_eq!(s.clone_data(), vec![1, 2, 3]);
    // 4 wrapped into 3 is 1
    assert_eq!(s.next(), Some(2));
    s.resize(5, 7);
    assert_eq!(s.clone_data(), vec![1, 2, 3, 7, 7]);
    assert_eq!(s.next(), Some(3));
    assert_eq!(s.next(), Some(7));
    s.resize(0, 7);
    assert_eq!(s.len(), 0);
    assert_eq!(s.next(), None);
    s.resize(2, 8);
    assert_eq!(s.clone_data(), vec![8, 8]);
    assert_eq!(s.get_current_step(), 1);
}

#[test]
fn the_cursor_is_at_the_front_after_the_last_value() {
    let mut s = LoopingSequence::new(vec![1, 2, 3]);
    s.next();
    s.next();
    s.next();
    // a longer sequence is played from its front after a full round
    s.resize(5, 9);
    assert_eq!(s.next(), Some(1));
}

#[test]
fn set_data_keeps_the_cursor_and_next_starts_over_past_the_end() {
    let mut s = LoopingSequence::new(vec![1, 2, 3, 4]);
    s.next();
    s.next();
    s.next();
    s.set_data(vec![7, 8]);
    assert_eq!(s.clone_data(), vec![7, 8]);
    // the cursor, 3, lies past the end
    assert_eq!(s.next(), Some(7));
    assert_eq!(s.next(), Some(8));
    s.set_data(vec![4, 5, 6]);
    assert_eq!(s.next(), Some(4));
}

#[test]
fn clear_and_clone() {
    let mut s = LoopingSequence::new(vec![true, false]);
    s.next();
    let mut t = s.clone();
    assert_eq!(t.clone_data(), vec![true, false]);
    assert_eq!(t.next(), Some(false));
    assert_eq!(s.next(), Some(false));
    s.clear();
    assert_eq!(s.len(), 0);
    assert_eq!(s.clone_data(), Vec::<bool>::new());
    assert_eq!(t.len(), 2);
}
