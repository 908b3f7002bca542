use cirq::{Cirq, Error};

#[test]
fn try_push_returns_expected_result_filling_buffer() {
    let slice = vec![0_u8; 5];
    let mut cirq = Cirq::from_slice(slice);

    for i in 0usize..5 {
        assert_eq!(cirq.try_push(0), Ok(()));
        assert_eq!(cirq.len(), i + 1);
    }

    assert_eq!(cirq.is_full(), true);
    assert_eq!(cirq.try_push(0), Err(Error::FullBuffer));
}

#[test]
fn pop_returns_none_on_empty_cirq() {
    let slice = vec![0_u8; 5];
    let mut cirq = Cirq::from_slice(slice);

    assert_eq!(cirq.is_empty(), true);
    assert_eq!(cirq.pop(), None);
}

#[test]
fn pop_returns_expected_results_for_draining_buffer() {
    let slice = vec![0_u8; 5];
    let mut cirq = Cirq::from_slice(slice);

    for i in 0_u8..5 {
        cirq.try_push(i).unwrap();
        assert_eq!(cirq.len(), (i + 1) as usize);
    }

    for i in 0_u8..5 {
        assert_eq!(cirq.pop(), Some(i));
        assert_eq!(cirq.len(), (4 - i) as usize);
    }

    assert_eq!(cirq.pop(), None);
}

#[test]
fn full_cycle_capacity_five() {
    let mut cirq = Cirq::from_slice(vec![0_i32; 5]);

    for i in 0i32..5 {
        assert_eq!(cirq.try_push(i), Ok(()));
    }
    assert_eq!(cirq.len(), 5);
    assert_eq!(cirq.is_full(), true);

    for i in 5i32..10 {
        assert_eq!(cirq.try_push(i), Err(Error::FullBuffer));
        assert_eq!(cirq.len(), 5);
    }

    for i in 0i32..5 {
        assert_eq!(cirq.pop(), Some(i));
    }
    assert_eq!(cirq.pop(), None);
}

#[test]
fn zero_capacity_buffer_is_full_and_empty() {
    let mut cirq: Cirq<u8> = Cirq::from_slice(Vec::new());

    assert_eq!(cirq.is_full(), true);
    assert_eq!(cirq.is_empty(), true);
    assert_eq!(cirq.len(), 0);
    assert_eq!(cirq.try_push(1), Err(Error::FullBuffer));
    assert_eq!(cirq.pop(), None);
    assert_eq!(cirq.len(), 0);
}

#[test]
fn wraparound_preserves_push_order() {
    let mut cirq = Cirq::from_slice(vec![0_u16; 3]);

    assert_eq!(cirq.try_push(10), Ok(()));
    assert_eq!(cirq.try_push(20), Ok(()));
    assert_eq!(cirq.try_push(30), Ok(()));
    assert_eq!(cirq.pop(), Some(10));
    assert_eq!(cirq.pop(), Some(20));

    // The next two pushes wrap past the end of the region.
    assert_eq!(cirq.try_push(40), Ok(()));
    assert_eq!(cirq.try_push(50), Ok(()));
    assert_eq!(cirq.is_full(), true);

    assert_eq!(cirq.pop(), Some(30));
    assert_eq!(cirq.pop(), Some(40));
    assert_eq!(cirq.pop(), Some(50));
    assert_eq!(cirq.pop(), None);
    assert_eq!(cirq.is_empty(), true);
}

#[test]
fn len_tracks_successful_pushes_and_pops() {
    let mut cirq = Cirq::from_slice(vec![0_u8; 4]);

    assert_eq!(cirq.try_push(1), Ok(()));
    assert_eq!(cirq.try_push(2), Ok(()));
    assert_eq!(cirq.len(), 2);

    assert_eq!(cirq.pop(), Some(1));
    assert_eq!(cirq.len(), 1);

    assert_eq!(cirq.try_push(3), Ok(()));
    assert_eq!(cirq.try_push(4), Ok(()));
    assert_eq!(cirq.try_push(5), Ok(()));
    assert_eq!(cirq.len(), 4);

    // A rejected push and a pop from a drained buffer count for nothing.
    assert_eq!(cirq.try_push(6), Err(Error::FullBuffer));
    assert_eq!(cirq.len(), 4);

    for expected in 2u8..6 {
        assert_eq!(cirq.pop(), Some(expected));
    }
    assert_eq!(cirq.len(), 0);
    assert_eq!(cirq.pop(), None);
    assert_eq!(cirq.len(), 0);
}

#[test]
fn drained_buffer_behaves_like_fresh_one() {
    let mut cirq = Cirq::from_slice(vec![0_u8; 2]);

    cirq.try_push(9).unwrap();
    cirq.try_push(8).unwrap();
    assert_eq!(cirq.pop(), Some(9));
    assert_eq!(cirq.pop(), Some(8));

    assert_eq!(cirq.is_empty(), true);
    assert_eq!(cirq.len(), 0);
    assert_eq!(cirq.pop(), None);
    assert_eq!(cirq.len(), 0);
}
