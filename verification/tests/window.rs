use waterlevels::util::ThreeElemWindowMut;

#[test]
fn test_empty() {
    let v = vec![] as Vec<()>;
    let mut windows = ThreeElemWindowMut::new(v);

    while let Some(_) = windows.next() {
        assert!(false, "This cannot happen as slice is too short");
    }
}

#[test]
fn util_test_one_element() {
    let v = vec![()];
    let mut windows = ThreeElemWindowMut::new(v);

    while let Some(_) = windows.next() {
        assert!(false, "This cannot happen as slice is too short");
    }
}

#[test]
fn test_two_elements() {
    let v = vec![(), ()];
    let mut windows = ThreeElemWindowMut::new(v);

    while let Some(_) = windows.next() {
        assert!(false, "This cannot happen as slice is too short");
    }
}

#[test]
fn test_three_elements() {
    let v = vec![(), (), ()];
    let mut windows = ThreeElemWindowMut::new(v);

    let mut cnt = 0;
    while let Some(_) = windows.next() {
        assert_eq!(cnt, 0, "Iterated more than once, cannot happen as we only have three elements");
        cnt += 1;
    }
}

#[test]
fn util_test_four_elements() {
    let v = vec![(), (), (), ()];
    let mut windows = ThreeElemWindowMut::new(v);

    let mut cnt = 0;
    while let Some(_) = windows.next() {
        assert!(cnt <= 1, "Iterated more than twice, cannot happen as we only have four elements");
        cnt += 1;
    }
}

#[test]
fn test_mutable_access() {
    let v = vec![1, 1, 1, 1];
    let mut windows = ThreeElemWindowMut::new(v);

    while let Some(start) = windows.next() {
        let mut k = 0;
        while k < 3 {
            let bumped = *windows.get(start + k) + 1;
            windows.set(start + k, bumped);
            k += 1;
        }
    }

    assert_eq!(windows.into_inner(), vec![2, 3, 3, 2]);
}

#[test]
fn test_mutable_access_2() {
    let v = vec![1, 1, 1, 1, 1];
    let mut windows = ThreeElemWindowMut::new(v);

    while let Some(start) = windows.next() {
        let mut k = 0;
        while k < 3 {
            let bumped = *windows.get(start + k) + 1;
            windows.set(start + k, bumped);
            k += 1;
        }
    }

    assert_eq!(windows.into_inner(), vec![2, 3, 4, 3, 2]);
}

#[test]
fn window_count_matches_length() {
    // a buffer of n >= 3 elements yields exactly n - 2 windows
    let v = vec![0u8; 9];
    let mut windows = ThreeElemWindowMut::new(v);
    let mut cnt = 0;
    while let Some(start) = windows.next() {
        assert_eq!(start, cnt);
        cnt += 1;
    }
    assert_eq!(cnt, 7);
}
