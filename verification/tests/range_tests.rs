use bagextract::in_steps;

#[test]
fn identity() {
    let actual = in_steps(0..100, 1);
    let expected = vec![0..100];

    assert_eq!(expected, actual);
}

#[test]
fn two() {
    let actual = in_steps(0..100, 2);
    let expected = vec![0..50, 50..100];

    assert_eq!(expected, actual);
}

#[test]
fn three() {
    let actual = in_steps(0..100, 3);
    let expected = vec![0..34, 34..68, 68..100];

    assert_eq!(expected, actual);
}

#[test]
fn uneven_tail() {
    let actual = in_steps(0..10, 4);
    let expected = vec![0..3, 3..6, 6..9, 9..10];

    assert_eq!(expected, actual);
}

#[test]
fn more_steps_than_items() {
    let actual = in_steps(0..3, 8);
    let expected = vec![0..1, 1..2, 2..3];

    assert_eq!(expected, actual);
}
