use zero2prod::sum;

#[test]
fn test_um() {
    let actual = sum(1, 3);
    let expected = 4;
    assert_eq!(expected, actual);
}
