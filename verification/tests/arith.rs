use muek_engine::my_add;

#[test]
fn my_add_adds() {
    assert_eq!(my_add(2, 3), 5);
    assert_eq!(my_add(-7, 3), -4);
    assert_eq!(my_add(0, 0), 0);
    assert_eq!(my_add(i32::MAX, 0), i32::MAX);
    assert_eq!(my_add(i32::MAX, i32::MIN), -1);
    assert_eq!(my_add(i32::MIN + 1, -1), i32::MIN);
}
