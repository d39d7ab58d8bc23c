use pwdmgr::get_even_numbers::get_even_numbers;

#[test]
fn test_get_even_numbers_positive() {
    let numbers = vec![1, 2, 3, 4, 5, 6];
    assert_eq!(get_even_numbers(&numbers), "2 - 4 - 6");
}

#[test]
fn test_get_even_numbers_negative() {
    let numbers = vec![-8, -7, -6, -5, -4, -3, -2];
    assert_eq!(get_even_numbers(&numbers), "-8 - -6 - -4 - -2");
}

#[test]
fn test_get_even_numbers_mixed() {
    let numbers = vec![-2, -3, -8, 7, 5, 3];
    assert_eq!(get_even_numbers(&numbers), "-8 - -2");
}

#[test]
fn test_get_even_numbers_empty() {
    let numbers: Vec<i32> = vec![];
    assert_eq!(get_even_numbers(&numbers), "");
    assert_eq!(get_even_numbers(&[1, 3, 5]), "");
}
