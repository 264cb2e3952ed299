use brado::common::{
    decimal_digits, decimal_symbols, get_digits, get_symbols, is_repeated, join_digits,
    push_decimal, random_decimal_vector, random_element_from_vector,
    random_string_from_alphabet, sum_weighted, to_decimal, unmask,
};
use brado::layout::{insert_symbols, is_bare_of, is_masked_of, same_symbols};

#[test]
fn common_to_decimal() {
    assert_eq!(to_decimal('0'), Some(0));
    assert_eq!(to_decimal('1'), Some(1));
    assert_eq!(to_decimal('9'), Some(9));
    assert_eq!(to_decimal('/'), None);
    assert_eq!(to_decimal(':'), None);
    assert_eq!(to_decimal('a'), None);
    assert_eq!(to_decimal('A'), None);
    assert_eq!(to_decimal('٣'), None);
}

#[test]
fn common_is_repeated() {
    assert!(is_repeated(&[1, 1, 1]));
    assert!(!is_repeated(&[1, 2, 1]));
    assert!(!is_repeated(&[]));
    assert!(is_repeated(&[5]));
    assert!(!is_repeated(&[1, 1, 2]));
}

#[test]
fn common_get_digits() {
    assert_eq!(get_digits("111", to_decimal), vec![1, 1, 1]);
    assert_eq!(get_digits("121", to_decimal), vec![1, 2, 1]);
    assert_eq!(get_digits("1.1-1", to_decimal), vec![1, 1, 1]);
    assert_eq!(get_digits("", to_decimal), Vec::<u16>::new());
    assert_eq!(get_digits("abc", to_decimal), Vec::<u16>::new());
    assert_eq!(decimal_digits("6a3"), vec![6, 3]);
}

#[test]
fn common_get_digits_with_another_converter() {
    let vowels = |c: char| if c == 'a' { Some(1u16) } else { None };
    assert_eq!(get_digits("banana", vowels), vec![1, 1, 1]);
    assert_eq!(get_symbols("aba", vowels), vec![(1, 'b')]);
    assert_eq!(unmask("banana", vowels), String::from("111"));
}

#[test]
fn common_get_symbols() {
    assert_eq!(get_symbols("1.1-1", to_decimal), vec![(1, '.'), (3, '-')]);
    assert_eq!(get_symbols("111", to_decimal), vec![]);
    assert_eq!(get_symbols("", to_decimal), vec![]);
    assert_eq!(get_symbols("é1é", to_decimal), vec![(0, 'é'), (2, 'é')]);
    assert_eq!(decimal_symbols("1 2"), vec![(1, ' ')]);
}

#[test]
fn common_unmask() {
    assert_eq!(unmask("1.1-1", to_decimal), String::from("111"));
    assert_eq!(unmask("639.292.470-11", to_decimal), String::from("63929247011"));
    assert_eq!(unmask("...", to_decimal), String::new());
    let wide = |c: char| if c == 'x' { Some(4071u16) } else { to_decimal(c) };
    assert_eq!(unmask("1x0", wide), String::from("140710"));
}

#[test]
fn common_decimal_notation() {
    let mut out = String::from("n=");
    push_decimal(&mut out, 0);
    push_decimal(&mut out, 7);
    push_decimal(&mut out, 10);
    push_decimal(&mut out, 65535);
    assert_eq!(out, "n=071065535");
    assert_eq!(join_digits(&[6, 3, 9]), "639");
    assert_eq!(join_digits(&[]), "");
    assert_eq!(join_digits(&[17, 0, 203]), "170203");
}

#[test]
fn common_sum_weighted() {
    assert_eq!(sum_weighted(&[1, 2, 3], &[3, 2, 1]), 10);
    assert_eq!(sum_weighted(&[], &[3, 2, 1]), 0);
    assert_eq!(sum_weighted(&[9, 9], &[2, 3, 4]), 45);
    assert_eq!(sum_weighted(&[65535, 65535], &[65535, 65535]), 2 * 65535 * 65535);
}

#[test]
fn common_random_decimal_vector() {
    for size in [0usize, 1, 10, 300] {
        let result = random_decimal_vector(size);
        assert_eq!(result.len(), size);
        assert!(result.iter().all(|d| *d < 10));
    }
}

#[test]
fn common_random_digits_vary() {
    let drawn = random_decimal_vector(400);
    assert!(drawn.iter().any(|d| *d != drawn[0]));
}

#[test]
fn common_random_element_from_vector() {
    let options = vec![0, 1, 2, 3, 4, 5, 6, 7, 8, 9, 10];
    for _ in 0..200 {
        let result = random_element_from_vector(&options);
        assert_eq!(options.contains(&result), true);
    }
    assert_eq!(random_element_from_vector(&["only"]), "only");
}

#[test]
fn common_random_string_from_alphabet() {
    let result = random_string_from_alphabet(10, &['1', '2', '3']);
    assert_eq!(result.len(), 10);
    assert!(result.chars().all(|c| ['1', '2', '3'].contains(&c)));
    assert_eq!(random_string_from_alphabet(0, &[]), "");
    assert_eq!(random_string_from_alphabet(3, &['é']), "ééé");
}

#[test]
fn layout_recognition() {
    let layout = [(3usize, '.'), (7usize, '.'), (11usize, '-')];
    assert!(is_masked_of("639.292.470-11", 11, &layout));
    assert!(!is_masked_of("639.292.470-11", 10, &layout));
    assert!(!is_masked_of("639.292.470-11", 11, &layout[..2]));
    assert!(!is_masked_of("63929247011", 11, &layout));
    assert!(is_masked_of("63929247011", 11, &[]));
    assert!(is_bare_of("63929247011", 11));
    assert!(!is_bare_of("63929247011", 12));
    assert!(!is_bare_of("6392924701a", 11));
    assert!(same_symbols(&layout, &layout));
    assert!(!same_symbols(&layout, &[(3, '.'), (7, '.'), (11, '.')]));
    assert!(!same_symbols(&layout, &[(3, '.'), (8, '.'), (11, '-')]));
    assert!(!same_symbols(&layout[..2], &layout));
}

#[test]
fn layout_insertion() {
    assert_eq!(insert_symbols("63929247011", &[(3, '.'), (7, '.'), (11, '-')]), "639.292.470-11");
    assert_eq!(insert_symbols("ab", &[]), "ab");
    assert_eq!(insert_symbols("ab", &[(0, '<'), (3, '>')]), "<ab>");
    assert_eq!(insert_symbols("ab", &[(1, '-'), (2, '-')]), "a--b");
    assert_eq!(insert_symbols("", &[(0, 'x'), (1, 'y')]), "xy");
    assert_eq!(insert_symbols("éa", &[(1, '.')]), "é.a");
}
