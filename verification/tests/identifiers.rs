use sarex::ident::{get_random_id, numbered_id, text_of_letters, ID_LENGTH, ID_SPACE};

#[test]
fn random_identifier_has_the_asked_length() {
    for len in [0usize, 1, 10, 64] {
        let id = get_random_id(len);
        assert_eq!(id.len(), len);
        assert!(id.chars().all(|c| c.is_ascii_uppercase()));
    }
}

#[test]
fn random_identifiers_vary() {
    let first = get_random_id(ID_LENGTH);
    let mut differs = false;
    for _ in 0..20 {
        if get_random_id(ID_LENGTH) != first {
            differs = true;
        }
    }
    assert!(differs);
}

#[test]
fn numbered_identifier_writes_base_26_lowest_digit_first() {
    assert_eq!(numbered_id(0), "AAAAAAAAAA");
    assert_eq!(numbered_id(1), "BAAAAAAAAA");
    assert_eq!(numbered_id(25), "ZAAAAAAAAA");
    assert_eq!(numbered_id(26), "ABAAAAAAAA");
    assert_eq!(numbered_id(27), "BBAAAAAAAA");
    assert_eq!(numbered_id(26 * 26 * 3 + 26 * 2 + 1), "BCDAAAAAAA");
}

#[test]
fn numbered_identifiers_cover_the_identifier_space() {
    assert_eq!(ID_SPACE, 26u64.pow(10));
    assert_eq!(ID_LENGTH, 10);
    assert_eq!(numbered_id(ID_SPACE - 1), "ZZZZZZZZZZ");
    assert_eq!(numbered_id(ID_SPACE), "AAAAAAAAAA");
}

#[test]
fn numbered_identifiers_are_distinct_below_the_identifier_space() {
    let mut seen = std::collections::HashSet::new();
    for n in 0..2000u64 {
        assert!(seen.insert(numbered_id(n)));
    }
    for n in (ID_SPACE - 2000)..ID_SPACE {
        assert!(seen.insert(numbered_id(n)));
    }
}

#[test]
fn letters_are_counted_from_a() {
    assert_eq!(text_of_letters(&vec![0, 1, 2, 25]), "ABCZ");
    assert_eq!(text_of_letters(&vec![18, 0, 17, 4, 23]), "SAREX");
    assert_eq!(text_of_letters(&Vec::new()), "");
}
