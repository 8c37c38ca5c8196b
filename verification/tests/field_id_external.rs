use wf::field_id::from_string;

fn assert_accurate_mappings(mappings: Vec<(&str, u64)>) {
    for (key, val) in mappings.iter() {
        assert_eq!(from_string(key), Some(*val));
    }
}

#[test]
fn test_field_id_a_is_zero() {
    assert_eq!(from_string("a"), Some(0));
}

#[test]
fn test_field_id_capital_a_is_none() {
    assert_eq!(from_string("A"), None);
}

fn assert_invalid_char(num: u32) {
    match char::from_u32(num) {
        Some(ch) => {
            assert_eq!(None, from_string(ch.to_string().as_str()));
        }
        None => panic!("Somehow, {} is an invalid char!", num),
    }
}

#[test]
fn test_field_id_invalid_one_digit() {
    for num in 0..96 {
        assert_invalid_char(num);
    }

    for num in 123..255 {
        assert_invalid_char(num);
    }
}

#[test]
fn test_field_id_one_digit() {
    assert_accurate_mappings(vec![
        ("a", 0),
        ("b", 1),
        ("c", 2),
        ("d", 3),
        ("e", 4),
        ("f", 5),
        ("g", 6),
        ("h", 7),
        ("i", 8),
        ("j", 9),
        ("k", 10),
        ("l", 11),
        ("m", 12),
        ("n", 13),
        ("o", 14),
        ("p", 15),
        ("q", 16),
        ("r", 17),
        ("s", 18),
        ("t", 19),
        ("u", 20),
        ("v", 21),
        ("w", 22),
        ("x", 23),
        ("y", 24),
        ("z", 25),
    ]);
}

#[test]
fn test_field_id_two_digits_starting_with_a() {
    assert_accurate_mappings(vec![
        ("aa", 26),
        ("ab", 27),
        ("ac", 28),
        ("ad", 29),
        ("ae", 30),
        ("af", 31),
        ("ag", 32),
        ("ah", 33),
        ("ai", 34),
        ("aj", 35),
        ("ak", 36),
        ("al", 37),
        ("am", 38),
        ("an", 39),
        ("ao", 40),
        ("ap", 41),
        ("aq", 42),
        ("ar", 43),
        ("as", 44),
        ("at", 45),
        ("au", 46),
        ("av", 47),
        ("aw", 48),
        ("ax", 49),
        ("ay", 50),
        ("az", 51),
    ]);
}

#[test]
fn test_field_id_two_digits_starting_with_b() {
    assert_accurate_mappings(vec![
        ("ba", 52),
        ("bb", 53),
        ("bc", 54),
        ("bd", 55),
        ("be", 56),
        ("bf", 57),
        ("bg", 58),
        ("bh", 59),
        ("bi", 60),
        ("bj", 61),
        ("bk", 62),
        ("bl", 63),
        ("bm", 64),
        ("bn", 65),
        ("bo", 66),
        ("bp", 67),
        ("bq", 68),
        ("br", 69),
        ("bs", 70),
        ("bt", 71),
        ("bu", 72),
        ("bv", 73),
        ("bw", 74),
        ("bx", 75),
        ("by", 76),
        ("bz", 77),
    ]);
}

#[test]
fn test_field_id_two_digits_starting_with_c() {
    assert_accurate_mappings(vec![("ca", 78), ("cb", 79), ("cy", 102), ("cz", 103)]);
}

#[test]
fn test_field_id_two_digits_starting_with_y() {
    assert_accurate_mappings(vec![("ya", 650), ("yb", 651), ("yy", 674), ("yz", 675)]);
}

#[test]
fn test_field_id_two_digits_starting_with_z() {
    assert_accurate_mappings(vec![("za", 676), ("zb", 677), ("zy", 700), ("zz", 701)]);
}

#[test]
fn test_field_id_three_digits_starting_with_a() {
    assert_accurate_mappings(vec![
        ("aaa", 702),
        ("aab", 703),
        ("aay", 726),
        ("aaz", 727),
        ("aba", 728),
        ("abb", 729),
    ]);
}

#[test]
fn test_field_id_three_digits_starting_with_b() {
    assert_accurate_mappings(vec![
        ("baa", 1378),
        ("bab", 1379),
        ("bay", 1402),
        ("baz", 1403),
        ("bba", 1404),
        ("bbb", 1405),
        ("bbc", 1406),
    ]);
}
