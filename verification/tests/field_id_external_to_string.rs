use wf::field_id::{from_string, to_string};

fn assert_accurate_mappings(mappings: Vec<(u64, &str)>) {
    for (key, val) in mappings.iter() {
        assert_eq!(to_string(*key), *val);
    }
}

#[test]
fn test_field_id_zero_is_a() {
    assert_eq!(to_string(0), "a");
}

#[test]
fn int_to_one_digit() {
    assert_accurate_mappings(vec![
        (0, "a"),
        (1, "b"),
        (2, "c"),
        (3, "d"),
        (4, "e"),
        (5, "f"),
        (6, "g"),
        (7, "h"),
        (8, "i"),
        (9, "j"),
        (10, "k"),
        (11, "l"),
        (12, "m"),
        (13, "n"),
        (14, "o"),
        (15, "p"),
        (16, "q"),
        (17, "r"),
        (18, "s"),
        (19, "t"),
        (20, "u"),
        (21, "v"),
        (22, "w"),
        (23, "x"),
        (24, "y"),
        (25, "z"),
    ]);
}

#[test]
fn int_to_two_digits_starting_with_a() {
    assert_accurate_mappings(vec![
        (26, "aa"),
        (27, "ab"),
        (28, "ac"),
        (29, "ad"),
        (30, "ae"),
        (31, "af"),
        (32, "ag"),
        (33, "ah"),
        (34, "ai"),
        (35, "aj"),
        (36, "ak"),
        (37, "al"),
        (38, "am"),
        (39, "an"),
        (40, "ao"),
        (41, "ap"),
        (42, "aq"),
        (43, "ar"),
        (44, "as"),
        (45, "at"),
        (46, "au"),
        (47, "av"),
        (48, "aw"),
        (49, "ax"),
        (50, "ay"),
        (51, "az"),
    ]);
}

#[test]
fn int_to_two_digits_starting_with_b() {
    assert_accurate_mappings(vec![
        (52, "ba"),
        (53, "bb"),
        (54, "bc"),
        (55, "bd"),
        (56, "be"),
        (57, "bf"),
        (58, "bg"),
        (59, "bh"),
        (60, "bi"),
        (61, "bj"),
        (62, "bk"),
        (63, "bl"),
        (64, "bm"),
        (65, "bn"),
        (66, "bo"),
        (67, "bp"),
        (68, "bq"),
        (69, "br"),
        (70, "bs"),
        (71, "bt"),
        (72, "bu"),
        (73, "bv"),
        (74, "bw"),
        (75, "bx"),
        (76, "by"),
        (77, "bz"),
    ]);
}

#[test]
fn int_to_two_digits_starting_with_c() {
    assert_accurate_mappings(vec![(78, "ca"), (79, "cb"), (102, "cy"), (103, "cz")]);
}

#[test]
fn int_to_two_digits_starting_with_y() {
    assert_accurate_mappings(vec![(650, "ya"), (651, "yb"), (674, "yy"), (675, "yz")]);
}

#[test]
fn int_to_two_digits_starting_with_z() {
    assert_accurate_mappings(vec![(676, "za"), (677, "zb"), (700, "zy"), (701, "zz")]);
}

#[test]
fn int_to_three_digits_starting_with_a() {
    assert_accurate_mappings(vec![
        (702, "aaa"),
        (703, "aab"),
        (726, "aay"),
        (727, "aaz"),
        (728, "aba"),
        (729, "abb"),
    ]);
}

#[test]
fn int_to_three_digits_starting_with_b() {
    assert_accurate_mappings(vec![
        (1378, "baa"),
        (1379, "bab"),
        (1402, "bay"),
        (1403, "baz"),
        (1404, "bba"),
        (1405, "bbb"),
        (1406, "bbc"),
    ]);
}

#[test]
fn test_field_id_to_string_and_from_string_are_reflexive() {
    for num in 0..123456 {
        let str_version = to_string(num);

        assert_eq!(from_string(str_version.as_str()), Some(num));
    }
}
