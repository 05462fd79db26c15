use sfz::build_key_name_map;
use sfz::check_i8_key;
use sfz::check_u8_key;

#[test]
fn sharp_and_flat_spellings_agree() {
    assert_eq!(check_u8_key("c#4"), Some(60));
    assert_eq!(check_u8_key("db4"), Some(60));
    assert_eq!(check_u8_key("a0"), Some(20));
    assert_eq!(check_u8_key("g#9"), Some(127));
    assert_eq!(check_u8_key("ab9"), Some(127));
}

#[test]
fn lookup_is_case_insensitive() {
    assert_eq!(check_u8_key("C#4"), Some(60));
    assert_eq!(check_u8_key("DB4"), Some(60));
    assert_eq!(check_u8_key("Db4"), Some(60));
    assert_eq!(check_i8_key("C-1"), Some(-1));
}

#[test]
fn key_minus_one_needs_the_signed_accessor() {
    assert_eq!(check_u8_key("c-1"), None);
    assert_eq!(check_i8_key("c-1"), Some(-1));
    assert_eq!(check_i8_key("-1"), Some(-1));
    assert_eq!(check_u8_key("0"), Some(0));
}

#[test]
fn numeric_keys() {
    assert_eq!(check_u8_key("60"), Some(60));
    assert_eq!(check_u8_key("127"), Some(127));
    assert_eq!(check_u8_key("128"), None);
    assert_eq!(check_i8_key("-2"), None);
    assert_eq!(check_i8_key("127"), Some(127));
}

/// Every generated spelling of every key in -1 ..= 127 resolves back to that
/// key, in either case.
#[test]
fn every_generated_name_resolves() {
    let keynames = [
        ["a", "a"],
        ["a#", "bb"],
        ["b", "b"],
        ["c", "c"],
        ["c#", "db"],
        ["d", "d"],
        ["d#", "eb"],
        ["e", "e"],
        ["f", "f"],
        ["f#", "gb"],
        ["g", "g"],
        ["g#", "ab"],
    ];
    for k in -1i32..=127 {
        let pc = ((k + 4) % 12) as usize;
        let octave = (k + 1) / 12 - 1;
        let sharp = format!("{}{}", keynames[pc][0], octave);
        let flat = format!("{}{}", keynames[pc][1], octave);
        assert_eq!(check_i8_key(&sharp), Some(k as i8), "sharp {}", sharp);
        assert_eq!(check_i8_key(&flat), Some(k as i8), "flat {}", flat);
        let upper_sharp = sharp.to_uppercase();
        assert_eq!(check_i8_key(&upper_sharp), Some(k as i8));
        if k >= 0 {
            assert_eq!(check_u8_key(&sharp), Some(k as u8));
            assert_eq!(check_u8_key(&flat), Some(k as u8));
        } else {
            assert_eq!(check_u8_key(&sharp), None);
        }
    }
}

#[test]
fn table_holds_both_spellings_of_every_key() {
    let table = build_key_name_map();
    assert_eq!(table.len(), 258);
    let first: String = table[0].name.iter().collect();
    assert_eq!(first, "c-1");
    assert_eq!(table[0].key, -1);
    let last: String = table[257].name.iter().collect();
    assert_eq!(last, "ab9");
    assert_eq!(table[257].key, 127);
}
