use manga_server::ident::{hex_string, name_id, names_told_apart, number_id};

#[test]
fn copy_manga_t() {
    let id = name_id("0");
    assert_eq!(id, "cfcd208495d565ef66e7dff9f98764da");
}

#[test]
fn hex_string_writes_two_digits_per_byte() {
    assert_eq!(hex_string(&[0x00, 0x0f, 0xa5, 0xff]), "000fa5ff");
    assert_eq!(hex_string(&[]), "");
}

#[test]
fn number_id_is_decimal() {
    assert_eq!(number_id(0), "0");
    assert_eq!(number_id(1827529), "1827529");
    assert_eq!(number_id(usize::MAX), usize::MAX.to_string());
}

#[test]
fn name_id_is_the_md5_of_the_name() {
    assert_eq!(name_id(""), "d41d8cd98f00b204e9800998ecf8427e");
    assert_eq!(name_id("a"), "0cc175b9c0f1b6a831c399e269772661");
    assert_eq!(name_id("One Piece"), "308442ced77bb9e04b1efaa9222c1ecb");
    for name in ["夜空", "Chapter 10", "x y z"] {
        assert_eq!(name_id(name), format!("{:?}", md5::compute(name)));
        assert_eq!(name_id(name).len(), 32);
    }
}

#[test]
fn names_with_the_same_identifier_are_not_told_apart() {
    let v = |names: &[&str]| names.iter().map(|n| n.to_string()).collect::<Vec<String>>();
    assert!(names_told_apart(&v(&[])));
    assert!(names_told_apart(&v(&["a"])));
    assert!(names_told_apart(&v(&["a", "b", "c", "A", ""])));
    assert!(!names_told_apart(&v(&["a", "b", "a"])));
    assert!(!names_told_apart(&v(&["x", "x"])));
    assert!(!names_told_apart(&v(&["p", "q", "r", "r"])));
}
