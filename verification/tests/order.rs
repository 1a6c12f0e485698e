use blockchain_rust::order::{rank_bytes, rank_text, Rank};

#[test]
fn byte_strings_are_ranked_by_their_first_difference() {
    assert_eq!(rank_bytes(&[1, 2, 3], &[1, 2, 3]), Rank::Same);
    assert_eq!(rank_bytes(&[], &[]), Rank::Same);
    assert_eq!(rank_bytes(&[1, 2], &[1, 2, 3]), Rank::Before);
    assert_eq!(rank_bytes(&[1, 2, 3], &[1, 2]), Rank::After);
    assert_eq!(rank_bytes(&[1, 9], &[2, 0]), Rank::Before);
    assert_eq!(rank_bytes(&[2, 0], &[1, 9, 9]), Rank::After);
    assert_eq!(rank_bytes(&[], &[0]), Rank::Before);
    assert_eq!(rank_bytes(&[255], &[]), Rank::After);
}

#[test]
fn texts_are_ranked_as_their_encodings() {
    assert_eq!(rank_text("abc", "abc"), Rank::Same);
    assert_eq!(rank_text("abc", "abd"), Rank::Before);
    assert_eq!(rank_text("b", "abc"), Rank::After);
    assert_eq!(rank_text("", "a"), Rank::Before);
    assert_eq!(rank_text("z", "é"), Rank::Before);
    for (a, b) in [("0a", "0b"), ("10", "9"), ("é", "z"), ("", "")] {
        let expected = match a.cmp(b) {
            std::cmp::Ordering::Less => Rank::Before,
            std::cmp::Ordering::Equal => Rank::Same,
            std::cmp::Ordering::Greater => Rank::After,
        };
        assert_eq!(rank_text(a, b), expected);
    }
}
