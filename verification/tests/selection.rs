use wombat::selection::{
    clamp_range, click_range, range_after_delete, remove_range, selected_bytes, selected_count,
    word_chars, Selection, WordChars,
};

#[test]
fn click_selects_clears_and_extends() {
    let mut selection = Selection::new();
    assert_eq!(selection.click(5, false), Some((5, 5)));
    assert_eq!(selection.click(5, false), None);
    assert_eq!(selection.range, None);
    assert_eq!(selection.click(5, false), Some((5, 5)));
    assert_eq!(selection.click(10, true), Some((5, 10)));
    assert_eq!(selection.range, Some((5, 10)));
    assert_eq!(selection.click(5, true), Some((5, 5)));
}

#[test]
fn first_click_selects_whether_extending_or_not() {
    assert_eq!(click_range(None, 7, false), Some((7, 7)));
    assert_eq!(click_range(None, 7, true), Some((7, 7)));
}

#[test]
fn plain_click_elsewhere_replaces_the_range() {
    assert_eq!(click_range(Some((5, 10)), 7, false), Some((7, 7)));
    assert_eq!(click_range(Some((5, 10)), 10, false), Some((10, 10)));
    assert_eq!(click_range(Some((5, 10)), 5, false), None);
}

#[test]
fn extending_click_moves_the_nearer_end() {
    assert_eq!(click_range(Some((5, 10)), 2, true), Some((2, 10)));
    assert_eq!(click_range(Some((5, 10)), 12, true), Some((5, 12)));
    assert_eq!(click_range(Some((5, 10)), 7, true), Some((5, 7)));
    assert_eq!(click_range(Some((5, 5)), 9, true), Some((5, 9)));
}

#[test]
fn extending_click_on_the_end_changes_nothing() {
    assert_eq!(click_range(Some((5, 10)), 10, true), Some((5, 10)));
}

#[test]
fn clamp_limits_both_ends_to_the_last_offset() {
    assert_eq!(clamp_range(Some((5, 10)), 20), Some((5, 10)));
    assert_eq!(clamp_range(Some((5, 10)), 11), Some((5, 10)));
    assert_eq!(clamp_range(Some((5, 10)), 10), Some((5, 9)));
    assert_eq!(clamp_range(Some((5, 10)), 5), Some((4, 4)));
    assert_eq!(clamp_range(Some((5, 10)), 1), Some((0, 0)));
    assert_eq!(clamp_range(Some((5, 10)), 0), None);
    assert_eq!(clamp_range(None, 3), None);
    let mut selection = Selection { range: Some((5, 10)) };
    selection.clamp(8);
    assert_eq!(selection.range, Some((5, 7)));
    selection.reset();
    assert_eq!(selection.range, None);
    assert_eq!(Selection::default().range, None);
}

#[test]
fn after_a_deletion_the_selection_rests_before_the_gap() {
    assert_eq!(range_after_delete(Some((5, 10)), 14), Some((4, 4)));
    assert_eq!(range_after_delete(Some((0, 10)), 9), Some((0, 0)));
    assert_eq!(range_after_delete(Some((0, 10)), 0), None);
    assert_eq!(range_after_delete(None, 9), None);
}

#[test]
fn selected_count_is_inclusive() {
    assert_eq!(selected_count(None), 0);
    assert_eq!(selected_count(Some((5, 5))), 1);
    assert_eq!(selected_count(Some((5, 8))), 4);
    assert_eq!(selected_count(Some((8, 5))), 0);
    assert_eq!(selected_count(Some((0, usize::MAX))), usize::MAX as u128 + 1);
}

#[test]
fn selected_bytes_are_the_bytes_of_the_range() {
    let bytes = vec![10u8, 11, 12, 13, 14];
    assert_eq!(selected_bytes(&bytes, Some((1, 3))), Some(vec![11, 12, 13]));
    assert_eq!(selected_bytes(&bytes, Some((4, 4))), Some(vec![14]));
    assert_eq!(selected_bytes(&bytes, Some((0, 4))), Some(bytes.clone()));
    assert_eq!(selected_bytes(&bytes, Some((3, 5))), None);
    assert_eq!(selected_bytes(&bytes, Some((3, 2))), None);
    assert_eq!(selected_bytes(&bytes, None), None);
}

#[test]
fn remove_range_takes_the_bytes_out() {
    let bytes = vec![10u8, 11, 12, 13, 14];
    assert_eq!(remove_range(&bytes, 1, 3), vec![10, 14]);
    assert_eq!(remove_range(&bytes, 0, 0), vec![11, 12, 13, 14]);
    assert_eq!(remove_range(&bytes, 4, 4), vec![10, 11, 12, 13]);
    assert_eq!(remove_range(&bytes, 0, 4), Vec::<u8>::new());
}

#[test]
fn a_word_reads_as_a_character_in_either_byte_order() {
    let bytes = vec![0xffu8, 0x41, 0x00, 0x00, 0x00, 0xff];
    assert_eq!(
        word_chars(&bytes, Some((1, 4))),
        Some(WordChars { little_endian: Some('A'), big_endian: None })
    );
    let euro = vec![0x00u8, 0x00, 0x20, 0xac];
    assert_eq!(
        word_chars(&euro, Some((0, 3))),
        Some(WordChars { little_endian: None, big_endian: Some('\u{20ac}') })
    );
    let surrogate = vec![0x00u8, 0xd8, 0x00, 0x00];
    assert_eq!(
        word_chars(&surrogate, Some((0, 3))),
        Some(WordChars { little_endian: None, big_endian: None })
    );
    let last = vec![0xffu8, 0xff, 0x10, 0x00];
    assert_eq!(
        word_chars(&last, Some((0, 3))),
        Some(WordChars { little_endian: Some('\u{10ffff}'), big_endian: None })
    );
    assert_eq!(word_chars(&bytes, Some((1, 3))), None);
    assert_eq!(word_chars(&bytes, Some((1, 5))), None);
    assert_eq!(word_chars(&bytes, Some((3, 6))), None);
    assert_eq!(word_chars(&bytes, None), None);
}
