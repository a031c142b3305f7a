use pmenu::menu::{Key, Menu, MenuResult};

fn strings(items: &[&str]) -> Vec<String> {
    items.iter().map(|s| s.to_string()).collect()
}

fn type_text(m: &mut Menu, text: &str) {
    for c in text.chars() {
        assert_eq!(m.handle_key(Key::Append(c)), None);
    }
}

#[test]
fn typed_prefix_then_confirm_selects_apple() {
    let mut m = Menu::new(strings(&["apple", "banana", "grape"]), 10);
    type_text(&mut m, "ap");
    assert!(m.matches().iter().any(|x| x.text == "apple"));
    assert_eq!(m.matches()[0].text, "apple");
    assert_eq!(m.handle_key(Key::Confirm), Some(MenuResult::Selected(0, "apple".to_string())));
}

#[test]
fn escape_on_empty_input_is_no_selection() {
    let mut m = Menu::new(Vec::new(), 10);
    assert_eq!(m.handle_key(Key::Cancel), Some(MenuResult::NoSelection));
}

#[test]
fn escape_after_unmatched_text_is_free_text() {
    let mut m = Menu::new(strings(&["foo", "bar"]), 10);
    type_text(&mut m, "zzz");
    assert!(m.matches().is_empty());
    assert_eq!(m.pattern(), "zzz");
    assert_eq!(m.handle_key(Key::Cancel), Some(MenuResult::FreeText("zzz".to_string())));
}

#[test]
fn move_down_clamps_at_last_row() {
    let mut m = Menu::new(strings(&["a", "b", "c"]), 10);
    for _ in 0..5 {
        assert_eq!(m.handle_key(Key::Down), None);
    }
    assert_eq!(m.selected_index(), 2);
}

#[test]
fn move_up_at_top_is_no_op() {
    let mut m = Menu::new(strings(&["a", "b"]), 10);
    assert_eq!(m.handle_key(Key::Up), None);
    assert_eq!(m.selected_index(), 0);
    assert_eq!(m.matches().len(), 2);
    m.handle_key(Key::Down);
    m.handle_key(Key::Down);
    assert_eq!(m.selected_index(), 1);
    m.handle_key(Key::Up);
    assert_eq!(m.selected_index(), 0);
}

#[test]
fn edits_reset_selection_and_rerank_all() {
    let mut m = Menu::new(strings(&["abc", "abd", "xyz"]), 10);
    type_text(&mut m, "abd");
    assert_eq!(m.matches().len(), 1);
    assert_eq!(m.matches()[0].original_index, 1);
    assert_eq!(m.handle_key(Key::Erase), None);
    assert_eq!(m.pattern(), "ab");
    assert_eq!(m.selected_index(), 0);
    let idx: Vec<usize> = m.matches().iter().map(|x| x.original_index).collect();
    assert_eq!(idx, vec![0, 1]);
    m.handle_key(Key::Down);
    assert_eq!(m.selected_index(), 1);
    m.handle_key(Key::Append('c'));
    assert_eq!(m.selected_index(), 0);
    assert_eq!(m.matches().len(), 1);
    assert_eq!(m.matches()[0].text, "abc");
}

#[test]
fn erase_on_empty_pattern_keeps_all() {
    let mut m = Menu::new(strings(&["a", "b"]), 10);
    m.handle_key(Key::Down);
    assert_eq!(m.handle_key(Key::Erase), None);
    assert_eq!(m.pattern(), "");
    assert_eq!(m.selected_index(), 0);
    assert_eq!(m.matches().len(), 2);
}

#[test]
fn selection_stays_in_range_over_mixed_keys() {
    let mut m = Menu::new(strings(&["one", "two", "three", "four"]), 2);
    let keys = [Key::Down, Key::Down, Key::Append('o'), Key::Down, Key::Down, Key::Down, Key::Append('q'), Key::Down, Key::Up, Key::Erase, Key::Other, Key::Down];
    for k in keys {
        assert_eq!(m.handle_key(k), None);
        let n = m.matches().len();
        assert!(m.selected_index() < std::cmp::max(1, n));
    }
}

#[test]
fn confirm_without_rows_falls_back_to_pattern() {
    let mut m = Menu::new(strings(&["foo"]), 10);
    type_text(&mut m, "q");
    assert_eq!(m.handle_key(Key::Confirm), Some(MenuResult::FreeText("q".to_string())));
    let mut e = Menu::new(Vec::new(), 10);
    assert_eq!(e.handle_key(Key::Confirm), Some(MenuResult::NoSelection));
}

#[test]
fn confirm_picks_highlighted_row() {
    let mut m = Menu::new(strings(&["a", "b", "c"]), 10);
    m.handle_key(Key::Down);
    assert_eq!(m.handle_key(Key::Confirm), Some(MenuResult::Selected(1, "b".to_string())));
}

#[test]
fn other_keys_change_nothing() {
    let mut m = Menu::new(strings(&["a", "b"]), 10);
    m.handle_key(Key::Down);
    assert_eq!(m.handle_key(Key::Other), None);
    assert_eq!(m.selected_index(), 1);
    assert_eq!(m.pattern(), "");
}

#[test]
fn visible_lines_capped_by_candidate_count() {
    assert_eq!(Menu::new(strings(&["a", "b"]), 10).max_visible_lines(), 2);
    assert_eq!(Menu::new(strings(&["a", "b", "c"]), 2).max_visible_lines(), 2);
    assert_eq!(Menu::new(Vec::new(), 10).max_visible_lines(), 0);
    assert_eq!(Menu::new(strings(&["a"]), 10).candidates().len(), 1);
}
