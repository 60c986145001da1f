use verby::game::{MatchGame, ToggleOutcome};
use verby::store::EntryStore;

fn s(text: &str) -> String {
    String::from(text)
}

fn two_entry_store() -> EntryStore {
    let mut store = EntryStore::new();
    assert!(store.insert(s("go"), s("went"), s("gone")).is_ok());
    assert!(store.insert(s("eat"), s("ate"), s("eaten")).is_ok());
    store
}

#[test]
fn new_game_is_empty_and_needs_rebuild() {
    let game = MatchGame::new();
    assert!(game.needs_rebuild());
    assert!(game.grid().is_empty());
    assert!(game.selection().is_empty());
}

#[test]
fn rebuild_flattens_store_in_order() {
    let store = two_entry_store();
    let mut game = MatchGame::new();
    game.rebuild_grid(&store);
    assert!(!game.needs_rebuild());
    assert_eq!(
        game.grid(),
        &vec![s("go"), s("went"), s("gone"), s("eat"), s("ate"), s("eaten")]
    );
    assert!(game.selection().is_empty());
}

#[test]
fn rebuild_is_deterministic() {
    // Two rebuilds from the same store state agree.
    let store = two_entry_store();
    let mut game1 = MatchGame::new();
    let mut game2 = MatchGame::new();
    game1.rebuild_grid(&store);
    game2.rebuild_grid(&store);
    assert_eq!(game1.grid(), game2.grid());
    game1.rebuild_grid(&store);
    assert_eq!(game1.grid(), game2.grid());
}

#[test]
fn scenario_single_entry_matched_empties_grid() {
    // Scenario: one entry; toggling positions 0, 1, 2 matches it and leaves an
    // empty grid.
    let mut store = EntryStore::new();
    assert!(store.insert(s("go"), s("went"), s("gone")).is_ok());
    let mut game = MatchGame::new();
    game.rebuild_grid(&store);
    assert_eq!(game.grid(), &vec![s("go"), s("went"), s("gone")]);
    assert_eq!(game.toggle_position(&store, 0), ToggleOutcome::Selected);
    assert_eq!(game.toggle_position(&store, 1), ToggleOutcome::Selected);
    assert_eq!(game.toggle_position(&store, 2), ToggleOutcome::Matched);
    assert!(game.grid().is_empty());
    assert!(game.grid_is_empty());
    assert!(game.selection().is_empty());
}

#[test]
fn scenario_cross_entry_triple_fails_and_selection_holds() {
    // Scenario: picks 0 (go), 4 (ate), 2 (gone) assemble by column to
    // ("go", "ate", "gone"), which is no entry: the grid is unchanged and all
    // three picks are held until the next toggle enforces the cap.
    let store = two_entry_store();
    let mut game = MatchGame::new();
    game.rebuild_grid(&store);
    assert_eq!(game.toggle_position(&store, 0), ToggleOutcome::Selected);
    assert_eq!(game.toggle_position(&store, 4), ToggleOutcome::Selected);
    assert_eq!(game.toggle_position(&store, 2), ToggleOutcome::MatchFailed);
    assert_eq!(game.grid().len(), 6);
    assert_eq!(game.selection(), &vec![0, 4, 2]);
    // The selection never exceeds three picks; the next pick evicts.
    assert_eq!(game.toggle_position(&store, 5), ToggleOutcome::MatchFailed);
    assert_eq!(game.selection(), &vec![0, 4, 5]);
}

#[test]
fn selection_in_any_order_matches_by_column() {
    // The candidate triple is ordered by column, not by selection order.
    let store = two_entry_store();
    let mut game = MatchGame::new();
    game.rebuild_grid(&store);
    assert_eq!(game.toggle_position(&store, 1), ToggleOutcome::Selected);
    assert_eq!(game.toggle_position(&store, 2), ToggleOutcome::Selected);
    assert_eq!(game.toggle_position(&store, 0), ToggleOutcome::Matched);
    assert_eq!(game.grid(), &vec![s("eat"), s("ate"), s("eaten")]);
}

#[test]
fn match_removes_exactly_the_selected_labels_in_order() {
    // After a successful match of 3 positions out of 9,
    // 6 labels remain, all the others, in their original relative order.
    let mut store = two_entry_store();
    assert!(store.insert(s("see"), s("saw"), s("seen")).is_ok());
    let mut game = MatchGame::new();
    game.rebuild_grid(&store);
    assert_eq!(game.grid().len(), 9);
    // Match the middle entry: positions 3, 4, 5.
    assert_eq!(game.toggle_position(&store, 4), ToggleOutcome::Selected);
    assert_eq!(game.toggle_position(&store, 3), ToggleOutcome::Selected);
    assert_eq!(game.toggle_position(&store, 5), ToggleOutcome::Matched);
    assert_eq!(
        game.grid(),
        &vec![s("go"), s("went"), s("gone"), s("see"), s("saw"), s("seen")]
    );
    assert!(game.selection().is_empty());
}

#[test]
fn same_column_triple_fails() {
    // Three picks in one column cannot assemble a candidate triple.
    let store = two_entry_store();
    let mut game = MatchGame::new();
    game.rebuild_grid(&store);
    assert_eq!(game.toggle_position(&store, 0), ToggleOutcome::Selected);
    assert_eq!(game.toggle_position(&store, 3), ToggleOutcome::Selected);
    assert_eq!(game.toggle_position(&store, 1), ToggleOutcome::MatchFailed);
    assert_eq!(game.grid().len(), 6);
}

#[test]
fn toggle_deselects_a_selected_position() {
    let store = two_entry_store();
    let mut game = MatchGame::new();
    game.rebuild_grid(&store);
    assert_eq!(game.toggle_position(&store, 2), ToggleOutcome::Selected);
    assert_eq!(game.toggle_position(&store, 4), ToggleOutcome::Selected);
    assert_eq!(game.toggle_position(&store, 2), ToggleOutcome::Deselected);
    assert_eq!(game.selection(), &vec![4]);
    // Deselecting is always permitted, even from a held full triple.
    assert_eq!(game.toggle_position(&store, 0), ToggleOutcome::Selected);
    assert_eq!(game.toggle_position(&store, 1), ToggleOutcome::MatchFailed);
    assert_eq!(game.selection().len(), 3);
    assert_eq!(game.toggle_position(&store, 0), ToggleOutcome::Deselected);
    assert_eq!(game.selection(), &vec![4, 1]);
}

#[test]
fn selection_index_of_gives_pick_ordinals() {
    let store = two_entry_store();
    let mut game = MatchGame::new();
    game.rebuild_grid(&store);
    game.toggle_position(&store, 3);
    game.toggle_position(&store, 1);
    assert_eq!(game.selection_index_of(3), Some(0));
    assert_eq!(game.selection_index_of(1), Some(1));
    assert_eq!(game.selection_index_of(0), None);
}

#[test]
fn invalidate_discards_grid_and_selection() {
    // Scenario: deleting a store entry invalidates the grid; the next rebuild
    // reflects only the remaining entry's labels.
    let mut store = two_entry_store();
    let mut game = MatchGame::new();
    game.rebuild_grid(&store);
    game.toggle_position(&store, 0);
    assert!(store.delete_at(0).is_ok());
    game.invalidate();
    assert!(game.needs_rebuild());
    assert!(game.selection().is_empty());
    game.rebuild_grid(&store);
    assert_eq!(game.grid(), &vec![s("eat"), s("ate"), s("eaten")]);
}

#[test]
fn selection_never_exceeds_three_and_clears_on_match() {
    // The selection cap holds across a run of toggles.
    let store = two_entry_store();
    let mut game = MatchGame::new();
    game.rebuild_grid(&store);
    let picks = [0usize, 4, 2, 5, 1, 3, 0, 1, 2];
    for p in picks {
        game.toggle_position(&store, p);
        assert!(game.selection().len() <= 3);
    }
    // Finish the first entry; a successful match leaves no selection.
    game.invalidate();
    game.rebuild_grid(&store);
    game.toggle_position(&store, 0);
    game.toggle_position(&store, 1);
    assert_eq!(game.toggle_position(&store, 2), ToggleOutcome::Matched);
    assert_eq!(game.selection().len(), 0);
}

#[test]
fn fresh_state_after_import_starts_with_empty_selection_and_grid() {
    // The transient side of a load: grid and selection are no part of the durable form
    // and start empty after a load.
    let store = two_entry_store();
    let flat = store.export_entries();
    let loaded = EntryStore::import_entries(&flat).expect("round trip must import");
    let game = MatchGame::new();
    assert!(game.grid().is_empty());
    assert!(game.selection().is_empty());
    assert!(game.needs_rebuild());
    assert_eq!(loaded.len(), 2);
}

#[test]
fn full_session_win_condition() {
    // Matching every entry empties the grid: the quiet win condition.
    let store = two_entry_store();
    let mut game = MatchGame::new();
    game.rebuild_grid(&store);
    assert_eq!(game.toggle_position(&store, 0), ToggleOutcome::Selected);
    assert_eq!(game.toggle_position(&store, 1), ToggleOutcome::Selected);
    assert_eq!(game.toggle_position(&store, 2), ToggleOutcome::Matched);
    // Remaining labels shifted to positions 0..3.
    assert_eq!(game.toggle_position(&store, 0), ToggleOutcome::Selected);
    assert_eq!(game.toggle_position(&store, 1), ToggleOutcome::Selected);
    assert_eq!(game.toggle_position(&store, 2), ToggleOutcome::Matched);
    assert!(game.grid_is_empty());
}
