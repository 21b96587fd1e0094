use egui_tiles::{Container, Tile, TileId, Tree};
use openbook::desk::{load_store, LayoutCommand, LayoutDesk};
use openbook::layouts::{
    migrate_legacy_prefs, migrate_v1_store, sanitize_layout_store, tree_from_legacy_prefs,
};
use openbook::workspace::{
    build_default_tree, ensure_all_panes, find_named, normalize_layout_profile_name, pane_tile_map,
    validate_layout_profile_name, LayoutProfileV2, LayoutStoreV2, LegacyLayoutPrefs,
    LegacyLayoutProfile, LegacyLayoutStore, PaneKind, PaneTiles, DEFAULT_LAYOUT_PROFILE_NAME,
    LAYOUT_PREFS_KEY, LAYOUT_SCHEMA_VERSION, LAYOUT_STORE_V1_KEY, LAYOUT_STORE_V2_KEY,
    MAX_LAYOUT_PROFILE_NAME_LEN,
};

fn profile(name: &str) -> LayoutProfileV2 {
    LayoutProfileV2 { name: name.to_string(), dock_tree: build_default_tree() }
}

fn store(active: &str, names: &[&str]) -> LayoutStoreV2 {
    LayoutStoreV2 {
        schema_version: LAYOUT_SCHEMA_VERSION,
        active_profile: active.to_string(),
        profiles: names.iter().map(|n| profile(n)).collect(),
    }
}

fn names(store: &LayoutStoreV2) -> Vec<String> {
    store.profiles.iter().map(|p| p.name.clone()).collect()
}

fn desk(active: &str, list: &[&str]) -> LayoutDesk {
    LayoutDesk::new(store(active, list), false)
}

fn tile_of(tree: &Tree<PaneKind>, pane: PaneKind) -> u64 {
    pane_tile_map(tree).get(pane).unwrap()
}

fn children_of(tree: &Tree<PaneKind>, id: TileId) -> Vec<TileId> {
    match tree.tiles.get(id) {
        Some(Tile::Container(container)) => container.children().copied().collect(),
        _ => Vec::new(),
    }
}

fn count_panes(tree: &Tree<PaneKind>) -> usize {
    tree.tiles.tiles().filter(|tile| matches!(tile, Tile::Pane(_))).count()
}

// ---------------------------------------------------------------------------
// Panes and trees
// ---------------------------------------------------------------------------

#[test]
fn panes_have_titles_and_ids() {
    let titles: Vec<&str> = PaneKind::ALL.iter().map(|p| p.title()).collect();
    assert_eq!(
        titles,
        vec![
            "Heatmap",
            "Order Book",
            "Market Impact",
            "Fill:Kill",
            "Trades Tape",
            "Strategy",
            "Trade Log",
            "Equity"
        ]
    );
    let ids: Vec<&str> = PaneKind::ALL.iter().map(|p| p.id_str()).collect();
    assert_eq!(
        ids,
        vec![
            "heatmap",
            "order_book",
            "market_impact",
            "fill_kill",
            "trades_tape",
            "strategy",
            "trade_log",
            "equity_curve"
        ]
    );
}

#[test]
fn settings_are_kept_under_their_keys() {
    assert_eq!(LAYOUT_PREFS_KEY, "layout_prefs");
    assert_eq!(LAYOUT_STORE_V1_KEY, "layout_store_v1");
    assert_eq!(LAYOUT_STORE_V2_KEY, "layout_store_v2");
    assert_eq!(LAYOUT_SCHEMA_VERSION, 2);
    assert_eq!(MAX_LAYOUT_PROFILE_NAME_LEN, 32);
}

#[test]
fn pane_tiles_hold_one_tile_for_each_pane() {
    let mut ids = PaneTiles::new();
    assert_eq!(ids.get(PaneKind::Strategy), None);
    ids.insert(PaneKind::Strategy, 7);
    assert_eq!(ids.get(PaneKind::Strategy), Some(7));
    assert_eq!(ids.get(PaneKind::TradeLog), None);
}

#[test]
fn the_default_tree_has_every_pane_in_three_columns() {
    let tree = build_default_tree();
    assert_eq!(count_panes(&tree), 8);
    let ids = pane_tile_map(&tree);
    for pane in PaneKind::ALL {
        let id = TileId::from_u64(ids.get(pane).unwrap());
        assert!(matches!(tree.tiles.get(id), Some(Tile::Pane(kind)) if *kind == pane));
        assert!(tree.is_visible(id));
    }
    let root = tree.root().unwrap();
    assert_eq!(children_of(&tree, root).len(), 3);
    match tree.tiles.get(root) {
        Some(Tile::Container(Container::Linear(linear))) => {
            let shares: Vec<f32> = linear.children.iter().map(|c| linear.shares[*c]).collect();
            assert_eq!(shares, vec![0.55, 0.25, 0.20]);
        }
        _ => panic!("the root is a row"),
    }
}

#[test]
fn missing_panes_are_added() {
    let mut tree = build_default_tree();
    let gone = TileId::from_u64(tile_of(&tree, PaneKind::TradeLog));
    tree.remove_recursively(gone);
    assert_eq!(pane_tile_map(&tree).get(PaneKind::TradeLog), None);
    let ids = ensure_all_panes(&mut tree);
    assert!(PaneKind::ALL.iter().all(|p| ids.get(*p).is_some()));
    assert_eq!(count_panes(&tree), 8);
}

#[test]
fn an_empty_tree_becomes_the_default() {
    let mut tree: Tree<PaneKind> = Tree::empty("workspace");
    let ids = ensure_all_panes(&mut tree);
    assert_eq!(count_panes(&tree), 8);
    assert!(PaneKind::ALL.iter().all(|p| ids.get(*p).is_some()));
    assert!(tree.root().is_some());
}

#[test]
fn a_complete_tree_is_kept() {
    let mut tree = build_default_tree();
    let root = tree.root();
    let count = tree.tiles.len();
    ensure_all_panes(&mut tree);
    assert_eq!(tree.root(), root);
    assert_eq!(tree.tiles.len(), count);
}

// ---------------------------------------------------------------------------
// Names
// ---------------------------------------------------------------------------

#[test]
fn names_are_trimmed_and_cut() {
    assert_eq!(normalize_layout_profile_name("  Day trading \t"), "Day trading");
    assert_eq!(normalize_layout_profile_name("   "), "");
    let long = "x".repeat(40);
    assert_eq!(normalize_layout_profile_name(&long), "x".repeat(32));
}

#[test]
fn names_are_validated() {
    let list = store("A", &["A", "Beta"]).profiles;
    assert_eq!(validate_layout_profile_name(" Gamma ", &list, None).unwrap(), "Gamma");
    assert_eq!(
        validate_layout_profile_name(" ", &list, None).unwrap_err(),
        "Profile name cannot be empty."
    );
    assert_eq!(
        validate_layout_profile_name(&"y".repeat(33), &list, None).unwrap_err(),
        "Profile name must be at most 32 characters."
    );
    assert_eq!(
        validate_layout_profile_name("bETA", &list, None).unwrap_err(),
        "Profile name already exists."
    );
    assert_eq!(validate_layout_profile_name("bETA", &list, Some(1)).unwrap(), "bETA");
    assert_eq!(validate_layout_profile_name(&"y".repeat(32), &list, None).unwrap().len(), 32);
}

#[test]
fn names_are_found() {
    let list = store("A", &["A", "B"]).profiles;
    assert_eq!(find_named(&list, "B"), 1);
}

// ---------------------------------------------------------------------------
// The store
// ---------------------------------------------------------------------------

#[test]
fn the_default_store_holds_one_layout() {
    let store = LayoutStoreV2::default();
    assert_eq!(store.schema_version, 2);
    assert_eq!(store.active_profile, "Default");
    assert_eq!(names(&store), vec!["Default"]);
    assert_eq!(LayoutProfileV2::default().name, "Default");
    assert_eq!(LegacyLayoutProfile::default().name, "Default");
    assert_eq!(LegacyLayoutStore::default().active_profile, "Default");
}

#[test]
fn the_active_layout_is_the_one_set() {
    let mut store = store("B", &["A", "B", "C"]);
    assert_eq!(store.active_index(), 1);
    store.set_active_index(2);
    assert_eq!(store.active_profile, "C");
    assert_eq!(store.active_index(), 2);
    store.set_active_index(9);
    assert_eq!(store.active_profile, "C");
    store.active_profile = "gone".to_string();
    assert_eq!(store.active_index(), 0);
}

#[test]
fn layouts_are_created_renamed_and_deleted() {
    let mut store = store("A", &["A"]);
    assert_eq!(store.create_profile(" B ", build_default_tree()).unwrap(), 1);
    assert_eq!(store.active_profile, "B");
    assert_eq!(
        store.create_profile("a", build_default_tree()).unwrap_err(),
        "Profile name already exists."
    );
    assert!(store.rename_profile(0, "First").is_ok());
    assert_eq!(names(&store), vec!["First", "B"]);
    assert_eq!(store.active_profile, "B");
    assert_eq!(store.rename_profile(1, "").unwrap_err(), "Profile name cannot be empty.");
    assert_eq!(store.rename_profile(5, "X").unwrap_err(), "Profile does not exist.");
    assert_eq!(store.delete_profile(5).unwrap_err(), "Profile does not exist.");
    assert!(store.delete_profile(1).unwrap());
    assert_eq!(store.active_profile, "First");
    assert_eq!(
        store.delete_profile(0).unwrap_err(),
        "Cannot delete the last remaining profile."
    );
}

#[test]
fn a_copy_of_a_store_is_the_same_store() {
    let one = store("B", &["A", "B"]);
    let two = one.clone();
    assert_eq!(names(&one), names(&two));
    assert_eq!(two.active_profile, "B");
    assert_eq!(two.profiles[1].dock_tree, one.profiles[1].dock_tree);
}

#[test]
fn a_store_is_repaired() {
    let mut broken = store("x", &["", "Alpha", "ALPHA", "alpha", "  "]);
    broken.schema_version = 1;
    let fixed = sanitize_layout_store(broken);
    assert_eq!(names(&fixed), vec!["Default", "Alpha", "ALPHA 2", "alpha 3", "Profile 5"]);
    assert_eq!(fixed.schema_version, 2);
    assert_eq!(fixed.active_profile, "Default");
}

#[test]
fn a_long_name_makes_room_for_its_number() {
    let long = "z".repeat(32);
    let fixed = sanitize_layout_store(store(&long, &[&long, &long]));
    assert_eq!(fixed.profiles[0].name, long);
    assert_eq!(fixed.profiles[1].name, format!("{} 2", "z".repeat(30)));
    assert_eq!(fixed.active_profile, long);
}

#[test]
fn an_empty_store_becomes_the_default() {
    let fixed = sanitize_layout_store(store("x", &[]));
    assert_eq!(names(&fixed), vec!["Default"]);
}

#[test]
fn a_store_in_order_is_left_alone() {
    let fixed = sanitize_layout_store(store("B", &["A", "B"]));
    assert_eq!(names(&fixed), vec!["A", "B"]);
    assert_eq!(fixed.active_profile, "B");
}

// ---------------------------------------------------------------------------
// Older settings
// ---------------------------------------------------------------------------

fn old_prefs() -> LegacyLayoutPrefs {
    LegacyLayoutPrefs {
        show_heatmap_window: true,
        show_order_book_window: false,
        show_impact_window: true,
        show_fill_kill_window: false,
        show_trades_tape_window: true,
    }
}

fn is_shown(tree: &Tree<PaneKind>, pane: PaneKind) -> bool {
    tree.is_visible(TileId::from_u64(tile_of(tree, pane)))
}

#[test]
fn old_settings_hide_panes() {
    let tree = tree_from_legacy_prefs(&old_prefs());
    assert!(is_shown(&tree, PaneKind::Heatmap));
    assert!(!is_shown(&tree, PaneKind::OrderBook));
    assert!(is_shown(&tree, PaneKind::MarketImpact));
    assert!(!is_shown(&tree, PaneKind::FillKill));
    assert!(is_shown(&tree, PaneKind::TradesTape));
    assert!(is_shown(&tree, PaneKind::Strategy));
    let prefs = LegacyLayoutPrefs::default();
    assert!(prefs.show_heatmap_window && prefs.show_trades_tape_window);
}

#[test]
fn an_old_store_is_migrated() {
    let old = LegacyLayoutStore {
        schema_version: 1,
        active_profile: "Scalp".to_string(),
        profiles: vec![
            LegacyLayoutProfile { name: "Main".to_string(), prefs: LegacyLayoutPrefs::default() },
            LegacyLayoutProfile { name: "Scalp".to_string(), prefs: old_prefs() },
        ],
    };
    let store = migrate_v1_store(old);
    assert_eq!(store.schema_version, 2);
    assert_eq!(names(&store), vec!["Main", "Scalp"]);
    assert_eq!(store.active_profile, "Scalp");
    assert!(is_shown(&store.profiles[0].dock_tree, PaneKind::OrderBook));
    assert!(!is_shown(&store.profiles[1].dock_tree, PaneKind::OrderBook));
}

#[test]
fn old_settings_alone_make_one_layout() {
    let store = migrate_legacy_prefs(old_prefs());
    assert_eq!(names(&store), vec![DEFAULT_LAYOUT_PROFILE_NAME]);
    assert!(!is_shown(&store.profiles[0].dock_tree, PaneKind::FillKill));
}

#[test]
fn the_newest_settings_are_loaded() {
    let (loaded, persist) =
        load_store(Some(store("B", &["A", "B"])), Some(LegacyLayoutStore::default()), None);
    assert_eq!(names(&loaded), vec!["A", "B"]);
    assert!(!persist);
    let (loaded, persist) = load_store(None, Some(LegacyLayoutStore::default()), Some(old_prefs()));
    assert!(is_shown(&loaded.profiles[0].dock_tree, PaneKind::OrderBook));
    assert!(persist);
    let (loaded, persist) = load_store(None, None, Some(old_prefs()));
    assert!(!is_shown(&loaded.profiles[0].dock_tree, PaneKind::OrderBook));
    assert!(persist);
    let (loaded, _) = load_store(None, None, None);
    assert_eq!(names(&loaded), vec!["Default"]);
}

// ---------------------------------------------------------------------------
// The desk
// ---------------------------------------------------------------------------

#[test]
fn a_pane_is_switched_off_and_on() {
    let mut desk = desk("A", &["A"]);
    assert!(desk.pane_visible(PaneKind::Heatmap));
    desk.set_pane_visible(PaneKind::Heatmap, false);
    assert!(!desk.pane_visible(PaneKind::Heatmap));
    assert!(desk.pane_visible(PaneKind::Strategy));
    assert!(desk.layout_dirty);
    desk.set_pane_visible(PaneKind::Heatmap, true);
    assert!(desk.pane_visible(PaneKind::Heatmap));
}

#[test]
fn a_saved_layout_comes_back() {
    let mut desk = desk("A", &["A", "B"]);
    desk.set_pane_visible(PaneKind::TradeLog, false);
    assert!(desk.perform(LayoutCommand::Save));
    assert!(!desk.layout_dirty);
    desk.selected_profile_idx = 1;
    assert!(desk.perform(LayoutCommand::Load));
    assert_eq!(desk.active_name(), "B");
    assert!(desk.pane_visible(PaneKind::TradeLog));
    desk.selected_profile_idx = 0;
    assert!(desk.perform(LayoutCommand::Load));
    assert_eq!(desk.active_name(), "A");
    assert!(!desk.pane_visible(PaneKind::TradeLog));
}

#[test]
fn a_loaded_layout_has_its_own_tiles() {
    let mut list = store("A", &["A", "B"]);
    let mut other: Tree<PaneKind> = Tree::empty("other");
    let first = other.tiles.insert_pane(PaneKind::EquityCurve);
    let second = other.tiles.insert_pane(PaneKind::Heatmap);
    other.root = Some(other.tiles.insert_vertical_tile(vec![first, second]));
    list.profiles[1].dock_tree = other;
    let mut desk = LayoutDesk::new(list, false);
    let before = desk.pane_tile_ids;
    assert!(!desk.perform(LayoutCommand::OpenDelete));
    assert_eq!(desk.pane_tile_ids.get(PaneKind::EquityCurve), before.get(PaneKind::EquityCurve));

    desk.selected_profile_idx = 1;
    assert!(desk.perform(LayoutCommand::Load));
    for pane in PaneKind::ALL {
        assert_eq!(desk.pane_tile_ids.get(pane), Some(tile_of(&desk.dock_tree, pane)));
    }
    assert_ne!(desk.pane_tile_ids.get(PaneKind::EquityCurve), before.get(PaneKind::EquityCurve));

    assert!(!desk.perform(LayoutCommand::Reset));
    for pane in PaneKind::ALL {
        assert_eq!(desk.pane_tile_ids.get(pane), Some(tile_of(&desk.dock_tree, pane)));
    }
    assert!(desk.perform(LayoutCommand::Delete));
    assert_eq!(desk.active_name(), "A");
    for pane in PaneKind::ALL {
        assert_eq!(desk.pane_tile_ids.get(pane), Some(tile_of(&desk.dock_tree, pane)));
    }
}

#[test]
fn save_as_adds_a_layout() {
    let mut desk = desk("A", &["A"]);
    assert!(!desk.perform(LayoutCommand::OpenSaveAs));
    assert!(desk.save_as_modal_open);
    desk.save_as_name_input = "a".to_string();
    assert!(!desk.perform(LayoutCommand::Create));
    assert_eq!(desk.layout_error_message.as_deref(), Some("Profile name already exists."));
    assert!(desk.save_as_modal_open);
    desk.save_as_name_input = "Night".to_string();
    assert!(desk.perform(LayoutCommand::Create));
    assert_eq!(names(&desk.layout_store), vec!["A", "Night"]);
    assert_eq!(desk.active_name(), "Night");
    assert_eq!(desk.selected_name(), "Night");
    assert!(!desk.save_as_modal_open);
    assert_eq!(desk.layout_error_message, None);
}

#[test]
fn rename_starts_from_the_name() {
    let mut desk = desk("A", &["A", "B"]);
    desk.selected_profile_idx = 1;
    desk.perform(LayoutCommand::OpenRename);
    assert_eq!(desk.rename_name_input, "B");
    desk.rename_name_input = "".to_string();
    assert!(!desk.perform(LayoutCommand::Rename));
    assert_eq!(desk.layout_error_message.as_deref(), Some("Profile name cannot be empty."));
    desk.rename_name_input = "C".to_string();
    assert!(desk.perform(LayoutCommand::Rename));
    assert_eq!(names(&desk.layout_store), vec!["A", "C"]);
    assert_eq!(desk.active_name(), "A");
    desk.perform(LayoutCommand::OpenRename);
    desk.perform(LayoutCommand::CloseRename);
    assert!(!desk.rename_modal_open);
}

#[test]
fn deleting_the_active_layout_shows_another() {
    let mut desk = desk("B", &["A", "B"]);
    desk.set_pane_visible(PaneKind::Heatmap, false);
    desk.perform(LayoutCommand::OpenDelete);
    assert!(desk.delete_confirm_open);
    assert!(desk.perform(LayoutCommand::Delete));
    assert_eq!(desk.active_name(), "A");
    assert!(desk.pane_visible(PaneKind::Heatmap));
    assert!(!desk.delete_confirm_open);
    assert!(!desk.perform(LayoutCommand::Delete));
    assert_eq!(
        desk.layout_error_message.as_deref(),
        Some("Cannot delete the last remaining profile.")
    );
}

#[test]
fn closing_a_dialog_and_resetting_change_nothing_stored() {
    let mut desk = desk("A", &["A"]);
    desk.set_pane_visible(PaneKind::Heatmap, false);
    assert!(!desk.perform(LayoutCommand::Reset));
    assert!(desk.pane_visible(PaneKind::Heatmap));
    assert!(desk.layout_dirty);
    desk.perform(LayoutCommand::OpenDelete);
    desk.perform(LayoutCommand::CloseDelete);
    desk.perform(LayoutCommand::OpenSaveAs);
    desk.perform(LayoutCommand::CloseSaveAs);
    assert!(!desk.delete_confirm_open && !desk.save_as_modal_open);
    assert_eq!(names(&desk.layout_store), vec!["A"]);
}

#[test]
fn the_desk_answers_directly_too() {
    let mut desk = desk("A", &["A"]);
    assert!(desk.create_profile("B").is_ok());
    assert_eq!(desk.create_profile("B").unwrap_err(), "Profile name already exists.");
    assert!(desk.rename_profile(0, "Z").is_ok());
    assert_eq!(desk.rename_profile(7, "Q").unwrap_err(), "Profile does not exist.");
    assert_eq!(desk.delete_profile(7).unwrap_err(), "Profile does not exist.");
    assert!(!desk.delete_profile(0).unwrap());
    desk.apply_profile(0);
    desk.save_active_profile();
    desk.reset_layout();
    desk.sync_profile_indices();
    assert_eq!(desk.active_profile_idx, 0);
    desk.layout_dirty = false;
    desk.mark_edited(false);
    assert!(!desk.layout_dirty);
    desk.mark_edited(true);
    assert!(desk.layout_dirty);
}
