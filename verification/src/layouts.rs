//! Repair and migration of stored layouts, and the laws of the layout store.

use egui_tiles::Tree;
use vstd::prelude::*;

use crate::dock;
use crate::dock::{set_visible, DockView, TileView};
use crate::text;
use crate::text::{chars_of, decimal_text, same_ignoring_ascii_case};
use crate::workspace;
use crate::workspace::{
    build_default_tree, ensure_all_panes, normalize_layout_profile_name, pane_tile_map,
    LayoutProfileV2, LayoutStoreV2, LegacyLayoutPrefs, LegacyLayoutStore, PaneKind, PaneTiles,
    ProfileView, StoreView, DEFAULT_LAYOUT_PROFILE_NAME, LAYOUT_SCHEMA_VERSION,
    MAX_LAYOUT_PROFILE_NAME_LEN,
};

verus! {

// ---------------------------------------------------------------------------
// Unique names
// ---------------------------------------------------------------------------

/// The name that the layout at `idx` starts from: its normal form, or a name
/// made up for it where nothing is left of that.
pub open spec fn base_name(name: Seq<char>, idx: nat) -> Seq<char> {
    if workspace::normalized(name).len() > 0 {
        workspace::normalized(name)
    } else if idx == 0 {
        DEFAULT_LAYOUT_PROFILE_NAME@
    } else {
        "Profile "@ + text::decimal(idx + 1)
    }
}

/// A space and a number.
pub open spec fn suffix(n: nat) -> Seq<char> {
    " "@ + text::decimal(n)
}

/// The name with a number behind it, cut so that the whole keeps the greatest
/// length allowed.
pub open spec fn numbered(base: Seq<char>, n: nat) -> Seq<char> {
    workspace::cut(base, MAX_LAYOUT_PROFILE_NAME_LEN - suffix(n).len()) + suffix(n)
}

/// Whether a name is among those used.
pub open spec fn is_used(used: Seq<Seq<char>>, name: Seq<char>) -> bool {
    exists|i: int| 0 <= i < used.len() && workspace::same_name(#[trigger] used[i], name)
}

/// Whether `n` is the first number from two on under which the name is free.
pub open spec fn is_first_unused(base: Seq<char>, used: Seq<Seq<char>>, n: nat) -> bool {
    &&& n >= 2
    &&& !is_used(used, numbered(base, n))
    &&& forall|m: nat| 2 <= m < n ==> is_used(used, #[trigger] numbered(base, m))
}

/// The name, or where it is used the name with the first number that makes it
/// free.
pub open spec fn unique_name(base: Seq<char>, used: Seq<Seq<char>>) -> Seq<char> {
    if is_used(used, base) {
        numbered(base, choose|n: nat| is_first_unused(base, used, n))
    } else {
        base
    }
}

/// The names that a list of names is repaired to, each in its turn.
pub open spec fn repaired_names(names: Seq<Seq<char>>) -> Seq<Seq<char>>
    decreases names.len(),
{
    if names.len() == 0 {
        Seq::empty()
    } else {
        let before = repaired_names(names.drop_last());
        before.push(unique_name(base_name(names.last(), (names.len() - 1) as nat), before))
    }
}

/// There is but one first number that makes a name free.
proof fn lemma_first_unused(base: Seq<char>, used: Seq<Seq<char>>, n: nat)
    requires
        is_first_unused(base, used, n),
    ensures
        numbered(base, n) == numbered(base, choose|m: nat| is_first_unused(base, used, m)),
{
    let m = choose|m: nat| is_first_unused(base, used, m);
    assert(is_first_unused(base, used, m));
    if m < n {
        assert(is_used(used, numbered(base, m)));
    } else if n < m {
        assert(is_used(used, numbered(base, n)));
    }
}

/// Under different numbers a name gives names that count as different.
proof fn lemma_numbered_distinct(base: Seq<char>, a: nat, b: nat)
    requires
        workspace::same_name(numbered(base, a), numbered(base, b)),
    ensures
        a == b,
{
    let x = text::fold(numbered(base, a));
    let y = text::fold(numbered(base, b));
    let da = text::decimal(a);
    let db = text::decimal(b);
    reveal_strlit(" ");
    text::lemma_decimal_digits(a);
    text::lemma_decimal_digits(b);
    let n = x.len() as int;
    assert(forall|i: int|
        0 <= i < da.len() ==> x[n - da.len() + i] == #[trigger] da[i]);
    assert(forall|i: int|
        0 <= i < db.len() ==> y[n - db.len() + i] == #[trigger] db[i]);
    assert(x[n - da.len() - 1] == ' ');
    assert(y[n - db.len() - 1] == ' ');
    if da.len() < db.len() {
        assert(y[n - db.len() + (db.len() - da.len() - 1)] == db[db.len() - da.len() - 1]);
        assert(false);
    } else if db.len() < da.len() {
        assert(x[n - da.len() + (da.len() - db.len() - 1)] == da[da.len() - db.len() - 1]);
        assert(false);
    }
    assert(da =~= db) by {
        assert forall|i: int| 0 <= i < da.len() implies da[i] == db[i] by {
            assert(x[n - da.len() + i] == da[i]);
            assert(y[n - db.len() + i] == db[i]);
        }
    }
    text::lemma_decimal_injective(a, b);
}

/// Numbers that fit in a range without repetition are no more than the range
/// has.
proof fn lemma_pigeonhole(picks: Seq<int>, n: nat)
    requires
        forall|i: int| 0 <= i < picks.len() ==> 0 <= #[trigger] picks[i] < n,
        picks.no_duplicates(),
    ensures
        picks.len() <= n,
{
    let range = vstd::set_lib::set_int_range(0, n as int);
    vstd::set_lib::lemma_int_range(0, n as int);
    picks.unique_seq_to_set();
    assert(picks.to_set().subset_of(range));
    vstd::set_lib::lemma_len_subset(picks.to_set(), range);
}

/// If a name is used under each number from two up to `n`, there are as many
/// used names.
proof fn lemma_used_count(base: Seq<char>, used: Seq<Seq<char>>, n: nat)
    requires
        n >= 1,
        forall|m: nat| 2 <= m <= n ==> is_used(used, #[trigger] numbered(base, m)),
    ensures
        n - 1 <= used.len(),
{
    let place = |m: nat|
        choose|i: int|
            0 <= i < used.len() && workspace::same_name(#[trigger] used[i], numbered(base, m));
    let picks = Seq::new((n - 1) as nat, |k: int| place((k + 2) as nat));
    assert forall|k: int| 0 <= k < picks.len() implies 0 <= #[trigger] picks[k] < used.len()
        && workspace::same_name(used[picks[k]], numbered(base, (k + 2) as nat)) by {
        assert(is_used(used, numbered(base, (k + 2) as nat)));
    }
    assert forall|j: int, k: int| 0 <= j < picks.len() && 0 <= k < picks.len() && j != k implies
        picks[j] != picks[k] by {
        if picks[j] == picks[k] {
            lemma_numbered_distinct(base, (j + 2) as nat, (k + 2) as nat);
        }
    }
    lemma_pigeonhole(picks, used.len());
}

/// Whether a name is among those used.
fn is_name_used(used: &Vec<String>, name: &str) -> (found: bool)
    ensures
        found == is_used(texts(used@), name@),
{
    let mut i: usize = 0;
    while i < used.len()
        invariant
            i <= used.len(),
            forall|k: int|
                0 <= k < i ==> !workspace::same_name(#[trigger] texts(used@)[k], name@),
        decreases used.len() - i,
    {
        if same_ignoring_ascii_case(&used[i], name) {
            proof {
                assert(workspace::same_name(texts(used@)[i as int], name@));
            }
            return true;
        }
        i += 1;
    }
    false
}

/// The characters of a list of strings.
pub open spec fn texts(list: Seq<String>) -> Seq<Seq<char>> {
    Seq::new(list.len(), |i: int| list[i]@)
}

/// The name with a number behind it, within the greatest length allowed.
fn numbered_name(base: &str, n: u128) -> (name: String)
    requires
        n < 100000000000000000000,
    ensures
        name@ == numbered(base@, n as nat),
{
    let digits: String = decimal_text(n);
    let chars: Vec<char> = chars_of(base);
    let digit_chars: Vec<char> = chars_of(&digits);
    proof {
        reveal_strlit(" ");
        text::lemma_decimal_len_20(n as nat);
        assert(suffix(n as nat).len() == 1 + digit_chars@.len());
    }
    let keep: usize = MAX_LAYOUT_PROFILE_NAME_LEN - 1 - digit_chars.len();
    let mut name: String = workspace::cut_text(&chars, keep);
    name.append(" ");
    name.append(&digits);
    proof {
        assert(name@ =~= numbered(base@, n as nat));
    }
    name
}

/// The name, or where it is used the name with the first number that makes it
/// free.
fn free_name(base: String, used: &Vec<String>) -> (name: String)
    ensures
        name@ == unique_name(base@, texts(used@)),
{
    let ghost seen = texts(used@);
    let mut candidate: String = base.clone();
    let mut n: u128 = 1;
    while is_name_used(used, &candidate)
        invariant
            1 <= n <= used.len() + 2,
            seen == texts(used@),
            seen.len() == used.len(),
            n == 1 ==> candidate@ == base@,
            n > 1 ==> is_used(seen, base@) && candidate@ == numbered(base@, n as nat),
            forall|m: nat| 2 <= m < n ==> is_used(seen, #[trigger] numbered(base@, m)),
        decreases used.len() + 3 - n,
    {
        proof {
            lemma_used_count(base@, seen, n as nat);
            assert(n + 1 < 100000000000000000000);
        }
        n += 1;
        candidate = numbered_name(&base, n);
    }
    proof {
        if n > 1 {
            assert(is_first_unused(base@, seen, n as nat));
            lemma_first_unused(base@, seen, n as nat);
        }
    }
    candidate
}

// ---------------------------------------------------------------------------
// Repair
// ---------------------------------------------------------------------------

/// The names of the layouts in a store.
pub open spec fn names(profiles: Seq<ProfileView>) -> Seq<Seq<char>> {
    Seq::new(profiles.len(), |i: int| profiles[i].name)
}

/// The layouts with repaired names and completed trees.
pub open spec fn repaired_profiles(profiles: Seq<ProfileView>) -> Seq<ProfileView> {
    Seq::new(
        profiles.len(),
        |i: int|
            ProfileView {
                name: repaired_names(names(profiles))[i],
                dock: workspace::completed(profiles[i].dock),
            },
    )
}

/// The store that a store is repaired to.
pub open spec fn sanitized(store: StoreView) -> StoreView {
    if store.profiles.len() == 0 {
        workspace::default_store()
    } else {
        let profiles = repaired_profiles(store.profiles);
        StoreView {
            schema_version: LAYOUT_SCHEMA_VERSION,
            active_profile: profiles[workspace::position_or_first(
                profiles,
                store.active_profile,
            )].name,
            profiles,
        }
    }
}

/// Whether the trees of all layouts leave room to complete them.
pub open spec fn have_room(profiles: Seq<ProfileView>) -> bool {
    forall|i: int| 0 <= i < profiles.len() ==> workspace::has_room((#[trigger] profiles[i]).dock)
}

/// Repairing names one by one gives one name for each.
proof fn lemma_repaired_names(list: Seq<Seq<char>>, n: int)
    requires
        0 <= n <= list.len(),
    ensures
        repaired_names(list).len() == list.len(),
        repaired_names(list).take(n) == repaired_names(list.take(n)),
    decreases list.len(),
{
    if list.len() > 0 {
        lemma_repaired_names(list.drop_last(), 0);
        if n == list.len() {
            assert(list.take(n) =~= list);
            assert(repaired_names(list).take(n) =~= repaired_names(list));
        } else {
            lemma_repaired_names(list.drop_last(), n);
            assert(list.drop_last().take(n) =~= list.take(n));
            assert(repaired_names(list).take(n) =~= repaired_names(list.drop_last()).take(n));
        }
    } else {
        assert(list.take(n) =~= list);
        assert(repaired_names(list).take(n) =~= repaired_names(list));
    }
}

/// The name that a layout's name is repaired to, given those before it.
fn repaired_name(name: &str, idx: usize, used: &Vec<String>) -> (repaired: String)
    ensures
        repaired@ == unique_name(base_name(name@, idx as nat), texts(used@)),
{
    let normal: String = normalize_layout_profile_name(name);
    let base: String = if normal.unicode_len() > 0 {
        normal
    } else if idx == 0 {
        DEFAULT_LAYOUT_PROFILE_NAME.to_string()
    } else {
        let mut made: String = "Profile ".to_string();
        made.append(&decimal_text(idx as u128 + 1));
        made
    };
    free_name(base, used)
}

/// Repairs a store: names become non-empty, short and distinct, every tree
/// holds every pane, and the active name is that of a layout.
pub fn sanitize_layout_store(store: LayoutStoreV2) -> (repaired: LayoutStoreV2)
    requires
        have_room(store@.profiles),
    ensures
        repaired@ == sanitized(store@),
{
    let ghost start = store@;
    if store.profiles.len() == 0 {
        return LayoutStoreV2::default();
    }
    let active: String = store.active_profile;
    let mut rest: Vec<LayoutProfileV2> = store.profiles;
    let ghost total = rest@.len();
    let ghost list = names(start.profiles);
    let mut used: Vec<String> = Vec::new();
    let mut profiles: Vec<LayoutProfileV2> = Vec::new();
    proof {
        assert(texts(used@) =~= repaired_names(list.take(0)));
    }
    while rest.len() > 0
        invariant
            have_room(start.profiles),
            list == names(start.profiles),
            total == start.profiles.len(),
            profiles.len() + rest.len() == total,
            profiles.len() == used.len(),
            workspace::profile_views(rest@) == start.profiles.skip(profiles.len() as int),
            texts(used@) == repaired_names(list.take(profiles.len() as int)),
            forall|i: int|
                0 <= i < profiles.len() ==> (#[trigger] profiles@[i])@ == (ProfileView {
                    name: texts(used@)[i],
                    dock: workspace::completed(start.profiles[i].dock),
                }),
        decreases rest.len(),
    {
        let idx: usize = profiles.len();
        let ghost taken = texts(used@);
        proof {
            assert(workspace::profile_views(rest@)[0] == start.profiles[idx as int]);
            assert(list.take(idx as int + 1).drop_last() =~= list.take(idx as int));
            assert(list.take(idx as int + 1).last() == rest@[0].name@);
        }
        let ghost views_before = workspace::profile_views(rest@);
        let mut profile: LayoutProfileV2 = rest.remove(0);
        proof {
            assert(workspace::profile_views(rest@) =~= views_before.skip(1));
            assert(views_before.skip(1) =~= start.profiles.skip(idx as int + 1));
        }
        let name: String = repaired_name(&profile.name, idx, &used);
        let _ids: PaneTiles = ensure_all_panes(&mut profile.dock_tree);
        profile.name = name.clone();
        used.push(name);
        profiles.push(profile);
        proof {
            assert(texts(used@) =~= taken.push(name@));
        }
    }
    let ghost repaired = repaired_profiles(start.profiles);
    proof {
        assert(list.take(total as int) =~= list);
        assert(workspace::profile_views(profiles@) =~= repaired);
        workspace::lemma_position(repaired, start.active_profile);
    }
    let found: usize = workspace::find_named(&profiles, &active);
    let idx: usize = if found < profiles.len() {
        found
    } else {
        0
    };
    proof {
        assert(profiles@[idx as int]@ == repaired[idx as int]);
    }
    LayoutStoreV2 {
        schema_version: LAYOUT_SCHEMA_VERSION,
        active_profile: profiles[idx].name.clone(),
        profiles,
    }
}

// ---------------------------------------------------------------------------
// Migration
// ---------------------------------------------------------------------------

/// The default tree with the windows switched off that the oldest format did
/// not show.
pub open spec fn legacy_dock(prefs: LegacyLayoutPrefs) -> DockView {
    DockView {
        hidden: Set::new(
            |id: u64|
                (id == 1 && !prefs.show_heatmap_window) || (id == 2
                    && !prefs.show_order_book_window) || (id == 3 && !prefs.show_impact_window) || (
                id == 4 && !prefs.show_fill_kill_window) || (id == 5
                    && !prefs.show_trades_tape_window),
        ),
        ..workspace::default_dock()
    }
}

/// Switches the tile of a pane on or off, where one is recorded.
fn show_pane(tree: &mut Tree<PaneKind>, ids: &PaneTiles, pane: PaneKind, visible: bool)
    ensures
        match ids.at(pane) {
            None => dock::contents(*final(tree)) == dock::contents(*old(tree)),
            Some(id) => dock::contents(*final(tree)) == with_visible(
                dock::contents(*old(tree)),
                id,
                visible,
            ),
        },
{
    if let Some(id) = ids.get(pane) {
        set_visible(tree, id, visible);
    }
}

/// The tree after a tile has been switched on or off.
pub open spec fn with_visible(view: DockView, id: u64, visible: bool) -> DockView {
    DockView {
        hidden: if visible {
            view.hidden.remove(id)
        } else {
            view.hidden.insert(id)
        },
        ..view
    }
}

/// The default tree with the windows switched off that the oldest format did
/// not show.
pub fn tree_from_legacy_prefs(prefs: &LegacyLayoutPrefs) -> (tree: Tree<PaneKind>)
    ensures
        dock::contents(tree) == legacy_dock(*prefs),
{
    let mut tree: Tree<PaneKind> = build_default_tree();
    let ids: PaneTiles = pane_tile_map(&tree);
    proof {
        lemma_default_ids(ids);
    }
    show_pane(&mut tree, &ids, PaneKind::Heatmap, prefs.show_heatmap_window);
    show_pane(&mut tree, &ids, PaneKind::OrderBook, prefs.show_order_book_window);
    show_pane(&mut tree, &ids, PaneKind::MarketImpact, prefs.show_impact_window);
    show_pane(&mut tree, &ids, PaneKind::FillKill, prefs.show_fill_kill_window);
    show_pane(&mut tree, &ids, PaneKind::TradesTape, prefs.show_trades_tape_window);
    proof {
        assert(dock::contents(tree).hidden =~= legacy_dock(*prefs).hidden);
    }
    tree
}

/// In the default tree each pane has one tile.
proof fn lemma_default_ids(ids: PaneTiles)
    requires
        workspace::maps_panes(workspace::default_dock(), ids),
    ensures
        ids.heatmap == Some(1u64),
        ids.order_book == Some(2u64),
        ids.market_impact == Some(3u64),
        ids.fill_kill == Some(4u64),
        ids.trades_tape == Some(5u64),
        ids.strategy == Some(6u64),
        ids.trade_log == Some(7u64),
        ids.equity_curve == Some(8u64),
{
    let view = workspace::default_dock();
    assert(workspace::holds_pane(view, 1, PaneKind::Heatmap));
    assert(workspace::holds_pane(view, 2, PaneKind::OrderBook));
    assert(workspace::holds_pane(view, 3, PaneKind::MarketImpact));
    assert(workspace::holds_pane(view, 4, PaneKind::FillKill));
    assert(workspace::holds_pane(view, 5, PaneKind::TradesTape));
    assert(workspace::holds_pane(view, 6, PaneKind::Strategy));
    assert(workspace::holds_pane(view, 7, PaneKind::TradeLog));
    assert(workspace::holds_pane(view, 8, PaneKind::EquityCurve));
    assert(ids.at(PaneKind::Heatmap) is Some);
    assert(ids.at(PaneKind::OrderBook) is Some);
    assert(ids.at(PaneKind::MarketImpact) is Some);
    assert(ids.at(PaneKind::FillKill) is Some);
    assert(ids.at(PaneKind::TradesTape) is Some);
    assert(ids.at(PaneKind::Strategy) is Some);
    assert(ids.at(PaneKind::TradeLog) is Some);
    assert(ids.at(PaneKind::EquityCurve) is Some);
}

/// What the layouts of the first store hold in the current form.
pub open spec fn migrated_profiles(store: LegacyLayoutStore) -> Seq<ProfileView> {
    Seq::new(
        store.profiles@.len(),
        |i: int|
            ProfileView {
                name: store.profiles@[i].name@,
                dock: legacy_dock(store.profiles@[i].prefs),
            },
    )
}

/// Brings the first store of named layouts into the current form.
pub fn migrate_v1_store(store: LegacyLayoutStore) -> (migrated: LayoutStoreV2)
    ensures
        migrated@ == sanitized(
            if store.profiles@.len() == 0 {
                workspace::default_store()
            } else {
                StoreView {
                    schema_version: LAYOUT_SCHEMA_VERSION,
                    active_profile: store.active_profile@,
                    profiles: migrated_profiles(store),
                }
            },
        ),
{
    if store.profiles.len() == 0 {
        return sanitize_layout_store(LayoutStoreV2::default());
    }
    let mut profiles: Vec<LayoutProfileV2> = Vec::new();
    let mut i: usize = 0;
    while i < store.profiles.len()
        invariant
            i <= store.profiles.len(),
            profiles.len() == i,
            forall|k: int|
                0 <= k < i ==> (#[trigger] profiles@[k])@ == migrated_profiles(store)[k],
        decreases store.profiles.len() - i,
    {
        profiles.push(
            LayoutProfileV2 {
                name: store.profiles[i].name.clone(),
                dock_tree: tree_from_legacy_prefs(&store.profiles[i].prefs),
            },
        );
        i += 1;
    }
    let migrated = LayoutStoreV2 {
        schema_version: LAYOUT_SCHEMA_VERSION,
        active_profile: store.active_profile,
        profiles,
    };
    proof {
        assert(migrated@.profiles =~= migrated_profiles(store));
    }
    sanitize_layout_store(migrated)
}

/// Brings the oldest layout format into the current form.
pub fn migrate_legacy_prefs(prefs: LegacyLayoutPrefs) -> (migrated: LayoutStoreV2)
    ensures
        migrated@ == sanitized(
            StoreView {
                schema_version: LAYOUT_SCHEMA_VERSION,
                active_profile: DEFAULT_LAYOUT_PROFILE_NAME@,
                profiles: seq![
                    ProfileView {
                        name: DEFAULT_LAYOUT_PROFILE_NAME@,
                        dock: legacy_dock(prefs),
                    },
                ],
            },
        ),
{
    let mut profiles: Vec<LayoutProfileV2> = Vec::new();
    profiles.push(
        LayoutProfileV2 {
            name: DEFAULT_LAYOUT_PROFILE_NAME.to_string(),
            dock_tree: tree_from_legacy_prefs(&prefs),
        },
    );
    let migrated = LayoutStoreV2 {
        schema_version: LAYOUT_SCHEMA_VERSION,
        active_profile: DEFAULT_LAYOUT_PROFILE_NAME.to_string(),
        profiles,
    };
    proof {
        assert(migrated@.profiles =~= seq![
            ProfileView { name: DEFAULT_LAYOUT_PROFILE_NAME@, dock: legacy_dock(prefs) },
        ]);
    }
    sanitize_layout_store(migrated)
}

// ---------------------------------------------------------------------------
// Laws
// ---------------------------------------------------------------------------

/// Whether a tree holds every pane.
pub open spec fn is_complete(view: DockView) -> bool {
    view.root is Some && workspace::has_all_panes(view)
}

/// Whether a name has at least one and at most the allowed number of
/// characters.
pub open spec fn is_fit(name: Seq<char>) -> bool {
    1 <= name.len() <= MAX_LAYOUT_PROFILE_NAME_LEN
}

/// Whether no two names of a list count as the same.
pub open spec fn are_distinct(list: Seq<Seq<char>>) -> bool {
    forall|i: int, j: int|
        0 <= i < j < list.len() ==> !workspace::same_name(#[trigger] list[i], #[trigger] list[j])
}

/// Whether a store is in order: current version, at least one layout, fit and
/// distinct names, complete trees, and an active name that is that of a layout.
pub open spec fn is_in_order(store: StoreView) -> bool {
    &&& store.schema_version == LAYOUT_SCHEMA_VERSION
    &&& store.profiles.len() > 0
    &&& forall|i: int| 0 <= i < store.profiles.len() ==> is_fit((#[trigger] store.profiles[i]).name)
    &&& forall|i: int|
        0 <= i < store.profiles.len() ==> is_complete((#[trigger] store.profiles[i]).dock)
    &&& are_distinct(names(store.profiles))
    &&& exists|i: int|
        0 <= i < store.profiles.len() && (#[trigger] store.profiles[i]).name == store.active_profile
}

proof fn lemma_base_name_fit(name: Seq<char>, idx: nat)
    requires
        idx < 10000000000000000000,
    ensures
        is_fit(base_name(name, idx)),
{
    reveal_strlit("Profile ");
    reveal_strlit("Default");
    text::lemma_decimal_len_20(idx + 1);
}

proof fn lemma_numbered_fit(base: Seq<char>, n: nat)
    requires
        n < 100000000000000000000,
    ensures
        is_fit(numbered(base, n)),
{
    reveal_strlit(" ");
    text::lemma_decimal_len_20(n);
}

/// The first number that makes a name free exists, and is at most two more than
/// the number of used names.
proof fn lemma_unused_exists(base: Seq<char>, used: Seq<Seq<char>>, n: nat)
    requires
        n >= 1,
        forall|m: nat| 2 <= m <= n ==> is_used(used, #[trigger] numbered(base, m)),
    ensures
        exists|k: nat| #[trigger] is_first_unused(base, used, k) && k <= used.len() + 2,
    decreases used.len() + 2 - n,
{
    lemma_used_count(base, used, n);
    if is_used(used, numbered(base, n + 1)) {
        lemma_used_count(base, used, n + 1);
        lemma_unused_exists(base, used, n + 1);
    } else {
        assert(is_first_unused(base, used, n + 1));
    }
}

/// Repaired names are fit and pairwise distinct.
pub proof fn law_repaired_names_are_fit_and_distinct(list: Seq<Seq<char>>)
    requires
        list.len() <= u64::MAX,
    ensures
        repaired_names(list).len() == list.len(),
        forall|i: int| 0 <= i < list.len() ==> is_fit(#[trigger] repaired_names(list)[i]),
        are_distinct(repaired_names(list)),
    decreases list.len(),
{
    if list.len() > 0 {
        let before = repaired_names(list.drop_last());
        law_repaired_names_are_fit_and_distinct(list.drop_last());
        if list.len() < 10000000000000000000 {
            lemma_base_name_fit(list.last(), (list.len() - 1) as nat);
        } else {
            reveal_strlit("Profile ");
            reveal_strlit("Default");
            text::lemma_decimal_len_20(list.len() as nat);
        }
        let base = base_name(list.last(), (list.len() - 1) as nat);
        let name = unique_name(base, before);
        if is_used(before, base) {
            lemma_unused_exists(base, before, 1);
            let k = choose|k: nat| #[trigger]
                is_first_unused(base, before, k) && k <= before.len() + 2;
            lemma_first_unused(base, before, k);
            lemma_numbered_fit(base, k);
        }
        assert(!is_used(before, name));
        let all = repaired_names(list);
        assert(all =~= before.push(name));
        assert forall|i: int| 0 <= i < list.len() implies is_fit(#[trigger] all[i]) by {
            if i < before.len() {
                assert(all[i] == before[i]);
            }
        }
        assert forall|i: int, j: int| 0 <= i < j < all.len() implies !workspace::same_name(
            #[trigger] all[i],
            #[trigger] all[j],
        ) by {
            assert(all[i] == before[i]);
            if j < before.len() {
                assert(all[j] == before[j]);
            }
        }
    }
}

/// A tree that holds every pane is left as it is.
pub proof fn law_complete_tree_is_kept(view: DockView)
    requires
        is_complete(view),
    ensures
        workspace::completed(view) == view,
{
    lemma_complete_kept(view, 8);
}

proof fn lemma_complete_kept(view: DockView, n: nat)
    requires
        is_complete(view),
        n <= 8,
    ensures
        workspace::with_panes(view, n) == view,
    decreases n,
{
    if n > 0 {
        lemma_complete_kept(view, (n - 1) as nat);
        assert(workspace::has_pane(view, workspace::all_panes()[n - 1]));
    }
}

/// A completed tree holds every pane, and every pane that was there before is
/// where it was.
pub proof fn law_completed_tree_is_complete(view: DockView)
    requires
        workspace::has_room(view),
    ensures
        is_complete(workspace::completed(view)),
        view.root is Some ==> forall|id: u64, pane: PaneKind|
            workspace::holds_pane(view, id, pane) ==> #[trigger] workspace::holds_pane(
                workspace::completed(view),
                id,
                pane,
            ),
{
    if view.root is None {
        let done = workspace::default_dock();
        assert(workspace::holds_pane(done, 1, PaneKind::Heatmap));
        assert(workspace::holds_pane(done, 2, PaneKind::OrderBook));
        assert(workspace::holds_pane(done, 3, PaneKind::MarketImpact));
        assert(workspace::holds_pane(done, 4, PaneKind::FillKill));
        assert(workspace::holds_pane(done, 5, PaneKind::TradesTape));
        assert(workspace::holds_pane(done, 6, PaneKind::Strategy));
        assert(workspace::holds_pane(done, 7, PaneKind::TradeLog));
        assert(workspace::holds_pane(done, 8, PaneKind::EquityCurve));
    } else if workspace::has_all_panes(view) {
        law_complete_tree_is_kept(view);
    } else {
        lemma_with_panes(view, 8);
        let done = workspace::with_panes(view, 8);
        assert forall|pane: PaneKind| #[trigger] workspace::has_pane(done, pane) by {
            workspace::lemma_all_panes(pane);
            let k = choose|k: int| 0 <= k < 8 && #[trigger] workspace::all_panes()[k] == pane;
            assert(workspace::has_pane(done, workspace::all_panes()[k]));
        }
    }
}

proof fn lemma_with_panes(view: DockView, n: nat)
    requires
        view.root is Some,
        dock::numbers_below(view, u64::MAX - 20),
        n <= 8,
    ensures
        workspace::with_panes(view, n).root is Some,
        dock::numbers_below(workspace::with_panes(view, n), u64::MAX - 20 + 2 * n),
        forall|k: int|
            0 <= k < n ==> workspace::has_pane(
                workspace::with_panes(view, n),
                #[trigger] workspace::all_panes()[k],
            ),
        forall|id: u64, pane: PaneKind|
            workspace::holds_pane(view, id, pane) ==> #[trigger] workspace::holds_pane(
                workspace::with_panes(view, n),
                id,
                pane,
            ),
    decreases n,
{
    if n > 0 {
        let before = workspace::with_panes(view, (n - 1) as nat);
        let pane = workspace::all_panes()[n - 1];
        lemma_with_panes(view, (n - 1) as nat);
        lemma_with_pane(before, pane, u64::MAX - 20 + 2 * (n - 1));
        let after = workspace::with_pane(before, pane);
        assert forall|k: int| 0 <= k < n implies workspace::has_pane(
            after,
            #[trigger] workspace::all_panes()[k],
        ) by {
            if k < n - 1 {
                let p = workspace::all_panes()[k];
                assert(workspace::has_pane(before, p));
                let id = choose|id: u64| workspace::holds_pane(before, id, p);
                assert(workspace::holds_pane(after, id, p));
            }
        }
        assert forall|id: u64, p: PaneKind|
            workspace::holds_pane(view, id, p) implies #[trigger] workspace::holds_pane(
            after,
            id,
            p,
        ) by {
            assert(workspace::holds_pane(before, id, p));
        }
    }
}

/// With all numbers below a limit there is a first free one.
proof fn lemma_free_number_exists(view: DockView, limit: int, from: nat)
    requires
        dock::numbers_below(view, limit),
        limit <= u64::MAX,
        view.next <= from <= limit,
        forall|m: nat| view.next <= m < from ==> #[trigger] view.tiles.contains_key(m as u64),
    ensures
        exists|n: nat| dock::is_first_free(view, n),
    decreases limit - from,
{
    if view.tiles.contains_key(from as u64) {
        assert(from < limit);
        lemma_free_number_exists(view, limit, from + 1);
    } else {
        assert(dock::is_first_free(view, from));
    }
}

proof fn lemma_with_pane(view: DockView, pane: PaneKind, limit: int)
    requires
        view.root is Some,
        dock::numbers_below(view, limit),
        limit + 2 <= u64::MAX,
    ensures
        workspace::with_pane(view, pane).root is Some,
        dock::numbers_below(workspace::with_pane(view, pane), limit + 2),
        workspace::has_pane(workspace::with_pane(view, pane), pane),
        forall|id: u64, p: PaneKind|
            workspace::holds_pane(view, id, p) ==> #[trigger] workspace::holds_pane(
                workspace::with_pane(view, pane),
                id,
                p,
            ),
{
    if !workspace::has_pane(view, pane) {
        let tile = TileView::Pane(pane);
        lemma_free_number_exists(view, limit, view.next);
        let n = dock::first_free(view);
        assert(dock::is_first_free(view, n));
        dock::lemma_numbers_below(view, n, limit, tile);
        workspace::lemma_with_tile_keeps_panes(view, n, tile);
        let planted = dock::with_tile(view, tile);
        let root = view.root->0;
        let after = workspace::with_pane(view, pane);
        if !dock::is_container(planted, root) {
            let branch = TileView::Container(
                crate::dock::Arrangement::Horizontal,
                seq![root, n as u64],
            );
            lemma_free_number_exists(planted, limit + 1, planted.next);
            let m = dock::first_free(planted);
            assert(dock::is_first_free(planted, m));
            dock::lemma_numbers_below(planted, m, limit + 1, branch);
            workspace::lemma_with_tile_keeps_panes(planted, m, branch);
            assert forall|id: u64, p: PaneKind|
                workspace::holds_pane(planted, id, p) implies #[trigger] workspace::holds_pane(
                after,
                id,
                p,
            ) by {
                assert(workspace::holds_pane(dock::with_tile(planted, branch), id, p));
            }
        }
        assert forall|id: u64, p: PaneKind|
            workspace::holds_pane(view, id, p) implies #[trigger] workspace::holds_pane(
            after,
            id,
            p,
        ) by {
            assert(workspace::holds_pane(planted, id, p));
        }
        assert(workspace::holds_pane(planted, n as u64, pane));
        assert(workspace::holds_pane(after, n as u64, pane));
    }
}

/// A repaired store is in order.
pub proof fn law_sanitized_store_is_in_order(store: StoreView)
    requires
        have_room(store.profiles),
        store.profiles.len() <= u64::MAX,
    ensures
        is_in_order(sanitized(store)),
{
    let done = sanitized(store);
    if store.profiles.len() == 0 {
        lemma_default_store_in_order();
    } else {
        let list = names(store.profiles);
        law_repaired_names_are_fit_and_distinct(list);
        assert(names(done.profiles) =~= repaired_names(list));
        workspace::lemma_position(done.profiles, store.active_profile);
        let at = workspace::position_or_first(done.profiles, store.active_profile);
        assert(done.profiles[at].name == done.active_profile);
        assert forall|i: int| 0 <= i < done.profiles.len() implies is_complete(
            (#[trigger] done.profiles[i]).dock,
        ) by {
            assert(workspace::has_room(store.profiles[i].dock));
            law_completed_tree_is_complete(store.profiles[i].dock);
        }
        assert forall|i: int| 0 <= i < done.profiles.len() implies is_fit(
            (#[trigger] done.profiles[i]).name,
        ) by {
            assert(is_fit(repaired_names(list)[i]));
        }
    }
}

proof fn lemma_default_store_in_order()
    ensures
        is_in_order(workspace::default_store()),
{
    let store = workspace::default_store();
    reveal_strlit("Default");
    let bare = DockView { root: None, ..workspace::default_dock() };
    law_completed_tree_is_complete(bare);
    assert(store.profiles[0].name == store.active_profile);
}

/// A store that is in order, and whose names neither start nor end with white
/// space, is its own repair. (A name cut at the allowed length can end with
/// white space: repairing such a store once more shortens that name.)
pub proof fn law_store_in_order_is_kept(store: StoreView)
    requires
        is_in_order(store),
        forall|i: int|
            0 <= i < store.profiles.len() ==> text::trim((#[trigger] store.profiles[i]).name)
                == store.profiles[i].name,
    ensures
        sanitized(store) == store,
{
    let list = names(store.profiles);
    assert forall|i: int| 0 <= i < list.len() implies workspace::normalized(#[trigger] list[i])
        == list[i] by {
        assert(is_fit(store.profiles[i].name));
    }
    lemma_names_kept(list);
    let done = sanitized(store);
    assert forall|i: int| 0 <= i < store.profiles.len() implies #[trigger] done.profiles[i]
        == store.profiles[i] by {
        law_complete_tree_is_kept(store.profiles[i].dock);
        assert(repaired_names(list)[i] == list[i]);
    }
    assert(done.profiles =~= store.profiles);
    let at = choose|i: int|
        0 <= i < store.profiles.len() && (#[trigger] store.profiles[i]).name
            == store.active_profile;
    lemma_distinct_position(store.profiles, at);
}

proof fn lemma_names_kept(list: Seq<Seq<char>>)
    requires
        are_distinct(list),
        forall|i: int|
            0 <= i < list.len() ==> list[i].len() > 0 && workspace::normalized(#[trigger] list[i])
                == list[i],
    ensures
        repaired_names(list) == list,
    decreases list.len(),
{
    if list.len() > 0 {
        lemma_names_kept(list.drop_last());
        let before = list.drop_last();
        let name = list.last();
        assert(base_name(name, (list.len() - 1) as nat) == name);
        assert(!is_used(before, name)) by {
            if is_used(before, name) {
                let i = choose|i: int|
                    0 <= i < before.len() && workspace::same_name(#[trigger] before[i], name);
                assert(list[i] == before[i]);
                assert(!workspace::same_name(list[i], list[list.len() - 1]));
            }
        }
        assert(repaired_names(list) =~= list);
    }
}

/// With distinct names a layout is found under its own name.
proof fn lemma_distinct_position(profiles: Seq<ProfileView>, at: int)
    requires
        are_distinct(names(profiles)),
        0 <= at < profiles.len(),
    ensures
        workspace::position(profiles, profiles[at].name) == at,
        workspace::position_or_first(profiles, profiles[at].name) == at,
{
    assert forall|i: int| 0 <= i < at implies !workspace::same_name(
        (#[trigger] profiles[i]).name,
        profiles[at].name,
    ) by {
        assert(!workspace::same_name(names(profiles)[i], names(profiles)[at]));
    }
    workspace::lemma_position_is(profiles, profiles[at].name, at);
}

/// In a store in order, the layout that is made active is the active one.
pub proof fn law_active_layout_is_the_one_set(store: StoreView, idx: int)
    requires
        is_in_order(store),
        0 <= idx < store.profiles.len(),
    ensures
        workspace::active_position(workspace::with_active(store, idx)) == idx,
        is_in_order(workspace::with_active(store, idx)),
{
    lemma_distinct_position(store.profiles, idx);
    let after = workspace::with_active(store, idx);
    assert(after.profiles[idx].name == after.active_profile);
}

/// Adding a layout under an accepted name keeps a store in order, and makes the
/// new layout the active one.
pub proof fn law_creating_keeps_order(store: StoreView, input: Seq<char>, tree: DockView)
    requires
        is_in_order(store),
        is_complete(tree),
        workspace::name_verdict(input, store.profiles, None) is Ok,
    ensures
        ({
            let name = workspace::name_verdict(input, store.profiles, None)->Ok_0;
            let after = StoreView {
                schema_version: store.schema_version,
                active_profile: name,
                profiles: store.profiles.push(ProfileView { name, dock: tree }),
            };
            is_in_order(after) && workspace::active_position(after) == store.profiles.len()
        }),
{
    let name = workspace::name_verdict(input, store.profiles, None)->Ok_0;
    let after = StoreView {
        schema_version: store.schema_version,
        active_profile: name,
        profiles: store.profiles.push(ProfileView { name, dock: tree }),
    };
    let n = store.profiles.len() as int;
    assert(after.profiles[n].name == name);
    assert forall|i: int| 0 <= i < after.profiles.len() implies is_fit(
        (#[trigger] after.profiles[i]).name,
    ) by {
        if i < n {
            assert(after.profiles[i] == store.profiles[i]);
        }
    }
    assert forall|i: int| 0 <= i < after.profiles.len() implies is_complete(
        (#[trigger] after.profiles[i]).dock,
    ) by {
        if i < n {
            assert(after.profiles[i] == store.profiles[i]);
        }
    }
    assert forall|i: int, j: int| 0 <= i < j < after.profiles.len() implies !workspace::same_name(
        #[trigger] names(after.profiles)[i],
        #[trigger] names(after.profiles)[j],
    ) by {
        assert(names(store.profiles)[i] == store.profiles[i].name);
        if j < n {
            assert(names(store.profiles)[j] == store.profiles[j].name);
        } else {
            assert(!workspace::is_taken(store.profiles, None, name));
            assert(!workspace::same_name(store.profiles[i].name, name));
        }
    }
    lemma_distinct_position(after.profiles, n);
}

/// Renaming a layout to an accepted name keeps a store in order, leaves the
/// other layouts as they are, and leaves the same layout active.
pub proof fn law_renaming_keeps_order(store: StoreView, idx: usize, input: Seq<char>)
    requires
        is_in_order(store),
        store.profiles.len() <= usize::MAX,
        idx < store.profiles.len(),
        workspace::name_verdict(input, store.profiles, Some(idx)) is Ok,
    ensures
        ({
            let name = workspace::name_verdict(input, store.profiles, Some(idx))->Ok_0;
            let after = workspace::with_name(store, idx as int, name);
            &&& is_in_order(after)
            &&& after.profiles == store.profiles.update(
                idx as int,
                ProfileView { name, ..store.profiles[idx as int] },
            )
            &&& workspace::active_position(after) == workspace::active_position(store)
        }),
{
    let name = workspace::name_verdict(input, store.profiles, Some(idx))->Ok_0;
    let after = workspace::with_name(store, idx as int, name);
    let profiles = store.profiles.update(
        idx as int,
        ProfileView { name, ..store.profiles[idx as int] },
    );
    assert(after.profiles == profiles);
    assert forall|i: int, j: int| 0 <= i < j < profiles.len() implies !workspace::same_name(
        #[trigger] names(profiles)[i],
        #[trigger] names(profiles)[j],
    ) by {
        assert(!workspace::same_name(names(store.profiles)[i], names(store.profiles)[j]));
        assert(!workspace::is_taken(store.profiles, Some(idx), name));
        if i == idx {
            assert(Some(idx) != Some(j as usize));
            assert(!workspace::same_name(store.profiles[j].name, name));
        } else if j == idx {
            assert(Some(idx) != Some(i as usize));
            assert(!workspace::same_name(store.profiles[i].name, name));
        }
    }
    assert forall|i: int| 0 <= i < profiles.len() implies is_fit((#[trigger] profiles[i]).name) by {
        if i != idx {
            assert(profiles[i] == store.profiles[i]);
        }
    }
    assert forall|i: int| 0 <= i < profiles.len() implies is_complete(
        (#[trigger] profiles[i]).dock,
    ) by {
        assert(is_complete(store.profiles[i].dock));
    }
    let at = choose|i: int|
        0 <= i < store.profiles.len() && (#[trigger] store.profiles[i]).name
            == store.active_profile;
    lemma_distinct_position(store.profiles, at);
    assert(names(store.profiles)[at] == store.profiles[at].name);
    assert(names(store.profiles)[idx as int] == store.profiles[idx as int].name);
    if at == idx {
        lemma_distinct_position(profiles, idx as int);
        assert(after.profiles[idx as int].name == after.active_profile);
    } else {
        assert(profiles[at].name == store.active_profile);
        lemma_distinct_position(profiles, at);
        assert(after.profiles[at].name == after.active_profile);
    }
}

/// Deleting a layout keeps a store in order. Where another layout was active
/// it stays active; where the deleted one was, the layout named like a fresh
/// one becomes active, or else the first.
pub proof fn law_deleting_keeps_order(store: StoreView, idx: int)
    requires
        is_in_order(store),
        0 <= idx < store.profiles.len(),
        store.profiles.len() > 1,
    ensures
        is_in_order(workspace::without(store, idx)),
        workspace::without(store, idx).profiles == store.profiles.remove(idx),
        !workspace::same_name(store.profiles[idx].name, store.active_profile)
            ==> workspace::without(store, idx).active_profile == store.active_profile,
        workspace::same_name(store.profiles[idx].name, store.active_profile)
            ==> workspace::active_position(workspace::without(store, idx))
            == workspace::position_or_first(
            store.profiles.remove(idx),
            DEFAULT_LAYOUT_PROFILE_NAME@,
        ),
{
    let after = workspace::without(store, idx);
    let profiles = store.profiles.remove(idx);
    assert forall|i: int| 0 <= i < profiles.len() implies #[trigger] profiles[i]
        == store.profiles[if i < idx {
        i
    } else {
        i + 1
    }] by {}
    assert forall|i: int, j: int| 0 <= i < j < profiles.len() implies !workspace::same_name(
        #[trigger] names(profiles)[i],
        #[trigger] names(profiles)[j],
    ) by {
        let oi = if i < idx {
            i
        } else {
            i + 1
        };
        let oj = if j < idx {
            j
        } else {
            j + 1
        };
        assert(profiles[i] == store.profiles[oi]);
        assert(profiles[j] == store.profiles[oj]);
        assert(!workspace::same_name(names(store.profiles)[oi], names(store.profiles)[oj]));
    }
    assert forall|i: int| 0 <= i < profiles.len() implies is_fit((#[trigger] profiles[i]).name)
        && is_complete(profiles[i].dock) by {
        assert(is_fit(store.profiles[if i < idx {
            i
        } else {
            i + 1
        }].name));
        assert(is_complete(store.profiles[if i < idx {
            i
        } else {
            i + 1
        }].dock));
    }
    workspace::lemma_position(profiles, DEFAULT_LAYOUT_PROFILE_NAME@);
    let at = choose|i: int|
        0 <= i < store.profiles.len() && (#[trigger] store.profiles[i]).name
            == store.active_profile;
    assert(names(store.profiles)[at] == store.profiles[at].name);
    assert(names(store.profiles)[idx] == store.profiles[idx].name);
    if at == idx {
        let next = workspace::position_or_first(profiles, DEFAULT_LAYOUT_PROFILE_NAME@);
        lemma_distinct_position(profiles, next);
        assert(after.profiles[next].name == after.active_profile);
    } else {
        let moved = if at < idx {
            at
        } else {
            at - 1
        };
        assert(profiles[moved] == store.profiles[at]);
        lemma_distinct_position(profiles, moved);
        assert(after.profiles[moved].name == after.active_profile);
    }
}

} // verus!
