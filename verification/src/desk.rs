//! The layout session: the tree on the screen, the store of named layouts, and
//! what the layout menu does to them.

use vstd::prelude::*;

use egui_tiles::Tree;

use crate::dock;
use crate::dock::{copy_tree, is_visible, set_visible, DockView};
use crate::layouts;
use crate::layouts::{migrate_legacy_prefs, migrate_v1_store, sanitize_layout_store};
use crate::workspace;
use crate::workspace::{
    build_default_tree, ensure_all_panes, LayoutStoreV2, LegacyLayoutPrefs, LegacyLayoutStore,
    PaneKind, PaneTiles, ProfileView, StoreView, DEFAULT_LAYOUT_PROFILE_NAME,
    LAYOUT_SCHEMA_VERSION,
};

verus! {

/// The store in the current form that saved settings give: the current store
/// repaired, or else the first store or the oldest settings brought into the
/// current form, or else the default.
pub open spec fn store_from(
    current: Option<StoreView>,
    first: Option<LegacyLayoutStore>,
    oldest: Option<LegacyLayoutPrefs>,
) -> StoreView {
    match (current, first, oldest) {
        (Some(store), _, _) => layouts::sanitized(store),
        (None, Some(store), _) => layouts::sanitized(
            if store.profiles@.len() == 0 {
                workspace::default_store()
            } else {
                StoreView {
                    schema_version: LAYOUT_SCHEMA_VERSION,
                    active_profile: store.active_profile@,
                    profiles: layouts::migrated_profiles(store),
                }
            },
        ),
        (None, None, Some(prefs)) => layouts::sanitized(
            StoreView {
                schema_version: LAYOUT_SCHEMA_VERSION,
                active_profile: DEFAULT_LAYOUT_PROFILE_NAME@,
                profiles: seq![
                    ProfileView {
                        name: DEFAULT_LAYOUT_PROFILE_NAME@,
                        dock: layouts::legacy_dock(prefs),
                    },
                ],
            },
        ),
        (None, None, None) => workspace::default_store(),
    }
}

/// What a saved store holds, if there is one.
pub open spec fn saved_view(store: Option<LayoutStoreV2>) -> Option<StoreView> {
    match store {
        Some(store) => Some(store@),
        None => None,
    }
}

/// The store that saved settings give, and whether it is to be saved because it
/// comes from an older form.
pub fn load_store(
    current: Option<LayoutStoreV2>,
    first: Option<LegacyLayoutStore>,
    oldest: Option<LegacyLayoutPrefs>,
) -> (loaded: (LayoutStoreV2, bool))
    requires
        current matches Some(store) ==> layouts::have_room(store@.profiles),
    ensures
        loaded.0@ == store_from(saved_view(current), first, oldest),
        loaded.1 == (current is None && (first is Some || oldest is Some)),
{
    match current {
        Some(store) => (sanitize_layout_store(store), false),
        None => match first {
            Some(store) => (migrate_v1_store(store), true),
            None => match oldest {
                Some(prefs) => (migrate_legacy_prefs(prefs), true),
                None => (LayoutStoreV2::default(), false),
            },
        },
    }
}

/// The layout session.
#[derive(Debug)]
pub struct LayoutDesk {
    pub dock_tree: Tree<PaneKind>,
    pub pane_tile_ids: PaneTiles,
    pub layout_store: LayoutStoreV2,
    pub active_profile_idx: usize,
    pub selected_profile_idx: usize,
    pub layout_dirty: bool,
    pub save_as_modal_open: bool,
    pub save_as_name_input: String,
    pub rename_modal_open: bool,
    pub rename_name_input: String,
    pub delete_confirm_open: bool,
    pub layout_error_message: Option<String>,
    pub persist_on_next_frame: bool,
}

/// What the layout session holds, but for the numbers of the tiles that hold
/// the panes: which of several tiles of one pane is recorded is left open, so
/// contracts speak of `pane_tile_ids` beside the view.
#[verifier::ext_equal]
pub struct DeskView {
    pub dock: DockView,
    pub store: StoreView,
    pub active: usize,
    pub selected: usize,
    pub dirty: bool,
    pub save_as_open: bool,
    pub save_as_input: Seq<char>,
    pub rename_open: bool,
    pub rename_input: Seq<char>,
    pub delete_open: bool,
    pub error: Option<Seq<char>>,
    pub persist_on_next_frame: bool,
}

/// What a message says, if there is one.
pub open spec fn message_view(message: Option<String>) -> Option<Seq<char>> {
    match message {
        Some(text) => Some(text@),
        None => None,
    }
}

impl View for LayoutDesk {
    type V = DeskView;

    open spec fn view(&self) -> DeskView {
        DeskView {
            dock: dock::contents(self.dock_tree),
            store: self.layout_store@,
            active: self.active_profile_idx,
            selected: self.selected_profile_idx,
            dirty: self.layout_dirty,
            save_as_open: self.save_as_modal_open,
            save_as_input: self.save_as_name_input@,
            rename_open: self.rename_modal_open,
            rename_input: self.rename_name_input@,
            delete_open: self.delete_confirm_open,
            error: message_view(self.layout_error_message),
            persist_on_next_frame: self.persist_on_next_frame,
        }
    }
}

/// The store with another tree in the layout at `idx`, where there is one.
pub open spec fn with_dock(store: StoreView, idx: int, dock: DockView) -> StoreView {
    if 0 <= idx < store.profiles.len() {
        StoreView {
            profiles: store.profiles.update(idx, ProfileView { dock, ..store.profiles[idx] }),
            ..store
        }
    } else {
        store
    }
}

/// The session in which the active layout of a store is on the screen,
/// completed where it lacked panes.
pub open spec fn opened(store: StoreView, persist: bool) -> DeskView {
    let active = workspace::active_position(store);
    let dock = workspace::completed(
        if active < store.profiles.len() {
            store.profiles[active].dock
        } else {
            workspace::default_dock()
        },
    );
    DeskView {
        dock,
        store: with_dock(store, active, dock),
        active: active as usize,
        selected: active as usize,
        dirty: false,
        save_as_open: false,
        save_as_input: Seq::empty(),
        rename_open: false,
        rename_input: Seq::empty(),
        delete_open: false,
        error: None,
        persist_on_next_frame: persist,
    }
}

/// The session after its indices have been brought in line with the store, which
/// is replaced by the default one where it holds nothing.
pub open spec fn synced(d: DeskView) -> DeskView {
    let store = if d.store.profiles.len() == 0 {
        workspace::default_store()
    } else {
        d.store
    };
    let active = workspace::active_position(store) as usize;
    DeskView {
        store,
        active,
        selected: if d.selected >= store.profiles.len() {
            active
        } else {
            d.selected
        },
        ..d
    }
}

/// The session after the tree on the screen has been put into the active layout.
pub open spec fn saved(d: DeskView) -> DeskView {
    let s = synced(d);
    let store = with_dock(s.store, s.active as int, s.dock);
    DeskView { store: workspace::with_active(store, s.active as int), dirty: false, ..s }
}

/// The session after the layout at `idx` has been put on the screen and made
/// active; the session itself where there is none.
pub open spec fn applied(d: DeskView, idx: usize) -> DeskView {
    if idx >= d.store.profiles.len() {
        d
    } else {
        let dock = workspace::completed(d.store.profiles[idx as int].dock);
        let store = with_dock(d.store, idx as int, dock);
        DeskView {
            dock,
            store: workspace::with_active(store, idx as int),
            active: idx,
            selected: idx,
            dirty: false,
            ..d
        }
    }
}

/// The session after a layout has been added under a name that passes.
pub open spec fn created(d: DeskView, name: Seq<char>) -> DeskView {
    let idx = d.store.profiles.len() as usize;
    DeskView {
        store: StoreView {
            active_profile: name,
            profiles: d.store.profiles.push(ProfileView { name, dock: d.dock }),
            ..d.store
        },
        active: idx,
        selected: idx,
        dirty: false,
        ..d
    }
}

/// Why the layout at `idx` cannot be deleted, if it cannot.
pub open spec fn delete_refusal(store: StoreView, idx: usize) -> Option<Seq<char>> {
    if store.profiles.len() <= 1 {
        Some("Cannot delete the last remaining profile."@)
    } else if idx >= store.profiles.len() {
        Some("Profile does not exist."@)
    } else {
        None
    }
}

/// The name that a user's entry gives the layout at `idx`, or why it cannot.
pub open spec fn rename_verdict(store: StoreView, idx: usize, name: Seq<char>) -> Result<
    Seq<char>,
    Seq<char>,
> {
    if idx >= store.profiles.len() {
        Err("Profile does not exist."@)
    } else {
        workspace::name_verdict(name, store.profiles, Some(idx))
    }
}

impl LayoutDesk {
    /// Puts the active layout of a store on the screen.
    pub fn new(store: LayoutStoreV2, persist: bool) -> (desk: LayoutDesk)
        requires
            layouts::have_room(store@.profiles),
        ensures
            desk@ == opened(store@, persist),
            workspace::maps_panes(desk@.dock, desk.pane_tile_ids),
            forall|pane: PaneKind| #[trigger] desk.pane_tile_ids.at(pane) is Some,
    {
        let ghost start = store@;
        let mut layout_store: LayoutStoreV2 = store;
        let active: usize = layout_store.active_index();
        proof {
            workspace::lemma_position(start.profiles, start.active_profile);
        }
        let mut dock_tree: Tree<PaneKind> = if active < layout_store.profiles.len() {
            proof {
                assert(start.profiles[active as int] == layout_store.profiles@[active as int]@);
            }
            copy_tree(&layout_store.profiles[active].dock_tree)
        } else {
            build_default_tree()
        };
        let ids: PaneTiles = ensure_all_panes(&mut dock_tree);
        if active < layout_store.profiles.len() {
            layout_store.profiles[active].dock_tree = copy_tree(&dock_tree);
        }
        proof {
            assert(layout_store@.profiles =~= with_dock(
                start,
                active as int,
                dock::contents(dock_tree),
            ).profiles);
        }
        let desk = LayoutDesk {
            dock_tree,
            pane_tile_ids: ids,
            layout_store,
            active_profile_idx: active,
            selected_profile_idx: active,
            layout_dirty: false,
            save_as_modal_open: false,
            save_as_name_input: String::new(),
            rename_modal_open: false,
            rename_name_input: String::new(),
            delete_confirm_open: false,
            layout_error_message: None,
            persist_on_next_frame: persist,
        };
        proof {
            assert(desk@.save_as_input =~= Seq::empty());
            assert(desk@.rename_input =~= Seq::empty());
        }
        desk
    }

    /// Whether a pane is on the screen.
    pub fn pane_visible(&self, pane: PaneKind) -> (visible: bool)
        ensures
            visible == match self.pane_tile_ids.at(pane) {
                Some(id) => !self@.dock.hidden.contains(id),
                None => false,
            },
    {
        match self.pane_tile_ids.get(pane) {
            Some(id) => is_visible(&self.dock_tree, id),
            None => false,
        }
    }

    /// Switches a pane on or off.
    pub fn set_pane_visible(&mut self, pane: PaneKind, visible: bool)
        ensures
            final(self).pane_tile_ids == old(self).pane_tile_ids,
            final(self)@ == match old(self).pane_tile_ids.at(pane) {
                Some(id) => DeskView {
                    dock: layouts::with_visible(old(self)@.dock, id, visible),
                    dirty: true,
                    ..old(self)@
                },
                None => old(self)@,
            },
    {
        if let Some(id) = self.pane_tile_ids.get(pane) {
            set_visible(&mut self.dock_tree, id, visible);
            self.layout_dirty = true;
        }
    }

    /// Brings the indices in line with the store.
    pub fn sync_profile_indices(&mut self)
        ensures
            final(self).pane_tile_ids == old(self).pane_tile_ids,
            final(self)@ == synced(old(self)@),
    {
        if self.layout_store.profiles.len() == 0 {
            self.layout_store = LayoutStoreV2::default();
        }
        self.active_profile_idx = self.layout_store.active_index();
        if self.selected_profile_idx >= self.layout_store.profiles.len() {
            self.selected_profile_idx = self.active_profile_idx;
        }
    }

    /// Puts the tree on the screen into the active layout.
    pub fn save_active_profile(&mut self)
        ensures
            final(self).pane_tile_ids == old(self).pane_tile_ids,
            final(self)@ == saved(old(self)@),
    {
        self.sync_profile_indices();
        let ghost s = self@;
        let active: usize = self.active_profile_idx;
        proof {
            workspace::lemma_position(s.store.profiles, s.store.active_profile);
        }
        if active < self.layout_store.profiles.len() {
            self.layout_store.profiles[active].dock_tree = copy_tree(&self.dock_tree);
            proof {
                assert(self.layout_store@.profiles =~= with_dock(
                    s.store,
                    active as int,
                    s.dock,
                ).profiles);
            }
            self.layout_store.active_profile = self.layout_store.profiles[active].name.clone();
        }
        self.layout_dirty = false;
    }

    /// Puts the layout at `idx` on the screen and makes it active.
    pub fn apply_profile(&mut self, idx: usize)
        requires
            idx < old(self)@.store.profiles.len() ==> workspace::has_room(
                old(self)@.store.profiles[idx as int].dock,
            ),
        ensures
            final(self)@ == applied(old(self)@, idx),
            idx >= old(self)@.store.profiles.len() ==> final(self).pane_tile_ids == old(
                self,
            ).pane_tile_ids,
            idx < old(self)@.store.profiles.len() ==> workspace::maps_panes(
                final(self)@.dock,
                final(self).pane_tile_ids,
            ) && forall|pane: PaneKind| #[trigger] final(self).pane_tile_ids.at(pane) is Some,
    {
        if idx >= self.layout_store.profiles.len() {
            return;
        }
        let ghost start = self@.store;
        proof {
            assert(start.profiles[idx as int] == self.layout_store.profiles@[idx as int]@);
        }
        self.dock_tree = copy_tree(&self.layout_store.profiles[idx].dock_tree);
        let ids: PaneTiles = ensure_all_panes(&mut self.dock_tree);
        self.pane_tile_ids = ids;
        self.layout_store.profiles[idx].dock_tree = copy_tree(&self.dock_tree);
        proof {
            assert(self.layout_store@.profiles =~= with_dock(
                start,
                idx as int,
                self@.dock,
            ).profiles);
        }
        self.layout_store.set_active_index(idx);
        self.active_profile_idx = idx;
        self.selected_profile_idx = idx;
        self.layout_dirty = false;
    }

    /// Adds a layout with the tree on the screen, under a name that a user
    /// enters.
    pub fn create_profile(&mut self, name: &str) -> (outcome: Result<(), String>)
        ensures
            final(self).pane_tile_ids == old(self).pane_tile_ids,
            match workspace::name_verdict(name@, old(self)@.store.profiles, None) {
                Err(message) => outcome matches Err(text) && text@ == message && final(self)@
                    == old(self)@,
                Ok(normal) => outcome is Ok && final(self)@ == created(old(self)@, normal),
            },
    {
        let tree: Tree<PaneKind> = copy_tree(&self.dock_tree);
        match self.layout_store.create_profile(name, tree) {
            Ok(idx) => {
                self.active_profile_idx = idx;
                self.selected_profile_idx = idx;
                self.layout_dirty = false;
                Ok(())
            },
            Err(message) => Err(message),
        }
    }

    /// Gives the layout at `idx` a name that a user enters.
    pub fn rename_profile(&mut self, idx: usize, name: &str) -> (outcome: Result<(), String>)
        ensures
            final(self).pane_tile_ids == old(self).pane_tile_ids,
            match rename_verdict(old(self)@.store, idx, name@) {
                Err(message) => outcome matches Err(text) && text@ == message && final(self)@
                    == old(self)@,
                Ok(normal) => outcome is Ok && final(self)@ == synced(
                    DeskView {
                        store: workspace::with_name(old(self)@.store, idx as int, normal),
                        ..old(self)@
                    },
                ),
            },
    {
        match self.layout_store.rename_profile(idx, name) {
            Ok(()) => {
                self.sync_profile_indices();
                Ok(())
            },
            Err(message) => Err(message),
        }
    }

    /// Removes the layout at `idx` from the store, and tells whether it was the
    /// active one.
    pub fn delete_profile(&mut self, idx: usize) -> (outcome: Result<bool, String>)
        ensures
            final(self).pane_tile_ids == old(self).pane_tile_ids,
            match delete_refusal(old(self)@.store, idx) {
                Some(message) => outcome matches Err(text) && text@ == message && final(self)@
                    == old(self)@,
                None => outcome == Ok::<bool, String>(
                    workspace::same_name(
                        old(self)@.store.profiles[idx as int].name,
                        old(self)@.store.active_profile,
                    ),
                ) && final(self)@ == synced(
                    DeskView {
                        store: workspace::without(old(self)@.store, idx as int),
                        ..old(self)@
                    },
                ),
            },
    {
        match self.layout_store.delete_profile(idx) {
            Ok(was_active) => {
                self.sync_profile_indices();
                Ok(was_active)
            },
            Err(message) => Err(message),
        }
    }

    /// Puts the default tree on the screen; the store stays as it is.
    pub fn reset_layout(&mut self)
        ensures
            final(self)@ == (DeskView {
                dock: workspace::default_dock(),
                dirty: true,
                ..old(self)@
            }),
            workspace::maps_panes(final(self)@.dock, final(self).pane_tile_ids),
            forall|pane: PaneKind| #[trigger] final(self).pane_tile_ids.at(pane) is Some,
    {
        proof {
            lemma_default_dock();
        }
        self.dock_tree = build_default_tree();
        let ids: PaneTiles = ensure_all_panes(&mut self.dock_tree);
        self.pane_tile_ids = ids;
        self.layout_dirty = true;
    }
}

// ---------------------------------------------------------------------------
// Menu
// ---------------------------------------------------------------------------

/// What the layout menu and its windows ask for.
#[derive(Clone, Copy, Debug)]
pub enum LayoutCommand {
    Save,
    /// Put the selected layout on the screen.
    Load,
    OpenSaveAs,
    OpenRename,
    OpenDelete,
    /// Add a layout under the name entered.
    Create,
    CloseSaveAs,
    /// Give the selected layout the name entered.
    Rename,
    CloseRename,
    /// Delete the selected layout.
    Delete,
    CloseDelete,
    Reset,
}

/// The name of the layout at `idx`, if there is one.
pub open spec fn name_at(store: StoreView, idx: int) -> Option<Seq<char>> {
    if 0 <= idx < store.profiles.len() {
        Some(store.profiles[idx].name)
    } else {
        None
    }
}

/// The session after the selected layout has been deleted: where it was the
/// active one, the one that takes its place comes on the screen.
pub open spec fn deleted(d: DeskView) -> DeskView {
    let was_active = workspace::same_name(
        d.store.profiles[d.selected as int].name,
        d.store.active_profile,
    );
    let rest = synced(
        DeskView { store: workspace::without(d.store, d.selected as int), ..d },
    );
    let closed = DeskView { delete_open: false, error: None, ..rest };
    if was_active {
        applied(closed, closed.active)
    } else {
        closed
    }
}

/// The session after a command.
pub open spec fn performed(d: DeskView, command: LayoutCommand) -> DeskView {
    match command {
        LayoutCommand::Save => DeskView { error: None, ..saved(d) },
        LayoutCommand::Load => DeskView { error: None, ..applied(d, d.selected) },
        LayoutCommand::OpenSaveAs => DeskView {
            save_as_open: true,
            save_as_input: Seq::empty(),
            error: None,
            ..d
        },
        LayoutCommand::OpenRename => DeskView {
            rename_open: true,
            rename_input: match name_at(d.store, d.selected as int) {
                Some(name) => name,
                None => Seq::empty(),
            },
            error: None,
            ..d
        },
        LayoutCommand::OpenDelete => DeskView { delete_open: true, error: None, ..d },
        LayoutCommand::Create => match workspace::name_verdict(
            d.save_as_input,
            d.store.profiles,
            None,
        ) {
            Ok(name) => DeskView { save_as_open: false, error: None, ..created(d, name) },
            Err(message) => DeskView { error: Some(message), ..d },
        },
        LayoutCommand::CloseSaveAs => DeskView { save_as_open: false, ..d },
        LayoutCommand::Rename => match rename_verdict(d.store, d.selected, d.rename_input) {
            Ok(name) => DeskView {
                rename_open: false,
                error: None,
                ..synced(
                    DeskView {
                        store: workspace::with_name(d.store, d.selected as int, name),
                        ..d
                    },
                )
            },
            Err(message) => DeskView { error: Some(message), ..d },
        },
        LayoutCommand::CloseRename => DeskView { rename_open: false, ..d },
        LayoutCommand::Delete => match delete_refusal(d.store, d.selected) {
            None => deleted(d),
            Some(message) => DeskView { error: Some(message), ..d },
        },
        LayoutCommand::CloseDelete => DeskView { delete_open: false, ..d },
        LayoutCommand::Reset => DeskView {
            dock: workspace::default_dock(),
            dirty: true,
            ..d
        },
    }
}

/// Whether a command puts a tree on the screen.
pub open spec fn replaces_tree(d: DeskView, command: LayoutCommand) -> bool {
    match command {
        LayoutCommand::Load => d.selected < d.store.profiles.len(),
        LayoutCommand::Delete => delete_refusal(d.store, d.selected) is None
            && workspace::same_name(
            d.store.profiles[d.selected as int].name,
            d.store.active_profile,
        ),
        LayoutCommand::Reset => true,
        _ => false,
    }
}

/// Whether the store is to be written out after a command.
pub open spec fn is_persisted(d: DeskView, command: LayoutCommand) -> bool {
    match command {
        LayoutCommand::Save => true,
        LayoutCommand::Load => true,
        LayoutCommand::Create => workspace::name_verdict(
            d.save_as_input,
            d.store.profiles,
            None,
        ) is Ok,
        LayoutCommand::Rename => rename_verdict(d.store, d.selected, d.rename_input) is Ok,
        LayoutCommand::Delete => delete_refusal(d.store, d.selected) is None,
        _ => false,
    }
}

impl LayoutDesk {
    /// Carries out a command, and tells whether the store is to be written out.
    pub fn perform(&mut self, command: LayoutCommand) -> (persist: bool)
        requires
            layouts::have_room(old(self)@.store.profiles),
        ensures
            final(self)@ == performed(old(self)@, command),
            replaces_tree(old(self)@, command) ==> workspace::maps_panes(
                final(self)@.dock,
                final(self).pane_tile_ids,
            ) && forall|pane: PaneKind| #[trigger] final(self).pane_tile_ids.at(pane) is Some,
            !replaces_tree(old(self)@, command) ==> final(self).pane_tile_ids == old(
                self,
            ).pane_tile_ids,
            persist == is_persisted(old(self)@, command),
    {
        match command {
            LayoutCommand::Save => {
                self.save_active_profile();
                self.layout_error_message = None;
                true
            },
            LayoutCommand::Load => {
                let idx: usize = self.selected_profile_idx;
                self.apply_profile(idx);
                self.layout_error_message = None;
                true
            },
            LayoutCommand::OpenSaveAs => {
                self.save_as_modal_open = true;
                self.save_as_name_input = String::new();
                self.layout_error_message = None;
                proof {
                    assert(self@.save_as_input =~= Seq::empty());
                }
                false
            },
            LayoutCommand::OpenRename => {
                self.rename_modal_open = true;
                self.rename_name_input = if self.selected_profile_idx
                    < self.layout_store.profiles.len() {
                    self.layout_store.profiles[self.selected_profile_idx].name.clone()
                } else {
                    String::new()
                };
                self.layout_error_message = None;
                proof {
                    assert(self@.rename_input =~= performed(old(self)@, command).rename_input);
                }
                false
            },
            LayoutCommand::OpenDelete => {
                self.delete_confirm_open = true;
                self.layout_error_message = None;
                false
            },
            LayoutCommand::Create => {
                let name: String = self.save_as_name_input.clone();
                match self.create_profile(&name) {
                    Ok(()) => {
                        self.save_as_modal_open = false;
                        self.layout_error_message = None;
                        true
                    },
                    Err(message) => {
                        self.layout_error_message = Some(message);
                        false
                    },
                }
            },
            LayoutCommand::CloseSaveAs => {
                self.save_as_modal_open = false;
                false
            },
            LayoutCommand::Rename => {
                let idx: usize = self.selected_profile_idx;
                let name: String = self.rename_name_input.clone();
                match self.rename_profile(idx, &name) {
                    Ok(()) => {
                        self.rename_modal_open = false;
                        self.layout_error_message = None;
                        true
                    },
                    Err(message) => {
                        self.layout_error_message = Some(message);
                        false
                    },
                }
            },
            LayoutCommand::CloseRename => {
                self.rename_modal_open = false;
                false
            },
            LayoutCommand::Delete => {
                let idx: usize = self.selected_profile_idx;
                match self.delete_profile(idx) {
                    Ok(was_active) => {
                        self.delete_confirm_open = false;
                        self.layout_error_message = None;
                        if was_active {
                            let active: usize = self.active_profile_idx;
                            proof {
                                let rest = workspace::without(old(self)@.store, idx as int);
                                workspace::lemma_position(rest.profiles, rest.active_profile);
                                let k = if active < idx {
                                    active as int
                                } else {
                                    active + 1
                                };
                                assert(rest.profiles[active as int]
                                    == old(self)@.store.profiles[k]);
                            }
                            self.apply_profile(active);
                        }
                        true
                    },
                    Err(message) => {
                        self.layout_error_message = Some(message);
                        false
                    },
                }
            },
            LayoutCommand::CloseDelete => {
                self.delete_confirm_open = false;
                false
            },
            LayoutCommand::Reset => {
                self.reset_layout();
                false
            },
        }
    }

    /// Takes note that the tree on the screen has been rearranged.
    pub fn mark_edited(&mut self, edited: bool)
        ensures
            final(self)@ == (DeskView { dirty: old(self)@.dirty || edited, ..old(self)@ }),
            final(self).pane_tile_ids == old(self).pane_tile_ids,
    {
        if edited {
            self.layout_dirty = true;
        }
    }

    /// The name of the active layout, the default name where there is none.
    pub fn active_name(&self) -> (name: String)
        ensures
            name@ == match name_at(self@.store, self@.active as int) {
                Some(name) => name,
                None => DEFAULT_LAYOUT_PROFILE_NAME@,
            },
    {
        if self.active_profile_idx < self.layout_store.profiles.len() {
            self.layout_store.profiles[self.active_profile_idx].name.clone()
        } else {
            DEFAULT_LAYOUT_PROFILE_NAME.to_string()
        }
    }

    /// The name of the selected layout, the default name where there is none.
    pub fn selected_name(&self) -> (name: String)
        ensures
            name@ == match name_at(self@.store, self@.selected as int) {
                Some(name) => name,
                None => DEFAULT_LAYOUT_PROFILE_NAME@,
            },
    {
        if self.selected_profile_idx < self.layout_store.profiles.len() {
            self.layout_store.profiles[self.selected_profile_idx].name.clone()
        } else {
            DEFAULT_LAYOUT_PROFILE_NAME.to_string()
        }
    }
}

// ---------------------------------------------------------------------------
// Laws
// ---------------------------------------------------------------------------

/// The default tree holds every pane.
proof fn lemma_default_dock()
    ensures
        workspace::has_all_panes(workspace::default_dock()),
        workspace::completed(workspace::default_dock()) == workspace::default_dock(),
{
    lemma_default_tiles(workspace::default_dock());
    layouts::law_complete_tree_is_kept(workspace::default_dock());
}

/// A tree that has the tiles of the default one holds every pane.
proof fn lemma_default_tiles(view: DockView)
    requires
        view.tiles == workspace::default_dock().tiles,
    ensures
        workspace::has_all_panes(view),
{
    assert(workspace::holds_pane(view, 1, PaneKind::Heatmap));
    assert(workspace::holds_pane(view, 2, PaneKind::OrderBook));
    assert(workspace::holds_pane(view, 3, PaneKind::MarketImpact));
    assert(workspace::holds_pane(view, 4, PaneKind::FillKill));
    assert(workspace::holds_pane(view, 5, PaneKind::TradesTape));
    assert(workspace::holds_pane(view, 6, PaneKind::Strategy));
    assert(workspace::holds_pane(view, 7, PaneKind::TradeLog));
    assert(workspace::holds_pane(view, 8, PaneKind::EquityCurve));
    assert forall|pane: PaneKind| #[trigger] workspace::has_pane(view, pane) by {}
}

/// Whatever was saved, in whichever form, the store that is loaded is in order.
pub proof fn law_loaded_store_is_in_order(
    current: Option<StoreView>,
    first: Option<LegacyLayoutStore>,
    oldest: Option<LegacyLayoutPrefs>,
)
    requires
        current matches Some(store) ==> layouts::have_room(store.profiles)
            && store.profiles.len() <= u64::MAX,
    ensures
        layouts::is_in_order(store_from(current, first, oldest)),
{
    lemma_default_tiles(workspace::default_dock());
    assert(layouts::have_room(workspace::default_store().profiles));
    layouts::law_sanitized_store_is_in_order(
        StoreView { profiles: Seq::empty(), ..workspace::default_store() },
    );
    match (current, first, oldest) {
        (Some(store), _, _) => {
            layouts::law_sanitized_store_is_in_order(store);
        },
        (None, Some(store), _) => {
            if store.profiles@.len() == 0 {
                layouts::law_sanitized_store_is_in_order(workspace::default_store());
            } else {
                let profiles = layouts::migrated_profiles(store);
                assert forall|i: int| 0 <= i < profiles.len() implies workspace::has_room(
                    (#[trigger] profiles[i]).dock,
                ) by {
                    lemma_default_tiles(profiles[i].dock);
                }
                assert(store.profiles.len() == profiles.len());
                layouts::law_sanitized_store_is_in_order(
                    StoreView {
                        schema_version: LAYOUT_SCHEMA_VERSION,
                        active_profile: store.active_profile@,
                        profiles,
                    },
                );
            }
        },
        (None, None, Some(prefs)) => {
            let profiles = seq![
                ProfileView {
                    name: DEFAULT_LAYOUT_PROFILE_NAME@,
                    dock: layouts::legacy_dock(prefs),
                },
            ];
            lemma_default_tiles(profiles[0].dock);
            layouts::law_sanitized_store_is_in_order(
                StoreView {
                    schema_version: LAYOUT_SCHEMA_VERSION,
                    active_profile: DEFAULT_LAYOUT_PROFILE_NAME@,
                    profiles,
                },
            );
        },
        (None, None, None) => {},
    }
}

/// The trees of a store in order need nothing to be completed.
pub proof fn lemma_store_in_order_has_room(store: StoreView)
    requires
        layouts::is_in_order(store),
    ensures
        layouts::have_room(store.profiles),
{
}

/// What is saved comes back: after the tree on the screen has been saved and
/// another layout loaded, loading the saved one brings the tree back, completed.
pub proof fn law_saved_layout_comes_back(d: DeskView, other: usize)
    requires
        d.store.profiles.len() > 0,
        other < d.store.profiles.len(),
        other != synced(d).active,
        d.store.profiles.len() <= usize::MAX,
    ensures
        applied(applied(saved(d), other), saved(d).active).dock == workspace::completed(d.dock),
{
    workspace::lemma_position(d.store.profiles, d.store.active_profile);
}

/// Loading a layout of a store in order leaves the store in order and the loaded
/// layout active.
pub proof fn law_loading_keeps_order(d: DeskView, idx: usize)
    requires
        layouts::is_in_order(d.store),
        idx < d.store.profiles.len(),
        d.store.profiles.len() <= usize::MAX,
    ensures
        layouts::is_in_order(applied(d, idx).store),
        workspace::active_position(applied(d, idx).store) == idx,
        applied(d, idx).dock == d.store.profiles[idx as int].dock,
{
    let dock = d.store.profiles[idx as int].dock;
    layouts::law_complete_tree_is_kept(dock);
    assert(with_dock(d.store, idx as int, dock).profiles =~= d.store.profiles);
    layouts::law_active_layout_is_the_one_set(d.store, idx as int);
}

/// A command that is refused changes nothing but the message.
pub proof fn law_refused_command_changes_only_the_message(d: DeskView, command: LayoutCommand)
    requires
        command is Create || command is Rename || command is Delete,
        !is_persisted(d, command),
    ensures
        performed(d, command).error is Some,
        performed(d, command) == (DeskView { error: performed(d, command).error, ..d }),
{
}

/// Switching a pane off and on again leaves the tree as it was where the pane
/// was on.
pub proof fn law_pane_switched_off_and_on(view: DockView, id: u64)
    requires
        !view.hidden.contains(id),
    ensures
        layouts::with_visible(layouts::with_visible(view, id, false), id, true) == view,
        layouts::with_visible(view, id, false).hidden.contains(id),
{
    assert(layouts::with_visible(layouts::with_visible(view, id, false), id, true).hidden
        =~= view.hidden);
}

} // verus!
