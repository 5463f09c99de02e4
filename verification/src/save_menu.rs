//! The save menu's decisions: which dialog is shown, what a click changes,
//! and what the game is asked to do on disk.
use vstd::prelude::*;
use crate::console::opt_view;
use crate::new_save::{is_fresh, NewSaveState};
use crate::saves::{rename_target, rename_target_spec};

verus! {

broadcast use vstd::string::group_string_axioms;

/// The save menu's state: the new-save dialog, the save being edited and
/// its edited name, the pending delete, whether the menu asked to be left,
/// and whether the listing read from disk is still current.
pub struct SaveMenuState {
    pub new_save_state: NewSaveState,
    pub in_new_save_menu: bool,
    pub editing_save: Option<String>,
    pub edit_save_name: String,
    pub confirm_delete: bool,
    pub delete_target: Option<String>,
    pub back_requested: bool,
    pub cache_loaded: bool,
}

/// What the player did in the save menu, or what the game reports back.
pub enum SaveMenuEvent {
    /// `Delete` in the confirmation dialog.
    ConfirmDelete,
    /// `Cancel` in the confirmation dialog.
    CancelDelete,
    /// The new-save dialog closed after creating a save or being cancelled.
    NewSaveClosed,
    /// `Rename` in the edit window.
    Rename,
    /// The game renamed the edited save's folder to `new_folder`.
    Renamed { new_folder: String },
    /// `Delete` in the edit window.
    RequestDelete,
    /// `Done` in the edit window.
    EditDone,
    /// `Create New Save`.
    CreateNewSave,
    /// `Edit` on a listed save.
    Edit { folder_name: String, save_name: String },
    /// `Back`.
    Back,
    /// The game has read the listing from disk.
    ListingLoaded,
}

/// What the game is asked to do after an event.
pub enum SaveMenuAction {
    Nothing,
    /// Remove the save folder.
    DeleteFolder(String),
    /// Rename the save folder `from` to `to`, unless `to` exists.
    RenameFolder { from: String, to: String },
}

/// The menu's state apart from the new-save dialog, as plain values.
pub open spec fn menu_view(s: SaveMenuState) -> (
    bool,
    Option<Seq<char>>,
    Seq<char>,
    bool,
    Option<Seq<char>>,
    bool,
    bool,
) {
    (
        s.in_new_save_menu,
        opt_view(s.editing_save),
        s.edit_save_name@,
        s.confirm_delete,
        opt_view(s.delete_target),
        s.back_requested,
        s.cache_loaded,
    )
}

/// The menu's state when it is first shown.
pub open spec fn menu_start() -> (bool, Option<Seq<char>>, Seq<char>, bool, Option<Seq<char>>, bool, bool) {
    (false, None, Seq::empty(), false, None, false, false)
}

impl SaveMenuState {
    /// The menu as it is first shown: no dialog, nothing edited or pending,
    /// and the listing still to be read.
    pub fn new() -> (r: Self)
        ensures
            menu_view(r) == menu_start(),
            is_fresh(r.new_save_state),
            !r.new_save_state.show_new_save,
    {
        SaveMenuState {
            new_save_state: NewSaveState::default(),
            in_new_save_menu: false,
            editing_save: None,
            edit_save_name: String::new(),
            confirm_delete: false,
            delete_target: None,
            back_requested: false,
            cache_loaded: false,
        }
    }

    /// Marks the listing read from disk as out of date, so that it is read
    /// again before it is shown.
    pub fn invalidate_cache(&mut self)
        ensures
            menu_view(*final(self)) == {
                let v = menu_view(*old(self));
                (v.0, v.1, v.2, v.3, v.4, v.5, false)
            },
            final(self).new_save_state == old(self).new_save_state,
    {
        self.cache_loaded = false;
    }
}

/// The state after an event, apart from the new-save dialog.
pub open spec fn menu_after(
    v: (bool, Option<Seq<char>>, Seq<char>, bool, Option<Seq<char>>, bool, bool),
    e: SaveMenuEvent,
) -> (bool, Option<Seq<char>>, Seq<char>, bool, Option<Seq<char>>, bool, bool) {
    match e {
        SaveMenuEvent::ConfirmDelete => (v.0, None, v.2, false, None, v.5, false),
        SaveMenuEvent::CancelDelete => (v.0, v.1, v.2, false, None, v.5, v.6),
        SaveMenuEvent::NewSaveClosed => (false, v.1, v.2, v.3, v.4, v.5, false),
        SaveMenuEvent::Rename => v,
        SaveMenuEvent::Renamed { new_folder } => (v.0, Some(new_folder@), v.2, v.3, v.4, v.5, false),
        SaveMenuEvent::RequestDelete => match v.1 {
            Some(f) => (v.0, v.1, v.2, true, Some(f), v.5, v.6),
            None => v,
        },
        SaveMenuEvent::EditDone => (v.0, None, v.2, v.3, v.4, v.5, v.6),
        SaveMenuEvent::CreateNewSave => (true, v.1, v.2, v.3, v.4, v.5, v.6),
        SaveMenuEvent::Edit { folder_name, save_name } => (
            v.0,
            Some(folder_name@),
            save_name@,
            v.3,
            v.4,
            v.5,
            v.6,
        ),
        SaveMenuEvent::Back => (false, None, v.2, false, None, true, v.6),
        SaveMenuEvent::ListingLoaded => (v.0, v.1, v.2, v.3, v.4, v.5, true),
    }
}

/// The view of an action.
pub open spec fn action_view(a: SaveMenuAction) -> Option<(Seq<char>, Option<Seq<char>>)> {
    match a {
        SaveMenuAction::Nothing => None,
        SaveMenuAction::DeleteFolder(f) => Some((f@, None)),
        SaveMenuAction::RenameFolder { from, to } => Some((from@, Some(to@))),
    }
}

/// What the game is asked to do after an event: remove the pending delete's
/// folder once it is confirmed; rename the edited save's folder to the
/// edited name (trimmed, spaces turned into `_`) when that names another,
/// non-empty folder; nothing otherwise.
pub open spec fn action_after(
    v: (bool, Option<Seq<char>>, Seq<char>, bool, Option<Seq<char>>, bool, bool),
    e: SaveMenuEvent,
) -> Option<(Seq<char>, Option<Seq<char>>)> {
    match e {
        SaveMenuEvent::ConfirmDelete => match v.4 {
            Some(f) => Some((f, None)),
            None => None,
        },
        SaveMenuEvent::Rename => match v.1 {
            Some(f) => match rename_target_spec(v.2, f) {
                Some(t) => Some((f, Some(t))),
                None => None,
            },
            None => None,
        },
        _ => None,
    }
}

/// Whether an event restarts the new-save dialog: opening it, or its
/// closing.
pub open spec fn restarts_new_save(e: SaveMenuEvent) -> bool {
    e is CreateNewSave || e is NewSaveClosed
}

/// Applies one event to the save menu and says what the game is to do on
/// disk.
pub fn save_menu_step(state: &mut SaveMenuState, event: SaveMenuEvent) -> (r: SaveMenuAction)
    ensures
        menu_view(*final(state)) == menu_after(menu_view(*old(state)), event),
        action_view(r) == action_after(menu_view(*old(state)), event),
        restarts_new_save(event) ==> is_fresh(final(state).new_save_state)
            && !final(state).new_save_state.show_new_save,
        !restarts_new_save(event) ==> final(state).new_save_state == old(state).new_save_state,
{
    match event {
        SaveMenuEvent::ConfirmDelete => {
            let target = state.delete_target.take();
            state.confirm_delete = false;
            state.editing_save = None;
            state.invalidate_cache();
            match target {
                Some(f) => SaveMenuAction::DeleteFolder(f),
                None => SaveMenuAction::Nothing,
            }
        },
        SaveMenuEvent::CancelDelete => {
            state.confirm_delete = false;
            state.delete_target = None;
            SaveMenuAction::Nothing
        },
        SaveMenuEvent::NewSaveClosed => {
            state.in_new_save_menu = false;
            state.new_save_state.reset();
            state.invalidate_cache();
            SaveMenuAction::Nothing
        },
        SaveMenuEvent::Rename => {
            match &state.editing_save {
                Some(folder) => match rename_target(state.edit_save_name.as_str(), folder.as_str()) {
                    Some(to) => SaveMenuAction::RenameFolder { from: folder.clone(), to },
                    None => SaveMenuAction::Nothing,
                },
                None => SaveMenuAction::Nothing,
            }
        },
        SaveMenuEvent::Renamed { new_folder } => {
            state.editing_save = Some(new_folder);
            state.invalidate_cache();
            SaveMenuAction::Nothing
        },
        SaveMenuEvent::RequestDelete => {
            match &state.editing_save {
                Some(folder) => {
                    let f = folder.clone();
                    state.confirm_delete = true;
                    state.delete_target = Some(f);
                },
                None => {},
            }
            SaveMenuAction::Nothing
        },
        SaveMenuEvent::EditDone => {
            state.editing_save = None;
            SaveMenuAction::Nothing
        },
        SaveMenuEvent::CreateNewSave => {
            state.in_new_save_menu = true;
            state.new_save_state.reset();
            SaveMenuAction::Nothing
        },
        SaveMenuEvent::Edit { folder_name, save_name } => {
            state.editing_save = Some(folder_name);
            state.edit_save_name = save_name;
            SaveMenuAction::Nothing
        },
        SaveMenuEvent::Back => {
            state.in_new_save_menu = false;
            state.editing_save = None;
            state.confirm_delete = false;
            state.delete_target = None;
            state.back_requested = true;
            SaveMenuAction::Nothing
        },
        SaveMenuEvent::ListingLoaded => {
            state.cache_loaded = true;
            SaveMenuAction::Nothing
        },
    }
}


/// Every event that changes the save folders on disk (a confirmed delete,
/// the new-save dialog closing, a completed rename) marks the listing as not
/// loaded, so the shown list is read again; the other events that touch no
/// folder keep the listing as it was, bar the report that it was read.
pub proof fn lemma_disk_changes_reload_listing(
    v: (bool, Option<Seq<char>>, Seq<char>, bool, Option<Seq<char>>, bool, bool),
    e: SaveMenuEvent,
)
    ensures
        (e is ConfirmDelete || e is NewSaveClosed || e is Renamed) ==> !menu_after(v, e).6,
        (e is CancelDelete || e is Rename || e is RequestDelete || e is EditDone || e is CreateNewSave
            || e is Edit || e is Back) ==> menu_after(v, e).6 == v.6,
        e is ListingLoaded ==> menu_after(v, e).6,
{
}

/// A confirmed delete asks the game to remove exactly the folder whose
/// delete was requested, and afterwards no delete is pending and no save is
/// being edited.
pub proof fn lemma_confirmed_delete(
    v: (bool, Option<Seq<char>>, Seq<char>, bool, Option<Seq<char>>, bool, bool),
)
    ensures
        action_after(v, SaveMenuEvent::ConfirmDelete) == match v.4 {
            Some(f) => Some((f, None::<Seq<char>>)),
            None => None,
        },
        !menu_after(v, SaveMenuEvent::ConfirmDelete).3,
        menu_after(v, SaveMenuEvent::ConfirmDelete).4 is None,
        menu_after(v, SaveMenuEvent::ConfirmDelete).1 is None,
{
}


/// Back leaves the save menu: it asks to be left and closes the new-save
/// dialog, the edit window and any pending delete; Edit opens the edit
/// window on the chosen save with its shown name; Cancel drops the pending
/// delete and keeps the edit window.
pub proof fn lemma_menu_windows(
    v: (bool, Option<Seq<char>>, Seq<char>, bool, Option<Seq<char>>, bool, bool),
    folder_name: String,
    save_name: String,
)
    ensures
        ({
            let b = menu_after(v, SaveMenuEvent::Back);
            b.5 && !b.0 && b.1 is None && !b.3 && b.4 is None
        }),
        ({
            let e = menu_after(v, SaveMenuEvent::Edit { folder_name, save_name });
            e.1 == Some(folder_name@) && e.2 == save_name@
        }),
        ({
            let c = menu_after(v, SaveMenuEvent::CancelDelete);
            !c.3 && c.4 is None && c.1 == v.1
        }),
{
}

} // verus!
