//! The states and answers of the in-game screens.
use vstd::prelude::*;
use crate::input::{GameCommand, KeyBindings};

verus! {

/// What the game view asks of the main loop after a frame.
#[derive(Debug, Clone, Copy, PartialEq, Eq, Structural)]
pub enum GameViewAction {
    /// Keep showing the game.
    Continue,
    ExitToMenu,
}

/// The panel shown over the game view.
#[derive(Debug, Clone, Copy, PartialEq, Eq, Structural)]
pub enum GamePanel {
    /// No panel is open.
    Closed,
    Skills,
    Inventory,
    Stats,
    Keybinds,
}

/// The button chosen in the pause menu this frame.
#[derive(Debug, Clone, Copy, PartialEq, Eq, Structural)]
pub enum PauseMenuAction {
    /// No button was chosen.
    Idle,
    Resume,
    OpenKeybinds,
    OpenSkills,
    OpenInventory,
    ExitToMenu,
}

/// The screen the main menu shows.
#[derive(Debug, Clone, Copy, PartialEq, Eq, Structural)]
pub enum MenuState {
    /// The buttons for saves, settings and quitting.
    Main,
    Settings,
    Saves,
    /// A loaded world.
    Game,
}

/// Which statistics show an upgrade button.
#[derive(Debug, Clone, Copy, PartialEq, Eq, Structural)]
pub struct StatUpgradeVisibility {
    pub strength: bool,
    pub intelligence: bool,
    pub dexterity: bool,
    pub charisma: bool,
    pub constitution: bool,
}

impl Default for StatUpgradeVisibility {
    /// No upgrade buttons.
    fn default() -> (r: Self)
        ensures
            !r.strength && !r.intelligence && !r.dexterity && !r.charisma && !r.constitution,
    {
        StatUpgradeVisibility {
            strength: false,
            intelligence: false,
            dexterity: false,
            charisma: false,
            constitution: false,
        }
    }
}

/// The key-binding screen: the command waiting for its new key, if any.
pub struct KeybindsUiState {
    waiting_for_key: Option<GameCommand>,
}

impl KeybindsUiState {
    /// The command waiting for its new key.
    pub closed spec fn waiting(&self) -> Option<GameCommand> {
        self.waiting_for_key
    }

    /// The command waiting for its new key.
    pub fn waiting_for_key(&self) -> (r: Option<GameCommand>)
        ensures
            r == self.waiting(),
    {
        self.waiting_for_key
    }

    /// Waits for a new key for the command, replacing any earlier wait.
    pub fn begin_capture(&mut self, command: GameCommand)
        ensures
            final(self).waiting() == Some(command),
    {
        self.waiting_for_key = Some(command);
    }

    /// Stops waiting for a key.
    pub fn clear_capture(&mut self)
        ensures
            final(self).waiting() == None::<GameCommand>,
    {
        self.waiting_for_key = None;
    }
}

/// Applies the key pressed this frame to the key-binding screen: when a
/// command is waiting for its key and a key was pressed, the command is
/// bound to it and the wait ends; otherwise nothing changes.
pub fn apply_captured_key(bindings: &mut KeyBindings, state: &mut KeybindsUiState, pressed: Option<egui::Key>)
    ensures
        match (old(state).waiting(), pressed) {
            (Some(command), Some(key)) => {
                &&& final(bindings).key_for_spec(command) == key
                &&& forall|other: GameCommand| other != command ==> final(bindings).key_for_spec(other)
                    == old(bindings).key_for_spec(other)
                &&& final(state).waiting() is None
            },
            _ => {
                &&& forall|c: GameCommand| final(bindings).key_for_spec(c) == old(bindings).key_for_spec(c)
                &&& final(state).waiting() == old(state).waiting()
            },
        },
{
    match (state.waiting_for_key(), pressed) {
        (Some(command), Some(key)) => {
            bindings.set_key(command, key);
            state.clear_capture();
        },
        _ => {},
    }
}

impl Default for KeybindsUiState {
    /// Waiting for nothing.
    fn default() -> (r: Self)
        ensures
            r.waiting() == None::<GameCommand>,
    {
        KeybindsUiState { waiting_for_key: None }
    }
}

/// What happened in the main menu this frame.
#[derive(Debug, Clone, Copy, PartialEq, Eq, Structural)]
pub enum MenuEvent {
    /// The Saves button of the main screen.
    OpenSaves,
    /// The Settings button of the main screen.
    OpenSettings,
    /// The Quit button of the main screen.
    AskQuit,
    /// Yes in the quit dialog.
    ConfirmQuit,
    /// No in the quit dialog.
    CancelQuit,
    /// The settings screen asked for its settings to be saved.
    SaveSettings,
    /// The Back button of the settings or saves screen, or the Menu button
    /// over a running game.
    Back,
    /// The Escape key.
    Escape,
    /// The saves screen loaded a save and asks to enter it.
    EnterGame,
    /// The running game has no loaded save any more.
    GameLost,
}

/// The main menu after an event: its screen, whether the quit dialog is
/// open, whether the game should quit, and whether the settings should be
/// written to disk.
#[derive(Debug, Clone, Copy, PartialEq, Eq, Structural)]
pub struct MenuStep {
    pub state: MenuState,
    pub quit_confirm: bool,
    pub quit: bool,
    pub save_settings: bool,
}

/// The main menu's answer to an event. The quit dialog answers only while
/// it is open, and each screen answers only to its own controls and to
/// Escape; anything else leaves the menu as it is.
pub open spec fn menu_step_spec(state: MenuState, quit_confirm: bool, event: MenuEvent) -> MenuStep {
    let stay = MenuStep { state, quit_confirm, quit: false, save_settings: false };
    let go = |s: MenuState| MenuStep { state: s, quit_confirm, quit: false, save_settings: false };
    match event {
        MenuEvent::ConfirmQuit => if quit_confirm && state != MenuState::Game {
            MenuStep { state, quit_confirm: false, quit: true, save_settings: false }
        } else {
            stay
        },
        MenuEvent::CancelQuit => if quit_confirm && state != MenuState::Game {
            MenuStep { state, quit_confirm: false, quit: false, save_settings: false }
        } else {
            stay
        },
        MenuEvent::OpenSaves => if state == MenuState::Main { go(MenuState::Saves) } else { stay },
        MenuEvent::OpenSettings => if state == MenuState::Main { go(MenuState::Settings) } else { stay },
        MenuEvent::AskQuit => if state == MenuState::Main {
            MenuStep { state, quit_confirm: true, quit: false, save_settings: false }
        } else {
            stay
        },
        MenuEvent::SaveSettings => if state == MenuState::Settings {
            MenuStep { state: MenuState::Main, quit_confirm, quit: false, save_settings: true }
        } else {
            stay
        },
        MenuEvent::Back | MenuEvent::Escape => if state != MenuState::Main { go(MenuState::Main) } else { stay },
        MenuEvent::EnterGame => if state == MenuState::Saves { go(MenuState::Game) } else { stay },
        MenuEvent::GameLost => if state == MenuState::Game { go(MenuState::Main) } else { stay },
    }
}

/// The main menu's answer to an event.
pub fn menu_step(state: MenuState, quit_confirm: bool, event: MenuEvent) -> (r: MenuStep)
    ensures
        r == menu_step_spec(state, quit_confirm, event),
{
    let stay = MenuStep { state, quit_confirm, quit: false, save_settings: false };
    match event {
        MenuEvent::ConfirmQuit => if quit_confirm && state != MenuState::Game {
            MenuStep { state, quit_confirm: false, quit: true, save_settings: false }
        } else {
            stay
        },
        MenuEvent::CancelQuit => if quit_confirm && state != MenuState::Game {
            MenuStep { state, quit_confirm: false, quit: false, save_settings: false }
        } else {
            stay
        },
        MenuEvent::OpenSaves => if state == MenuState::Main {
            MenuStep { state: MenuState::Saves, quit_confirm, quit: false, save_settings: false }
        } else {
            stay
        },
        MenuEvent::OpenSettings => if state == MenuState::Main {
            MenuStep { state: MenuState::Settings, quit_confirm, quit: false, save_settings: false }
        } else {
            stay
        },
        MenuEvent::AskQuit => if state == MenuState::Main {
            MenuStep { state, quit_confirm: true, quit: false, save_settings: false }
        } else {
            stay
        },
        MenuEvent::SaveSettings => if state == MenuState::Settings {
            MenuStep { state: MenuState::Main, quit_confirm, quit: false, save_settings: true }
        } else {
            stay
        },
        MenuEvent::Back | MenuEvent::Escape => if state != MenuState::Main {
            MenuStep { state: MenuState::Main, quit_confirm, quit: false, save_settings: false }
        } else {
            stay
        },
        MenuEvent::EnterGame => if state == MenuState::Saves {
            MenuStep { state: MenuState::Game, quit_confirm, quit: false, save_settings: false }
        } else {
            stay
        },
        MenuEvent::GameLost => if state == MenuState::Game {
            MenuStep { state: MenuState::Main, quit_confirm, quit: false, save_settings: false }
        } else {
            stay
        },
    }
}

/// Escape always leads back to the main screen, and only the quit dialog's
/// Yes makes the game quit.
pub proof fn lemma_menu_escape_and_quit(state: MenuState, quit_confirm: bool, event: MenuEvent)
    ensures
        menu_step_spec(state, quit_confirm, MenuEvent::Escape).state == MenuState::Main,
        menu_step_spec(state, quit_confirm, event).quit ==> event == MenuEvent::ConfirmQuit && quit_confirm,
{
}

/// The panel state of the game view: which panel is open and the key-binding
/// screen's capture.
pub struct GamePanels {
    pub active_panel: GamePanel,
    pub keybinds: KeybindsUiState,
}

/// What the game view does with the pause menu's choice, besides its panels:
/// whether the world resumes, and what the main loop is asked.
#[derive(Debug, Clone, Copy, PartialEq, Eq, Structural)]
pub struct PauseOutcome {
    pub resume: bool,
    pub action: GameViewAction,
}

impl GamePanels {
    /// No panel open, no capture.
    pub fn new() -> (r: Self)
        ensures
            r.active_panel == GamePanel::Closed,
            r.keybinds.waiting() is None,
    {
        GamePanels { active_panel: GamePanel::Closed, keybinds: KeybindsUiState::default() }
    }

    /// Shows a panel; a capture in progress goes on.
    pub fn open_panel(&mut self, panel: GamePanel)
        ensures
            final(self).active_panel == panel,
            final(self).keybinds.waiting() == old(self).keybinds.waiting(),
    {
        self.active_panel = panel;
    }

    /// Closes the open panel and ends any capture.
    pub fn close_panel(&mut self)
        ensures
            final(self).active_panel == GamePanel::Closed,
            final(self).keybinds.waiting() is None,
    {
        self.active_panel = GamePanel::Closed;
        self.keybinds.clear_capture();
    }

    /// Acts on the pause menu's choice: Resume resumes the world, the Open
    /// buttons show their panel, Exit to Menu closes the panel and asks to
    /// leave the game; no choice changes nothing.
    pub fn apply_pause_action(&mut self, choice: PauseMenuAction) -> (r: PauseOutcome)
        ensures
            r.resume == (choice == PauseMenuAction::Resume),
            r.action == (if choice == PauseMenuAction::ExitToMenu {
                GameViewAction::ExitToMenu
            } else {
                GameViewAction::Continue
            }),
            final(self).active_panel == match choice {
                PauseMenuAction::OpenKeybinds => GamePanel::Keybinds,
                PauseMenuAction::OpenSkills => GamePanel::Skills,
                PauseMenuAction::OpenInventory => GamePanel::Inventory,
                PauseMenuAction::ExitToMenu => GamePanel::Closed,
                _ => old(self).active_panel,
            },
            final(self).keybinds.waiting() == if choice == PauseMenuAction::ExitToMenu {
                None
            } else {
                old(self).keybinds.waiting()
            },
    {
        match choice {
            PauseMenuAction::Idle => PauseOutcome { resume: false, action: GameViewAction::Continue },
            PauseMenuAction::Resume => PauseOutcome { resume: true, action: GameViewAction::Continue },
            PauseMenuAction::OpenKeybinds => {
                self.open_panel(GamePanel::Keybinds);
                PauseOutcome { resume: false, action: GameViewAction::Continue }
            },
            PauseMenuAction::OpenSkills => {
                self.open_panel(GamePanel::Skills);
                PauseOutcome { resume: false, action: GameViewAction::Continue }
            },
            PauseMenuAction::OpenInventory => {
                self.open_panel(GamePanel::Inventory);
                PauseOutcome { resume: false, action: GameViewAction::Continue }
            },
            PauseMenuAction::ExitToMenu => {
                self.close_panel();
                PauseOutcome { resume: false, action: GameViewAction::ExitToMenu }
            },
        }
    }
}


/// Back, on any screen but the main menu, leads to the main menu (as
/// Escape does), without quitting, without writing the settings, and
/// keeping the quit dialog as it was.
pub proof fn lemma_back_returns_to_main(state: MenuState, quit_confirm: bool)
    requires
        state != MenuState::Main,
    ensures
        menu_step_spec(state, quit_confirm, MenuEvent::Back) == (MenuStep {
            state: MenuState::Main,
            quit_confirm,
            quit: false,
            save_settings: false,
        }),
        menu_step_spec(state, quit_confirm, MenuEvent::Back) == menu_step_spec(state, quit_confirm, MenuEvent::Escape),
{
}


/// The settings are written only when they are saved from the settings
/// screen, which then returns to the main menu; from the main menu, the
/// saves and settings buttons open those screens; entering the game is
/// possible only from the saves screen, and losing it returns to the main
/// menu.
pub proof fn lemma_menu_moves(state: MenuState, quit_confirm: bool, event: MenuEvent)
    ensures
        menu_step_spec(state, quit_confirm, event).save_settings <==> (event == MenuEvent::SaveSettings
            && state == MenuState::Settings),
        menu_step_spec(state, quit_confirm, event).save_settings ==> menu_step_spec(state, quit_confirm, event).state
            == MenuState::Main,
        state == MenuState::Main ==> menu_step_spec(state, quit_confirm, MenuEvent::OpenSaves).state
            == MenuState::Saves,
        state == MenuState::Main ==> menu_step_spec(state, quit_confirm, MenuEvent::OpenSettings).state
            == MenuState::Settings,
        menu_step_spec(state, quit_confirm, event).state == MenuState::Game ==> state == MenuState::Game
            || (state == MenuState::Saves && event == MenuEvent::EnterGame),
        state == MenuState::Game ==> menu_step_spec(state, quit_confirm, MenuEvent::GameLost).state
            == MenuState::Main,
{
}

} // verus!
