//! The rules of a dungeon-crawler game: its developer console, inventory,
//! saves and settings, the generated labyrinth, and the screens' decisions,
//! each with a contract proved by Verus.
pub mod console;
pub mod grid;
pub mod input;
pub mod inventory;
pub mod items;
pub mod json;
pub mod logger;
pub mod new_save;
pub mod player;
pub mod preview;
pub mod random;
pub mod save_menu;
pub mod saves;
pub mod settings;
pub mod skills;
pub mod sorting;
pub mod terrain;
pub mod terrain3d;
pub mod text;
pub mod ui;
pub mod version_checker;
pub mod world;
