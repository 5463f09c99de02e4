//! The in-game commands a key can be bound to.
use vstd::prelude::*;

verus! {

/// A command the player can bind to a key.
#[derive(Debug, Clone, Copy, PartialEq, Eq, Structural)]
pub enum GameCommand {
    Skills,
    Inventory,
    Stats,
}

/// A key of `egui`'s keyboard; the library carries it through unread.
#[verifier::external_type_specification]
#[verifier::external_body]
pub struct ExKey(egui::Key);

/// Which key triggers each command.
#[derive(Debug)]
pub struct KeyBindings {
    pub skills: egui::Key,
    pub inventory: egui::Key,
    pub stats: egui::Key,
}

impl KeyBindings {
    /// Bindings with the given key for each command.
    pub fn new(skills: egui::Key, inventory: egui::Key, stats: egui::Key) -> (r: Self)
        ensures
            r.skills == skills,
            r.inventory == inventory,
            r.stats == stats,
    {
        KeyBindings { skills, inventory, stats }
    }

    /// The key bound to a command.
    pub fn key_for(&self, command: GameCommand) -> (r: egui::Key)
        ensures
            r == self.key_for_spec(command),
    {
        match command {
            GameCommand::Skills => self.skills,
            GameCommand::Inventory => self.inventory,
            GameCommand::Stats => self.stats,
        }
    }

    /// Binds a command to a key; the other commands keep their keys.
    pub fn set_key(&mut self, command: GameCommand, key: egui::Key)
        ensures
            final(self).key_for_spec(command) == key,
            forall|other: GameCommand| other != command ==> final(self).key_for_spec(other) == old(self).key_for_spec(other),
    {
        match command {
            GameCommand::Skills => self.skills = key,
            GameCommand::Inventory => self.inventory = key,
            GameCommand::Stats => self.stats = key,
        }
    }

    /// The key bound to a command.
    pub open spec fn key_for_spec(&self, command: GameCommand) -> egui::Key {
        match command {
            GameCommand::Skills => self.skills,
            GameCommand::Inventory => self.inventory,
            GameCommand::Stats => self.stats,
        }
    }
}

} // verus!
