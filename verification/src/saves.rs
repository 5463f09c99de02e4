//! The save listing: how a save folder is named and shown, and when its
//! creation time is displayed.
use vstd::prelude::*;
use crate::console::{opt_view, SaveFiles, SaveInspection, SaveListEntry};
use crate::json::{json_error_text, json_is_valid, json_string_at, json_string_field, json_syntax_error};
use crate::sorting::{sort_by_text_key, sorted_by_key, TextKeyed};
use crate::text::{
    chars_of, owned, push_text, replace_char, replace_char_spec, string_of, text_eq, trim_chars,
    trim_spec,
};

verus! {

broadcast use vstd::string::group_string_axioms;

impl TextKeyed for SaveListEntry {
    open spec fn key_of(&self) -> Seq<char> {
        self.folder_name@
    }

    fn text_key(&self) -> (r: &str) {
        self.folder_name.as_str()
    }
}

impl TextKeyed for (String, i8) {
    open spec fn key_of(&self) -> Seq<char> {
        self.0@
    }

    fn text_key(&self) -> (r: &str) {
        self.0.as_str()
    }
}

/// Whether the text is an RFC 3339 date and time
/// (`chrono::DateTime::parse_from_rfc3339` succeeds on it).
pub uninterp spec fn rfc3339_parses(text: Seq<char>) -> bool;

/// The date and time an RFC 3339 text holds, at its own offset, written
/// `YYYY-MM-DD HH:MM`: its first ten characters (the date), a space, and
/// its characters 11 to 15 (hour and minute).
pub open spec fn minute_stamp(text: Seq<char>) -> Seq<char> {
    text.subrange(0, 10) + " "@ + text.subrange(11, 16)
}

/// `chrono::DateTime::parse_from_rfc3339`, with the parsed moment rendered
/// by `format(pattern)` for the pattern `%Y-%m-%d %H:%M`: some text exactly
/// when the input parses, and then the input's date, a space, and its hour
/// and minute (the parser reads a four-digit year, two-digit month and day,
/// a separator and a two-digit hour and minute at fixed places, and `%Y`
/// writes a year below 10000 with four digits).
#[verifier::external_body]
fn rfc3339_formatted(text: &str, pattern: &str) -> (r: Option<String>)
    requires
        pattern@ == "%Y-%m-%d %H:%M"@,
    ensures
        r is Some <==> rfc3339_parses(text@),
        r matches Some(s) ==> s@ == minute_stamp(text@),
{
    match chrono::DateTime::parse_from_rfc3339(text) {
        Ok(moment) => Some(moment.format(pattern).to_string()),
        Err(_) => None,
    }
}

/// The creation line shown for a save whose `created_at` field holds the
/// text: `Created: ` and the minute stamp, or nothing when the text is not
/// an RFC 3339 date and time.
pub open spec fn created_line(text: Seq<char>) -> Option<Seq<char>> {
    if rfc3339_parses(text) {
        Some("Created: "@ + minute_stamp(text))
    } else {
        None
    }
}

/// The creation line shown for a save's `created_at` text.
pub fn format_created_at(value: &str) -> (r: Option<String>)
    ensures
        match created_line(value@) {
            Some(line) => r is Some && r->0@ == line,
            None => r is None,
        },
{
    match rfc3339_formatted(value, "%Y-%m-%d %H:%M") {
        Some(stamp) => {
            let mut line = owned("Created: ");
            push_text(&mut line, stamp.as_str());
            Some(line)
        },
        None => None,
    }
}

/// The name a save folder is shown under: each `_` turned into a space.
pub open spec fn shown_name(folder_name: Seq<char>) -> Seq<char> {
    replace_char_spec(folder_name, '_', ' ')
}

/// The listing entry for a save folder, from what its `save.json` holds:
/// the difficulty text, and the `created_at` text, shown as a creation line
/// when it is an RFC 3339 date and time.
pub fn save_list_entry(folder_name: String, difficulty: Option<String>, created_at: Option<&str>) -> (r: SaveListEntry)
    ensures
        r.folder_name@ == folder_name@,
        r.save_name@ == shown_name(folder_name@),
        r.difficulty == difficulty,
        match created_at {
            None => r.created_at is None,
            Some(text) => match created_line(text@) {
                Some(line) => r.created_at is Some && r.created_at->0@ == line,
                None => r.created_at is None,
            },
        },
{
    let save_name = replace_char(folder_name.as_str(), '_', ' ');
    let created = match created_at {
        Some(text) => format_created_at(text),
        None => None,
    };
    SaveListEntry { folder_name, save_name, difficulty, created_at: created }
}

/// The view of an optional text.
pub open spec fn str_opt_view(o: Option<&str>) -> Option<Seq<char>> {
    match o {
        Some(t) => Some(t@),
        None => None,
    }
}

/// The string a save's `save.json` text holds under `key`; none when no
/// `save.json` could be read.
pub open spec fn save_field(save_json: Option<Seq<char>>, key: Seq<char>) -> Option<Seq<char>> {
    match save_json {
        Some(t) => json_string_at(t, key),
        None => None,
    }
}

/// Whether `e` is the listing entry of the folder `folder_name` whose
/// `save.json` text is `save_json`: the folder shown with spaces, the stored
/// difficulty, and the creation line of the stored `created_at` text.
pub open spec fn listed_entry_ok(e: SaveListEntry, folder_name: Seq<char>, save_json: Option<Seq<char>>) -> bool {
    &&& e.folder_name@ == folder_name
    &&& e.save_name@ == shown_name(folder_name)
    &&& opt_view(e.difficulty) == save_field(save_json, "difficulty"@)
    &&& opt_view(e.created_at) == match save_field(save_json, "created_at"@) {
        Some(t) => created_line(t),
        None => None,
    }
}

/// The listing entry of a save folder, read from the text of its
/// `save.json` when one could be read.
pub fn save_list_entry_from_json(folder_name: String, save_json: Option<&str>) -> (r: SaveListEntry)
    ensures
        listed_entry_ok(r, folder_name@, str_opt_view(save_json)),
{
    let (difficulty, created) = match save_json {
        Some(text) => (json_string_field(text, "difficulty"), json_string_field(text, "created_at")),
        None => (None, None),
    };
    let created_text: Option<&str> = match &created {
        Some(c) => Some(c.as_str()),
        None => None,
    };
    save_list_entry(folder_name, difficulty, created_text)
}

/// Whether `es` lists the save folders `fs`: one entry per folder, built
/// from the folder's name and `save.json` text, sorted by folder name.
pub open spec fn lists_folders(fs: Seq<(String, Option<String>)>, es: Seq<SaveListEntry>) -> bool {
    &&& sorted_by_key(es)
    &&& exists|built: Seq<SaveListEntry>|
        built.len() == fs.len() && es.to_multiset() == built.to_multiset() && (forall|i: int|
            0 <= i < built.len() ==> listed_entry_ok(#[trigger] built[i], fs[i].0@, opt_view(fs[i].1)))
}

/// The entries of the save folders found on disk, each given with the text
/// of its `save.json` when that could be read, sorted by folder name.
pub fn save_list_from_folders(folders: &Vec<(String, Option<String>)>) -> (r: Vec<SaveListEntry>)
    ensures
        lists_folders(folders@, r@),
{
    let mut built: Vec<SaveListEntry> = Vec::new();
    let mut i: usize = 0;
    while i < folders.len()
        invariant
            i <= folders.len(),
            built.len() == i,
            forall|j: int|
                0 <= j < i ==> listed_entry_ok(#[trigger] built@[j], folders@[j].0@, opt_view(folders@[j].1)),
        decreases folders.len() - i,
    {
        let name = owned(folders[i].0.as_str());
        let text: Option<&str> = match &folders[i].1 {
            Some(t) => Some(t.as_str()),
            None => None,
        };
        let entry = save_list_entry_from_json(name, text);
        built.push(entry);
        i += 1;
    }
    let ghost b = built@;
    let r = sort_by_text_key(built);
    assert(b.len() == folders.len() && r@.to_multiset() == b.to_multiset());
    r
}

/// The message for a `save.json` text that is not JSON, naming the file's
/// path: none when the text parses.
pub fn save_json_problem(path: &str, text: &str) -> (r: Option<String>)
    ensures
        r is None <==> json_is_valid(text@),
        r matches Some(m) ==> m@ == "Failed to parse '"@ + path@ + "': "@ + json_error_text(text@),
{
    match json_syntax_error(text) {
        None => None,
        Some(error) => {
            let mut message = owned("Failed to parse '");
            push_text(&mut message, path);
            push_text(&mut message, "': ");
            push_text(&mut message, error.as_str());
            Some(message)
        },
    }
}

/// The name `save.inspect` shows for a save: the one its `save.json` text
/// stores, else the folder name shown with spaces.
pub open spec fn inspected_name_spec(save_json: Seq<char>, folder_name: Seq<char>) -> Seq<char> {
    match json_string_at(save_json, "save_name"@) {
        Some(n) => n,
        None => shown_name(folder_name),
    }
}

/// The summary `save.inspect` shows, from the save's folder, the text of its
/// `save.json` and its player's floor, level and coins.
pub fn inspection_from_files(files: SaveFiles) -> (r: SaveInspection)
    ensures
        r.folder_name@ == files.folder_name@,
        r.save_name@ == inspected_name_spec(files.save_json@, files.folder_name@),
        opt_view(r.difficulty) == json_string_at(files.save_json@, "difficulty"@),
        r.current_floor == files.current_floor,
        r.level == files.level,
        r.coins == files.coins,
{
    let stored = json_string_field(files.save_json.as_str(), "save_name");
    let difficulty = json_string_field(files.save_json.as_str(), "difficulty");
    let save_name = inspected_save_name(stored, files.folder_name.as_str());
    SaveInspection {
        folder_name: files.folder_name,
        save_name,
        difficulty,
        current_floor: files.current_floor,
        level: files.level,
        coins: files.coins,
    }
}

/// The name `save.inspect` shows: the one the save stores, else the folder
/// name shown with spaces.
pub fn inspected_save_name(stored: Option<String>, folder_name: &str) -> (r: String)
    ensures
        match stored {
            Some(s) => r@ == s@,
            None => r@ == shown_name(folder_name@),
        },
{
    match stored {
        Some(s) => s,
        None => replace_char(folder_name, '_', ' '),
    }
}

/// The folders a requested save name may be stored under, in the order they
/// are tried: the name as given, then with each space turned into `_`.
pub fn folder_candidates(requested: &str) -> (r: (String, String))
    ensures
        r.0@ == requested@,
        r.1@ == replace_char_spec(requested@, ' ', '_'),
{
    (owned(requested), replace_char(requested, ' ', '_'))
}

/// The folder an edited save name renames a save to: the name trimmed, each
/// space turned into `_`; none when that is empty or the save's own folder.
pub open spec fn rename_target_spec(edit_name: Seq<char>, folder_name: Seq<char>) -> Option<Seq<char>> {
    let target = replace_char_spec(trim_spec(edit_name), ' ', '_');
    if target.len() == 0 || target == folder_name {
        None
    } else {
        Some(target)
    }
}

/// The folder an edited save name renames the save in `folder_name` to.
pub fn rename_target(edit_name: &str, folder_name: &str) -> (r: Option<String>)
    ensures
        match rename_target_spec(edit_name@, folder_name@) {
            Some(t) => r is Some && r->0@ == t,
            None => r is None,
        },
{
    let trimmed = string_of(&trim_chars(&chars_of(edit_name)));
    let target = replace_char(trimmed.as_str(), ' ', '_');
    if target.unicode_len() == 0 || text_eq(target.as_str(), folder_name) {
        None
    } else {
        Some(target)
    }
}

} // verus!
