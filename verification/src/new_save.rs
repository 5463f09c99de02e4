//! The new-save dialog's state and the rules a new save's name must meet.
use vstd::prelude::*;
use crate::random::roll_between;
use crate::text::{
    lemma_trim_is_infix, chars_of, owned, replace_char, replace_char_spec, string_of, trim_chars,
    trim_spec,
};

verus! {

/// The tabs of the new-save dialog.
#[derive(Clone, Copy, Debug, PartialEq, Eq, Structural)]
pub enum NewSaveTab {
    Basics,
    Gamerules,
}

/// How hard the new game is.
#[derive(Clone, Copy, Debug, PartialEq, Eq, Structural)]
pub enum Difficulty {
    Easy,
    Medium,
    Hard,
}

/// The name a difficulty is shown and stored under.
pub open spec fn difficulty_label(d: Difficulty) -> Seq<char> {
    match d {
        Difficulty::Easy => seq!['E', 'a', 's', 'y'],
        Difficulty::Medium => seq!['M', 'e', 'd', 'i', 'u', 'm'],
        Difficulty::Hard => seq!['H', 'a', 'r', 'd'],
    }
}

impl Difficulty {
    /// The difficulty's place in the order easy, medium, hard.
    pub fn rank(&self) -> (r: u8)
        ensures
            r == match *self {
                Difficulty::Easy => 0u8,
                Difficulty::Medium => 1u8,
                Difficulty::Hard => 2u8,
            },
    {
        match self {
            Difficulty::Easy => 0,
            Difficulty::Medium => 1,
            Difficulty::Hard => 2,
        }
    }

    /// The name the difficulty is shown and stored under.
    pub fn label(&self) -> (r: String)
        ensures
            r@ == difficulty_label(*self),
    {
        let s = match self {
            Difficulty::Easy => "Easy",
            Difficulty::Medium => "Medium",
            Difficulty::Hard => "Hard",
        };
        proof {
            reveal_strlit("Easy");
            reveal_strlit("Medium");
            reveal_strlit("Hard");
        }
        owned(s)
    }
}

/// What the new-save dialog holds between frames.
pub struct NewSaveState {
    pub show_new_save: bool,
    pub save_name: String,
    pub selected_difficulty: Difficulty,
    pub selected_tab: NewSaveTab,
    pub online_mode: bool,
    pub real_time: bool,
    pub error_message: String,
    pub success_message: String,
}

/// The dialog's fields as they are when it opens, `show_new_save` aside.
pub open spec fn is_fresh(s: NewSaveState) -> bool {
    &&& s.save_name@ == Seq::<char>::empty()
    &&& s.selected_difficulty == Difficulty::Medium
    &&& s.selected_tab == NewSaveTab::Basics
    &&& !s.online_mode
    &&& !s.real_time
    &&& s.error_message@ == Seq::<char>::empty()
    &&& s.success_message@ == Seq::<char>::empty()
}

impl Default for NewSaveState {
    /// A closed dialog with every field at its starting value.
    fn default() -> (r: Self)
        ensures
            is_fresh(r),
            !r.show_new_save,
    {
        NewSaveState {
            show_new_save: false,
            save_name: String::new(),
            selected_difficulty: Difficulty::Medium,
            selected_tab: NewSaveTab::Basics,
            online_mode: false,
            real_time: false,
            error_message: String::new(),
            success_message: String::new(),
        }
    }
}

impl NewSaveState {
    /// Puts every field back to its starting value, the dialog closed among
    /// them, so that the state equals a freshly made one.
    pub fn reset(&mut self)
        ensures
            is_fresh(*final(self)),
            !final(self).show_new_save,
    {
        self.show_new_save = false;
        self.save_name = String::new();
        self.selected_difficulty = Difficulty::Medium;
        self.selected_tab = NewSaveTab::Basics;
        self.online_mode = false;
        self.real_time = false;
        self.error_message = String::new();
        self.success_message = String::new();
    }
}

/// The characters a save's folder name may not hold.
pub open spec fn is_forbidden_char(c: char) -> bool {
    c == '/' || c == '\\' || c == ':' || c == '*' || c == '?' || c == '"' || c == '<' || c
        == '>' || c == '|'
}

/// Whether the name holds a character a save's folder name may not hold.
pub open spec fn has_forbidden_char(s: Seq<char>) -> bool {
    exists|i: int| 0 <= i < s.len() && is_forbidden_char(#[trigger] s[i])
}

/// Whether the name holds a character a save's folder name may not hold.
pub fn has_invalid_save_characters(folder_name: &str) -> (r: bool)
    ensures
        r == has_forbidden_char(folder_name@),
{
    let v = chars_of(folder_name);
    let mut i: usize = 0;
    while i < v.len()
        invariant
            v@ == folder_name@,
            i <= v.len(),
            forall|j: int| 0 <= j < i ==> !is_forbidden_char(#[trigger] v@[j]),
        decreases v.len() - i,
    {
        let c = v[i];
        if c == '/' || c == '\\' || c == ':' || c == '*' || c == '?' || c == '"' || c == '<' || c
            == '>' || c == '|' {
            return true;
        }
        i += 1;
    }
    false
}

/// A `..` path segment starts at `i`: two dots between separators or the
/// ends of the text.
pub open spec fn parent_segment_at(s: Seq<char>, i: int) -> bool {
    &&& 0 <= i
    &&& i + 2 <= s.len()
    &&& s[i] == '.'
    &&& s[i + 1] == '.'
    &&& (i == 0 || s[i - 1] == '/')
    &&& (i + 2 == s.len() || s[i + 2] == '/')
}

/// Whether every component of the path, read with `/` as the separator, is
/// an ordinary name: the path is not empty, is not absolute, does not start
/// with a `.` segment and has no `..` segment anywhere. (A `.` segment after
/// the first is dropped when a path is split into components.)
pub open spec fn is_plain_relative(s: Seq<char>) -> bool {
    &&& s.len() > 0
    &&& s[0] != '/'
    &&& !(s[0] == '.' && (s.len() == 1 || s[1] == '/'))
    &&& forall|i: int| !#[trigger] parent_segment_at(s, i)
}

/// Whether a folder name stays inside the folder it is joined to: every
/// path component of it is an ordinary name.
pub fn is_safe_folder_name(folder_name: &str) -> (r: bool)
    ensures
        r == is_plain_relative(folder_name@),
{
    let v = chars_of(folder_name);
    let n = v.len();
    if n == 0 {
        return false;
    }
    if v[0] == '/' {
        return false;
    }
    if v[0] == '.' && (n == 1 || v[1] == '/') {
        return false;
    }
    let mut i: usize = 0;
    while i < n
        invariant
            v@ == folder_name@,
            n == v@.len(),
            i <= n,
            forall|j: int| 0 <= j < i ==> !#[trigger] parent_segment_at(v@, j),
        decreases n - i,
    {
        if n - i >= 2 && v[i] == '.' && v[i + 1] == '.' && (i == 0 || v[i - 1] == '/') && (i + 2
            == n || v[i + 2] == '/') {
            assert(parent_segment_at(v@, i as int));
            return false;
        }
        i += 1;
    }
    assert forall|j: int| !#[trigger] parent_segment_at(v@, j) by {
        if 0 <= j < n {
        }
    }
    true
}

/// The folder a save name is stored under: the name without surrounding
/// whitespace, each space turned into `_`.
pub open spec fn folder_name_spec(save_name: Seq<char>) -> Seq<char> {
    replace_char_spec(trim_spec(save_name), ' ', '_')
}

/// Why a save name is refused.
#[derive(Clone, Copy, Debug, PartialEq, Eq, Structural)]
pub enum SaveNameError {
    Empty,
    InvalidCharacters,
    RelativePath,
}

/// The message shown for a refused save name.
pub open spec fn save_name_error_text(e: SaveNameError) -> Seq<char> {
    match e {
        SaveNameError::Empty => "Save name cannot be empty"@,
        SaveNameError::InvalidCharacters => "Save name contains invalid characters"@,
        SaveNameError::RelativePath => "Save name must not reference relative paths"@,
    }
}

impl SaveNameError {
    /// The message shown for this refusal.
    pub fn message(&self) -> (r: String)
        ensures
            r@ == save_name_error_text(*self),
    {
        match self {
            SaveNameError::Empty => owned("Save name cannot be empty"),
            SaveNameError::InvalidCharacters => owned("Save name contains invalid characters"),
            SaveNameError::RelativePath => owned("Save name must not reference relative paths"),
        }
    }
}

/// The verdict on a save name: its folder, or the first rule it breaks.
pub open spec fn save_name_verdict(save_name: Seq<char>) -> Result<Seq<char>, SaveNameError> {
    let folder = folder_name_spec(save_name);
    if trim_spec(save_name).len() == 0 {
        Err(SaveNameError::Empty)
    } else if has_forbidden_char(folder) {
        Err(SaveNameError::InvalidCharacters)
    } else if !is_plain_relative(folder) {
        Err(SaveNameError::RelativePath)
    } else {
        Ok(folder)
    }
}

/// Checks a new save's name and gives the folder it is stored under.
pub fn validate_save_name(save_name: &str) -> (r: Result<String, SaveNameError>)
    ensures
        match save_name_verdict(save_name@) {
            Ok(folder) => r is Ok && r->Ok_0@ == folder,
            Err(e) => r == Err::<String, SaveNameError>(e),
        },
{
    let trimmed = string_of(&trim_chars(&chars_of(save_name)));
    if trimmed.unicode_len() == 0 {
        return Err(SaveNameError::Empty);
    }
    let folder = replace_char(trimmed.as_str(), ' ', '_');
    if has_invalid_save_characters(folder.as_str()) {
        return Err(SaveNameError::InvalidCharacters);
    }
    if !is_safe_folder_name(folder.as_str()) {
        return Err(SaveNameError::RelativePath);
    }
    Ok(folder)
}

/// An accepted save name is stored under a folder that is a single plain
/// name inside the saves folder: not empty, no separator or other forbidden
/// character, no `.` or `..` component, and no space.
pub proof fn lemma_accepted_folder_is_contained(save_name: Seq<char>)
    requires
        save_name_verdict(save_name) is Ok,
    ensures
        ({
            let folder = save_name_verdict(save_name)->Ok_0;
            &&& folder.len() > 0
            &&& !has_forbidden_char(folder)
            &&& is_plain_relative(folder)
            &&& forall|i: int| 0 <= i < folder.len() ==> folder[i] != ' '
        }),
{
    let folder = folder_name_spec(save_name);
    assert forall|i: int| 0 <= i < folder.len() implies folder[i] != ' ' by {
        assert(folder[i] == (if trim_spec(save_name)[i] == ' ' { '_' } else { trim_spec(save_name)[i] }));
    }
}

/// A character a plain save name is made of: an ASCII letter or digit, `_`
/// or a space.
pub open spec fn is_plain_name_char(c: char) -> bool {
    ('a' <= c <= 'z') || ('A' <= c <= 'Z') || ('0' <= c <= '9') || c == '_' || c == ' '
}

/// A save name that is not blank and is made only of letters, digits, `_`
/// and spaces is accepted; its folder has as many characters as the name
/// without its surrounding spaces.
pub proof fn lemma_plain_names_accepted(save_name: Seq<char>)
    requires
        trim_spec(save_name).len() > 0,
        forall|i: int| 0 <= i < save_name.len() ==> is_plain_name_char(#[trigger] save_name[i]),
    ensures
        save_name_verdict(save_name) is Ok,
        folder_name_spec(save_name).len() == trim_spec(save_name).len(),
{
    let t = trim_spec(save_name);
    lemma_trim_is_infix(save_name);
    let folder = folder_name_spec(save_name);
    assert forall|i: int| 0 <= i < folder.len() implies is_plain_name_char(#[trigger] folder[i]) && folder[i] != '.' && folder[i] != '/' by {
        let k = choose|k: int| 0 <= k && k + t.len() <= save_name.len() && #[trigger] save_name.subrange(k, k + t.len()) == t;
        assert(t[i] == save_name.subrange(k, k + t.len())[i]);
        assert(t[i] == save_name[k + i]);
    }
    assert(!has_forbidden_char(folder)) by {
        if has_forbidden_char(folder) {
            let i = choose|i: int| 0 <= i < folder.len() && is_forbidden_char(#[trigger] folder[i]);
            assert(is_plain_name_char(folder[i]));
        }
    }
    assert forall|i: int| !#[trigger] parent_segment_at(folder, i) by {
        if parent_segment_at(folder, i) {
            assert(folder[i] != '.');
        }
    }
}

/// A save name that is not blank but holds a forbidden character is refused
/// for its characters.
pub proof fn lemma_forbidden_names_refused(save_name: Seq<char>)
    requires
        trim_spec(save_name).len() > 0,
        has_forbidden_char(trim_spec(save_name)),
    ensures
        save_name_verdict(save_name) == Err::<Seq<char>, SaveNameError>(SaveNameError::InvalidCharacters),
{
    let t = trim_spec(save_name);
    let folder = folder_name_spec(save_name);
    let i = choose|i: int| 0 <= i < t.len() && is_forbidden_char(#[trigger] t[i]);
    assert(folder[i] == t[i]);
}

/// The game rules a new save records, in order: `Online` when online mode is
/// on, then `Real-time` when real time is on.
pub open spec fn gamerules_spec(online_mode: bool, real_time: bool) -> Seq<Seq<char>> {
    let first: Seq<Seq<char>> = if online_mode { seq!["Online"@] } else { seq![] };
    if real_time {
        first.push("Real-time"@)
    } else {
        first
    }
}

/// The game rules a new save records.
pub fn gamerules(online_mode: bool, real_time: bool) -> (r: Vec<String>)
    ensures
        r@.map_values(|s: String| s@) == gamerules_spec(online_mode, real_time),
{
    let mut rules: Vec<String> = Vec::new();
    if online_mode {
        rules.push(owned("Online"));
    }
    if real_time {
        rules.push(owned("Real-time"));
    }
    assert(rules@.map_values(|s: String| s@) =~= gamerules_spec(online_mode, real_time));
    rules
}

/// Random starting skills and statistics for a new player: walking,
/// swimming and breathing each from 3 to 5, then strength 1 to 8,
/// intelligence 3 to 5, dexterity 2 to 6, charisma 2 to 4 and constitution
/// 2 to 6, drawn in that order.
pub fn generate_stats(rng: &mut rand::rngs::ThreadRng) -> (r: (i8, i8, i8, i16, i16, i16, i16, i16))
    ensures
        3 <= r.0 <= 5,
        3 <= r.1 <= 5,
        3 <= r.2 <= 5,
        1 <= r.3 <= 8,
        3 <= r.4 <= 5,
        2 <= r.5 <= 6,
        2 <= r.6 <= 4,
        2 <= r.7 <= 6,
{
    let skill_min: i16 = 3;
    let skill_max: i16 = 5;
    let walking = roll_between(rng, skill_min, skill_max) as i8;
    let swimming = roll_between(rng, skill_min, skill_max) as i8;
    let breathing = roll_between(rng, skill_min, skill_max) as i8;
    let strength = roll_between(rng, 1, 8);
    let intelligence = roll_between(rng, 3, 5);
    let dexterity = roll_between(rng, 2, 6);
    let charisma = roll_between(rng, 2, 4);
    let constitution = roll_between(rng, 2, 6);
    (walking, swimming, breathing, strength, intelligence, dexterity, charisma, constitution)
}

} // verus!
