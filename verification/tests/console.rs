use dungeon_crawler_world::console::{
    looks_like_number, parse_command_line, ConsoleCommandContext, ConsoleRegistry, ConsoleState,
    finish, CommandStep, GameReply, GameRequest, HighlightedLine, LineType, SaveFiles, TokenKind,
};

struct FakeGame {
    cleared: bool,
    opened: Vec<String>,
    current: Option<String>,
    saves: Result<Vec<(String, Option<String>)>, String>,
    skills: Vec<(String, i8)>,
    settings: Vec<(String, String)>,
}

impl FakeGame {
    fn new() -> Self {
        FakeGame {
            cleared: false,
            opened: Vec::new(),
            current: None,
            saves: Ok(Vec::new()),
            skills: Vec::new(),
            settings: vec![("console_max_lines".to_string(), "300".to_string())],
        }
    }
}

impl ConsoleCommandContext for FakeGame {
    fn clear_console(&mut self) {
        self.cleared = true;
    }
    fn open_preview(&mut self, name: &str) -> Result<(), String> {
        if name == "grid" {
            self.opened.push(name.to_string());
            Ok(())
        } else {
            Err(format!("Unknown UI: {}", name))
        }
    }
    fn list_previews(&self) -> Vec<String> {
        vec!["grid".to_string(), "skills".to_string()]
    }
    fn current_save(&self) -> Option<String> {
        self.current.clone()
    }
    fn list_save_folders(&self) -> Result<Vec<(String, Option<String>)>, String> {
        self.saves.clone()
    }
    fn load_save(&self, requested: Option<&str>) -> Result<SaveFiles, String> {
        match requested.map(|s| s.to_string()).or(self.current.clone()) {
            Some(name) if name == "Stored" => Ok(SaveFiles {
                folder_name: name,
                save_json: r#"{"save_name": "My Run", "difficulty": 3}"#.to_string(),
                current_floor: 1,
                level: 0,
                coins: 0,
            }),
            Some(name) => Ok(SaveFiles {
                folder_name: name,
                save_json: r#"{"difficulty": "Hard"}"#.to_string(),
                current_floor: 2,
                level: 5,
                coins: -3,
            }),
            None => Err("No current save selected.".to_string()),
        }
    }
    fn read_owned_skills(&self) -> Result<Vec<(String, i8)>, String> {
        Ok(self.skills.clone())
    }
    fn get_setting_value(&self, key: &str) -> Result<String, String> {
        self.settings
            .iter()
            .find(|(k, _)| k == key)
            .map(|(_, v)| v.clone())
            .ok_or_else(|| format!("Unknown setting: {}", key))
    }
    fn list_setting_values(&self) -> Vec<(String, String)> {
        self.settings.clone()
    }
    fn set_setting_value(&mut self, key: &str, value: &str) -> Result<String, String> {
        Ok(format!("{} set to {}", key, value))
    }
    fn regenerate_grid_preview(&mut self) -> Result<String, String> {
        Ok("Grid regenerated.".to_string())
    }
    fn reset_grid_preview(&mut self) -> Result<String, String> {
        Err("Usage: open the grid first".to_string())
    }
}

fn kinds(line: &str) -> Vec<(String, TokenKind)> {
    HighlightedLine::tokenize(line)
        .into_iter()
        .map(|t| (t.text, t.kind))
        .collect()
}

#[test]
fn numbers_are_recognised() {
    assert!(looks_like_number("42"));
    assert!(looks_like_number("-3.5"));
    assert!(looks_like_number("+.5"));
    assert!(looks_like_number("1e10"));
    assert!(looks_like_number("2.5E-3"));
    assert!(!looks_like_number(""));
    assert!(!looks_like_number("-"));
    assert!(!looks_like_number("."));
    assert!(!looks_like_number("1.2.3"));
    assert!(!looks_like_number("abc"));
    assert!(!looks_like_number("1e"));
    assert!(!looks_like_number("12a"));
}

#[test]
fn tokenize_classifies_words() {
    assert_eq!(
        kinds("echo 12 \"hi there\" x"),
        vec![
            ("echo".to_string(), TokenKind::Command),
            (" ".to_string(), TokenKind::Space),
            ("12".to_string(), TokenKind::Number),
            (" ".to_string(), TokenKind::Space),
            ("\"hi there\"".to_string(), TokenKind::Quote),
            (" ".to_string(), TokenKind::Space),
            ("x".to_string(), TokenKind::Word),
        ]
    );
}

#[test]
fn tokenize_unterminated_quote_is_a_quote() {
    assert_eq!(
        kinds("\"open  end"),
        vec![("\"open  end".to_string(), TokenKind::Quote)]
    );
}

#[test]
fn tokenize_keeps_trailing_space() {
    assert_eq!(
        kinds("  run  "),
        vec![
            ("  ".to_string(), TokenKind::Space),
            ("run".to_string(), TokenKind::Command),
            ("  ".to_string(), TokenKind::Space),
        ]
    );
}

#[test]
fn tokens_concatenate_to_the_line() {
    for line in ["a \"b c\" 1.5  d", "", "   ", "x\"y\"z", "\"", "cmd -2 e"] {
        let joined: String = HighlightedLine::tokenize(line)
            .into_iter()
            .map(|t| {
                assert!(!t.text.is_empty());
                t.text
            })
            .collect();
        assert_eq!(joined, line);
    }
}

#[test]
fn line_types_by_prefix() {
    assert_eq!(HighlightedLine::new("Error: bad".to_string()).line_type, LineType::Error);
    assert_eq!(
        HighlightedLine::new("Unknown command: x".to_string()).line_type,
        LineType::Error
    );
    assert_eq!(HighlightedLine::new("Warning: w".to_string()).line_type, LineType::Warning);
    assert_eq!(
        HighlightedLine::new("Available commands:".to_string()).line_type,
        LineType::Help
    );
    assert_eq!(HighlightedLine::new("Usage: x".to_string()).line_type, LineType::Help);
    assert_eq!(
        HighlightedLine::new("  help - show".to_string()).line_type,
        LineType::HelpDetail
    );
    let normal = HighlightedLine::new("hello world".to_string());
    assert_eq!(normal.line_type, LineType::Normal);
    assert_eq!(normal.tokens.unwrap().len(), 3);
    assert!(HighlightedLine::new("Error".to_string()).tokens.is_none());
}

#[test]
fn parse_splits_name_and_arguments() {
    let parsed = parse_command_line("  ECHO  \"hello world\"  x ").unwrap();
    assert_eq!(parsed.raw, "ECHO  \"hello world\"  x");
    assert_eq!(parsed.name, "echo");
    assert_eq!(parsed.args, vec!["hello world".to_string(), "x".to_string()]);
    assert!(parse_command_line("   ").is_none());
    assert!(parse_command_line("\"\"").is_none());
}

#[test]
fn console_state_queues_submitted_commands() {
    let mut state = ConsoleState::new();
    assert!(!state.is_dirty());
    state.set_input("help".to_string());
    assert!(state.is_dirty());
    state.clear_dirty();
    state.submit_input();
    assert_eq!(state.input(), "");
    state.set_input("   ".to_string());
    state.submit_input();
    assert_eq!(state.take_pending(), vec!["help".to_string(), "   ".to_string()]);
    assert!(state.take_pending().is_empty());
    state.recall_last_command();
    assert_eq!(state.input(), "help");
}

#[test]
fn console_state_logs_and_clears() {
    let mut state = ConsoleState::new();
    state.log_line("one");
    state.log_lines(vec!["two".to_string(), "Error: three".to_string()]);
    let raws: Vec<String> = state.lines().iter().map(|l| l.raw.clone()).collect();
    assert_eq!(raws, vec!["one", "two", "Error: three"]);
    assert_eq!(state.lines()[2].line_type, LineType::Error);
    assert!(state.take_scroll_request());
    assert!(!state.take_scroll_request());
    state.clear();
    assert!(state.lines().is_empty());
    assert!(state.is_dirty());
}

#[test]
fn unknown_command_is_reported() {
    let registry = ConsoleRegistry::new();
    let mut game = FakeGame::new();
    assert_eq!(
        registry.execute("fly away", &mut game),
        vec![
            "Error: Unknown command: fly".to_string(),
            "Type 'help' for a list of commands.".to_string()
        ]
    );
    assert!(registry.execute("   ", &mut game).is_empty());
}

#[test]
fn help_lists_every_command() {
    let registry = ConsoleRegistry::new();
    let mut game = FakeGame::new();
    let lines = registry.execute("help", &mut game);
    assert_eq!(lines[0], "Available commands:");
    assert_eq!(lines.len(), 1 + registry.commands().len());
    assert_eq!(
        lines[1],
        "  help [command] - show all commands or detailed help for one command"
    );
    assert_eq!(lines, registry.render_help_overview());
}

#[test]
fn help_for_one_command_by_alias() {
    let registry = ConsoleRegistry::new();
    let mut game = FakeGame::new();
    assert_eq!(
        registry.execute("COMMANDS LOG", &mut game),
        vec![
            "Usage: echo <message>".to_string(),
            "  echo - write a message to the console".to_string(),
            "Aliases: log".to_string(),
            "Developer-only command.".to_string(),
        ]
    );
    assert_eq!(
        registry.render_command_help("nope"),
        Err("Unknown command: nope".to_string())
    );
    assert_eq!(
        registry.execute("help nope", &mut game),
        vec!["Error: Unknown command: nope".to_string()]
    );
    assert_eq!(
        registry.execute("help a b", &mut game),
        vec!["Usage: help [command]".to_string()]
    );
}

#[test]
fn echo_clear_and_invoke() {
    let registry = ConsoleRegistry::new();
    let mut game = FakeGame::new();
    assert_eq!(registry.execute("echo a  \"b c\"", &mut game), vec!["a b c".to_string()]);
    assert_eq!(
        registry.execute("echo", &mut game),
        vec!["Usage: echo <message>".to_string()]
    );
    assert!(registry.execute("clear", &mut game).is_empty());
    assert!(game.cleared);
    assert_eq!(
        registry.execute("invoke grid", &mut game),
        vec!["Invoked UI preview: grid".to_string()]
    );
    assert_eq!(game.opened, vec!["grid".to_string()]);
    assert_eq!(
        registry.execute("invoke map", &mut game),
        vec!["Error: Unknown UI: map".to_string()]
    );
    assert_eq!(
        registry.execute("ui.list", &mut game),
        vec![
            "Known preview UIs:".to_string(),
            "  grid".to_string(),
            "  skills".to_string()
        ]
    );
}

#[test]
fn save_commands() {
    let registry = ConsoleRegistry::new();
    let mut game = FakeGame::new();
    assert_eq!(
        registry.execute("save.current", &mut game),
        vec!["No current save selected.".to_string()]
    );
    assert_eq!(
        registry.execute("save.list", &mut game),
        vec!["No saves found.".to_string()]
    );
    game.current = Some("Run_1".to_string());
    game.saves = Ok(vec![
        (
            "Run_1".to_string(),
            Some(r#"{"difficulty": "Easy", "created_at": "2024-05-01T12:34:56+02:00"}"#.to_string()),
        ),
        ("A".to_string(), None),
        ("B".to_string(), Some("not json".to_string())),
    ]);
    assert_eq!(
        registry.execute("save.current", &mut game),
        vec!["Current save: Run_1".to_string()]
    );
    assert_eq!(
        registry.execute("save.list", &mut game),
        vec![
            "Saves:".to_string(),
            "  A".to_string(),
            "  B".to_string(),
            "  Run_1 - Difficulty: Easy | Created: 2024-05-01 12:34".to_string(),
        ]
    );
    assert_eq!(
        registry.execute("save.inspect", &mut game),
        vec![
            "Save: Run 1".to_string(),
            "Folder: Run_1".to_string(),
            "Difficulty: Hard".to_string(),
            "Current floor: 2".to_string(),
            "Level: 5".to_string(),
            "Coins: -3".to_string(),
        ]
    );
    assert_eq!(
        registry.execute("save.inspect Stored", &mut game),
        vec![
            "Save: My Run".to_string(),
            "Folder: Stored".to_string(),
            "Current floor: 1".to_string(),
            "Level: 0".to_string(),
            "Coins: 0".to_string(),
        ]
    );
    game.current = None;
    assert_eq!(
        registry.execute("save.inspect", &mut game),
        vec!["Error: No current save selected.".to_string()]
    );
    game.saves = Err("disk on fire".to_string());
    assert_eq!(
        registry.execute("save.list", &mut game),
        vec!["Error: disk on fire".to_string()]
    );
}

#[test]
fn skills_and_settings_commands() {
    let registry = ConsoleRegistry::new();
    let mut game = FakeGame::new();
    assert_eq!(
        registry.execute("skills.list", &mut game),
        vec!["No owned skills found.".to_string()]
    );
    game.skills = vec![("Swimming".to_string(), 4), ("Walking".to_string(), -1)];
    assert_eq!(
        registry.execute("skills.list", &mut game),
        vec![
            "Owned skills:".to_string(),
            "  Swimming - level 4".to_string(),
            "  Walking - level -1".to_string(),
        ]
    );
    assert_eq!(
        registry.execute("settings.get", &mut game),
        vec!["Settings:".to_string(), "console_max_lines = 300".to_string()]
    );
    assert_eq!(
        registry.execute("settings.get console_max_lines", &mut game),
        vec!["console_max_lines = 300".to_string()]
    );
    assert_eq!(
        registry.execute("settings.get fog", &mut game),
        vec!["Error: Unknown setting: fog".to_string()]
    );
    assert_eq!(
        registry.execute("settings.set fog 3", &mut game),
        vec!["fog set to 3".to_string()]
    );
    assert_eq!(
        registry.execute("settings.set fog", &mut game),
        vec!["Usage: settings.set <key> <value>".to_string()]
    );
    assert_eq!(
        registry.execute("grid.regen", &mut game),
        vec!["Grid regenerated.".to_string()]
    );
    assert_eq!(
        registry.execute("grid.reset_view", &mut game),
        vec!["Usage: open the grid first".to_string()]
    );
}

fn asked(registry: &ConsoleRegistry, line: &str) -> GameRequest {
    match registry.plan(line) {
        CommandStep::Ask(request) => request,
        CommandStep::Done(lines) => panic!("no request, lines {:?}", lines),
    }
}

#[test]
fn commands_ask_the_game_with_their_arguments() {
    let registry = ConsoleRegistry::new();
    assert_eq!(
        asked(&registry, "settings.set volume 7"),
        GameRequest::SetSetting { key: "volume".to_string(), value: "7".to_string() }
    );
    assert_eq!(
        asked(&registry, "settings.get fog"),
        GameRequest::GetSetting { key: "fog".to_string() }
    );
    assert_eq!(asked(&registry, "settings.get"), GameRequest::ListSettings);
    assert_eq!(
        asked(&registry, "save.inspect Run_1"),
        GameRequest::LoadSave { requested: Some("Run_1".to_string()) }
    );
    assert_eq!(asked(&registry, "save.inspect"), GameRequest::LoadSave { requested: None });
    assert_eq!(
        asked(&registry, "invoke new save"),
        GameRequest::OpenPreview { name: "new save".to_string() }
    );
    assert_eq!(asked(&registry, "clear"), GameRequest::ClearConsole);
    assert_eq!(asked(&registry, "grid.regen"), GameRequest::RegenerateGrid);
    assert_eq!(asked(&registry, "grid.reset_view"), GameRequest::ResetGridView);
    assert_eq!(asked(&registry, "ui.list"), GameRequest::ListPreviews);
    assert_eq!(asked(&registry, "save.current"), GameRequest::CurrentSave);
    assert_eq!(asked(&registry, "save.list"), GameRequest::ListSaveFolders);
    assert_eq!(asked(&registry, "skills.list"), GameRequest::ReadOwnedSkills);
    match registry.plan("settings.set volume") {
        CommandStep::Done(lines) => {
            assert_eq!(lines, vec!["Usage: settings.set <key> <value>".to_string()])
        }
        CommandStep::Ask(_) => panic!("usage error expected"),
    }
    match registry.plan("   ") {
        CommandStep::Done(lines) => assert!(lines.is_empty()),
        CommandStep::Ask(_) => panic!("nothing expected"),
    }
}

#[test]
fn replies_become_lines() {
    let request = GameRequest::GetSetting { key: "fog".to_string() };
    assert_eq!(
        finish(&request, GameReply::Value(Ok("3".to_string()))),
        Some(vec!["fog = 3".to_string()])
    );
    assert_eq!(
        finish(&request, GameReply::Value(Err("Unknown setting: fog".to_string()))),
        Some(vec!["Error: Unknown setting: fog".to_string()])
    );
    assert_eq!(finish(&request, GameReply::Cleared), None);
    assert_eq!(finish(&GameRequest::ClearConsole, GameReply::Cleared), Some(Vec::new()));
    assert_eq!(
        finish(&GameRequest::CurrentSave, GameReply::Current(None)),
        Some(vec!["No current save selected.".to_string()])
    );
}

#[test]
fn command_names_ignore_case() {
    let registry = ConsoleRegistry::new();
    let mut game = FakeGame::new();
    assert_eq!(
        registry.execute("COMMANDS", &mut game),
        registry.execute("help", &mut game)
    );
    registry.execute("CLEAR", &mut game);
    assert!(game.cleared);
}
