use blink_core::config::{Keybind, KeybindAction, KeybindConfig};

#[test]
fn action_names_round_trip_through_the_parser() {
    let actions = [
        KeybindAction::ToggleHidden,
        KeybindAction::OpenTerminal,
        KeybindAction::SelectAll,
        KeybindAction::Refresh,
        KeybindAction::OpenWithMicro,
        KeybindAction::Back,
        KeybindAction::Forward,
        KeybindAction::Up,
        KeybindAction::Home,
        KeybindAction::Copy,
        KeybindAction::Cut,
        KeybindAction::Paste,
        KeybindAction::Delete,
        KeybindAction::Rename,
    ];
    for a in actions.iter() {
        let name = KeybindConfig::action_to_string(a);
        assert_eq!(KeybindConfig::parse_action(name), Some(*a));
        assert!(!KeybindConfig::action_to_display_name(a).is_empty());
    }
    assert_eq!(KeybindConfig::parse_action("no_such_action"), None);
}

#[test]
fn display_names_are_the_fixed_labels() {
    assert_eq!(KeybindConfig::action_to_string(&KeybindAction::Copy), "copy");
    assert_eq!(
        KeybindConfig::action_to_display_name(&KeybindAction::Up),
        "Up (Parent)"
    );
    assert_eq!(
        KeybindConfig::action_to_display_name(&KeybindAction::ToggleHidden),
        "Toggle Hidden Files"
    );
}

#[test]
fn keybinds_render_with_plus_separators() {
    let plain = Keybind { key: "F5".to_string(), modifiers: Vec::new() };
    assert_eq!(KeybindConfig::keybind_to_string(&plain), "F5");
    let combo = Keybind {
        key: "x".to_string(),
        modifiers: vec!["Control".to_string(), "Shift".to_string()],
    };
    assert_eq!(KeybindConfig::keybind_to_string(&combo), "Control+Shift+x");
}

#[test]
fn config_lines_follow_the_action_key_mods_grammar() {
    let (a, k) = KeybindConfig::parse_keybind_line("copy=c:Control").unwrap();
    assert_eq!(a, KeybindAction::Copy);
    assert_eq!(k.key, "c");
    assert_eq!(k.modifiers, vec!["Control".to_string()]);

    let (a, k) = KeybindConfig::parse_keybind_line("  rename = F2  ").unwrap();
    assert_eq!(a, KeybindAction::Rename);
    assert_eq!(k.key, "F2");
    assert!(k.modifiers.is_empty());

    let (_, k) = KeybindConfig::parse_keybind_line("paste=v:Control, Shift").unwrap();
    assert_eq!(k.modifiers, vec!["Control".to_string(), "Shift".to_string()]);

    // an empty modifier list after the colon counts as none
    let (_, k) = KeybindConfig::parse_keybind_line("delete=Delete:  ").unwrap();
    assert!(k.modifiers.is_empty());

    assert!(KeybindConfig::parse_keybind_line("# a comment").is_none());
    assert!(KeybindConfig::parse_keybind_line("   ").is_none());
    assert!(KeybindConfig::parse_keybind_line("no separator here").is_none());
    assert!(KeybindConfig::parse_keybind_line("unknown=x").is_none());
}

#[test]
fn the_default_table_has_one_binding_per_action() {
    let binds = KeybindConfig::default_keybinds();
    assert_eq!(binds.len(), 14);
    assert_eq!(binds[0].0, KeybindAction::ToggleHidden);
    assert_eq!(binds[0].1.key, "h");
    assert_eq!(binds[0].1.modifiers, vec!["Control".to_string()]);
    assert_eq!(binds[13].0, KeybindAction::Rename);
    assert_eq!(binds[13].1.key, "F2");
    assert!(binds[13].1.modifiers.is_empty());
}

#[test]
fn loading_a_file_overrides_defaults_line_by_line() {
    let content = "# my binds\ncopy=y\n\nnonsense line\npaste=p:Alt\n";
    let binds = KeybindConfig::load_from_content(content);
    assert_eq!(binds.len(), 14);
    let copy = binds.iter().find(|p| p.0 == KeybindAction::Copy).unwrap();
    assert_eq!(copy.1.key, "y");
    assert!(copy.1.modifiers.is_empty());
    let paste = binds.iter().find(|p| p.0 == KeybindAction::Paste).unwrap();
    assert_eq!(paste.1.key, "p");
    assert_eq!(paste.1.modifiers, vec!["Alt".to_string()]);
    // untouched actions keep their defaults
    let cut = binds.iter().find(|p| p.0 == KeybindAction::Cut).unwrap();
    assert_eq!(cut.1.key, "x");
    assert_eq!(cut.1.modifiers, vec!["Control".to_string()]);
}

#[test]
fn an_empty_file_leaves_the_defaults() {
    let binds = KeybindConfig::load_from_content("");
    let defaults = KeybindConfig::default_keybinds();
    assert_eq!(binds.len(), defaults.len());
    for (b, d) in binds.iter().zip(defaults.iter()) {
        assert_eq!(b.0, d.0);
        assert_eq!(b.1.key, d.1.key);
        assert_eq!(b.1.modifiers, d.1.modifiers);
    }
}

#[test]
fn the_rendered_file_lists_every_binding_in_fixed_order() {
    let binds = KeybindConfig::default_keybinds();
    let body = KeybindConfig::render_config(&binds);
    let expected = "# Blink keybinds configuration\n# Format: action=key:modifier1,modifier2\n# Modifiers: Control, Shift, Alt, Super\n# Special keys: F1-F12, Up, Down, Left, Right, Home, End, Delete, etc.\n# Mouse buttons: Mouse8, Mouse9\n\ntoggle_hidden=h:Control\nopen_terminal=h\nselect_all=a:Control\nrefresh=F5\nopen_with_micro=m\nback=Mouse8\nforward=Mouse9\nup=Up\nhome=Home\ncopy=c:Control\ncut=x:Control\npaste=v:Control\ndelete=Delete\nrename=F2\n";
    assert_eq!(body, expected);
}

#[test]
fn rendering_survives_a_load_round_trip() {
    let binds = KeybindConfig::default_keybinds();
    let body = KeybindConfig::render_config(&binds);
    let reloaded = KeybindConfig::load_from_content(&body);
    assert_eq!(binds.len(), reloaded.len());
    for (b, r) in binds.iter().zip(reloaded.iter()) {
        assert_eq!(b.0, r.0);
        assert_eq!(b.1.key, r.1.key);
        assert_eq!(b.1.modifiers, r.1.modifiers);
    }
}

#[test]
fn upsert_replaces_in_place_or_appends() {
    let mut binds = Vec::new();
    KeybindConfig::upsert(
        &mut binds,
        KeybindAction::Home,
        Keybind { key: "Home".to_string(), modifiers: Vec::new() },
    );
    assert_eq!(binds.len(), 1);
    KeybindConfig::upsert(
        &mut binds,
        KeybindAction::Home,
        Keybind { key: "h".to_string(), modifiers: vec!["Super".to_string()] },
    );
    assert_eq!(binds.len(), 1);
    assert_eq!(binds[0].1.key, "h");
}
