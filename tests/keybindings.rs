use agent_core::keybindings::{evaluate_when_clause, normalize_key_combo, normalize_platform_modifiers, Modifier, Platform};
use agent_core::session::{default_panels_state, PanelState, PanelsState, WindowState};

#[test]
fn combos_are_ordered_and_lower_case() {
    assert_eq!(normalize_key_combo(&[Modifier::Shift, Modifier::Ctrl], "P"), "ctrl+shift+p");
    assert_eq!(normalize_key_combo(&[Modifier::Meta, Modifier::Alt], "Enter"), "alt+meta+enter");
    assert_eq!(normalize_key_combo(&[], "F5"), "f5");
}

#[test]
fn platform_modifiers_follow_conventions() {
    assert_eq!(
        normalize_platform_modifiers(vec![Modifier::Meta, Modifier::Shift], Platform::Other),
        vec![Modifier::Ctrl, Modifier::Shift]
    );
    assert_eq!(
        normalize_platform_modifiers(vec![Modifier::Ctrl, Modifier::Alt], Platform::MacOs),
        vec![Modifier::Meta, Modifier::Alt]
    );
}

#[test]
fn when_clauses_combine_conditions() {
    assert!(evaluate_when_clause("editorFocus && !inputFocus", "editorFocus terminalVisible"));
    assert!(!evaluate_when_clause("editorFocus && !terminalVisible", "editorFocus terminalVisible"));
    assert!(!evaluate_when_clause("gitEnabled", "editorFocus"));
    assert!(evaluate_when_clause("", "anything"));
}

#[test]
fn default_layout() {
    let panels = default_panels_state();
    assert!(panels.sidebar.visible);
    assert_eq!(panels.sidebar.width, Some(256));
    assert_eq!(panels.terminal.height, Some(300));
    assert_eq!(panels.ai_panel.width, Some(400));
    assert_eq!(panels.bottom_panel_tab, "problems");
}

#[test]
fn default_window_and_panel() {
    let w = WindowState::default();
    assert_eq!((w.width, w.height, w.maximized, w.x, w.y), (1280, 720, false, None, None));
    let p = PanelState::default();
    assert!(p.visible);
    assert_eq!(p.width, None);
    assert_eq!(PanelsState::default().bottom_panel_tab, "problems");
}
