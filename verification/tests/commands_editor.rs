use pj::commands::init::{
    editor_menu_line, finish_wizard, means_yes, menu_editor, shell_to_set_up, should_ask_github,
    EDITOR_MENU_LEN,
};
use pj::commands::list::{project_rows, ProjectRow};
use pj::commands::show_config::{
    editor_option, ConfigEditor, EditorAction, Key, EDITOR_OPTION_COUNT, NAME_WIDTH, ROW_COUNT,
};
use pj::config::Config;
use pj::projects::Project;
use pj::shell::Shell;

fn config(editor: &str) -> Config {
    Config {
        editor: editor.to_string(),
        cd_on_select: true,
        git_init_on_add: true,
        gh_create_on_add: false,
    }
}

#[test]
fn the_wizard_offers_five_editors_and_other() {
    assert_eq!(EDITOR_MENU_LEN, 6);
    let lines: Vec<&str> = (0..EDITOR_MENU_LEN).map(editor_menu_line).collect();
    assert_eq!(lines, vec!["code", "zed", "cursor", "nvim", "vim", "other"]);
    assert_eq!(menu_editor(0), Some("code"));
    assert_eq!(menu_editor(4), Some("vim"));
    assert_eq!(menu_editor(5), None);
}

#[test]
fn the_first_line_of_a_yes_no_menu_means_yes() {
    assert!(means_yes(0));
    assert!(!means_yes(1));
}

#[test]
fn github_is_asked_about_where_git_is_initialised() {
    let with_git = config("code");
    let mut without_git = config("code");
    without_git.git_init_on_add = false;
    assert!(should_ask_github(true, None));
    assert!(should_ask_github(true, Some(&without_git)));
    assert!(should_ask_github(false, Some(&with_git)));
    assert!(!should_ask_github(false, Some(&without_git)));
    assert!(!should_ask_github(false, None));
}

#[test]
fn a_github_remote_switches_git_on() {
    let r = finish_wizard("nvim".to_string(), false, false, true);
    assert_eq!(
        r.config,
        Config {
            editor: "nvim".to_string(),
            cd_on_select: false,
            git_init_on_add: true,
            gh_create_on_add: true
        }
    );
    assert!(r.git_init_forced);
    let r = finish_wizard("code".to_string(), true, true, true);
    assert!(r.config.git_init_on_add && r.config.gh_create_on_add && !r.git_init_forced);
    let r = finish_wizard("code".to_string(), true, false, false);
    assert!(!r.config.git_init_on_add && !r.config.gh_create_on_add && !r.git_init_forced);
    let r = finish_wizard("code".to_string(), true, true, false);
    assert!(r.config.git_init_on_add && !r.config.gh_create_on_add && !r.git_init_forced);
}

#[test]
fn the_shell_is_set_up_only_for_changing_directory() {
    assert_eq!(shell_to_set_up(true, Some(Shell::Fish)), Some(Shell::Fish));
    assert_eq!(shell_to_set_up(true, None), Some(Shell::Bash));
    assert_eq!(shell_to_set_up(false, Some(Shell::Fish)), None);
    assert_eq!(shell_to_set_up(false, None), None);
}

#[test]
fn rows_of_the_table() {
    let a = Project {
        path: "/home/u/app".to_string(),
        tags: vec!["work".to_string(), "rust".to_string()],
        last_accessed: 1_700_000_000,
        access_count: 12,
    };
    let b = Project { path: "/x".to_string(), tags: Vec::new(), last_accessed: -5, access_count: 0 };
    assert_eq!(
        project_rows(&[&a, &b]),
        vec![
            ProjectRow {
                path: "/home/u/app".to_string(),
                tags: "work, rust".to_string(),
                access_count: 12,
                last_accessed: 1_700_000_000
            },
            ProjectRow { path: "/x".to_string(), tags: String::new(), access_count: 0, last_accessed: -5 },
        ]
    );
    assert!(project_rows(&[]).is_empty());
}

#[test]
fn the_editor_offers_eight_editors() {
    assert_eq!(EDITOR_OPTION_COUNT, 8);
    assert_eq!(ROW_COUNT, 4);
    assert_eq!(NAME_WIDTH, 18);
    let names: Vec<&str> = (0..EDITOR_OPTION_COUNT).map(editor_option).collect();
    assert_eq!(names, vec!["none", "code", "zed", "vim", "nvim", "cursor", "nano", "emacs"]);
}

#[test]
fn a_new_editor_finds_the_configured_editor() {
    let e = ConfigEditor::new(config("code"));
    assert_eq!(e.editor_index(), 1);
    assert_eq!(e.selected_row(), 0);
    assert_eq!(e.custom_editor(), None);
    assert_eq!(e.config(), &config("code"));
    assert_eq!(ConfigEditor::new(config("emacs")).editor_index(), 7);
    assert_eq!(ConfigEditor::new(config("none")).editor_index(), 0);
}

#[test]
fn an_editor_that_is_not_offered_is_custom() {
    let e = ConfigEditor::new(config("hx --wait"));
    assert_eq!(e.editor_index(), 8);
    assert_eq!(e.custom_editor(), Some(&"hx --wait".to_string()));
    assert_eq!(e.format_editor_value(), "custom: hx --wait");
    assert_eq!(e.build_config(), config("hx --wait"));
    let e = ConfigEditor::new(config("Code"));
    assert_eq!(e.editor_index(), 8);
}

#[test]
fn the_choice_of_editor_goes_round() {
    let mut e = ConfigEditor::new(config("nano"));
    assert_eq!(e.editor_index(), 6);
    e.cycle_editor(true);
    assert_eq!(e.editor_index(), 7);
    e.cycle_editor(true);
    assert_eq!(e.editor_index(), 8);
    e.cycle_editor(true);
    assert_eq!(e.editor_index(), 0);
    e.cycle_editor(false);
    assert_eq!(e.editor_index(), 8);
    e.cycle_editor(false);
    assert_eq!(e.editor_index(), 7);
    assert_eq!(e.selected_row(), 0);
}

#[test]
fn the_cursor_goes_round() {
    let mut e = ConfigEditor::new(config("code"));
    e.move_selection(false);
    assert_eq!(e.selected_row(), 3);
    e.move_selection(true);
    assert_eq!(e.selected_row(), 0);
    e.move_selection(true);
    e.move_selection(true);
    assert_eq!(e.selected_row(), 2);
    e.move_selection(false);
    assert_eq!(e.selected_row(), 1);
    assert_eq!(e.editor_index(), 1);
}

#[test]
fn cycling_changes_the_row_under_the_cursor() {
    let mut e = ConfigEditor::new(config("code"));
    e.cycle_current(true);
    assert_eq!(e.editor_index(), 2);
    e.move_selection(true);
    e.cycle_current(true);
    assert!(!e.config().cd_on_select);
    e.cycle_current(false);
    assert!(e.config().cd_on_select);
    e.move_selection(true);
    e.cycle_current(false);
    assert!(!e.config().git_init_on_add);
    e.move_selection(true);
    e.cycle_current(true);
    assert!(e.config().gh_create_on_add);
    assert_eq!(e.editor_index(), 2);
    assert_eq!(
        e.build_config(),
        Config {
            editor: "zed".to_string(),
            cd_on_select: true,
            git_init_on_add: false,
            gh_create_on_add: true
        }
    );
}

#[test]
fn the_editor_value_is_the_name_or_the_custom_command() {
    let mut e = ConfigEditor::new(config("vim"));
    assert_eq!(e.format_editor_value(), "vim");
    assert_eq!(e.build_config().editor, "vim");
    e.cycle_editor(false);
    assert_eq!(e.format_editor_value(), "zed");
    while e.editor_index() < EDITOR_OPTION_COUNT {
        e.cycle_editor(true);
    }
    assert_eq!(e.format_editor_value(), "custom: ");
    assert_eq!(e.build_config().editor, "");
}

#[test]
fn keys_move_and_cycle() {
    let mut e = ConfigEditor::new(config("code"));
    assert_eq!(e.handle_key(Key::Down), EditorAction::Continue);
    assert_eq!(e.selected_row(), 1);
    assert_eq!(e.handle_key(Key::Right), EditorAction::Continue);
    assert!(!e.config().cd_on_select);
    assert_eq!(e.handle_key(Key::Tab), EditorAction::Continue);
    assert!(e.config().cd_on_select);
    assert_eq!(e.handle_key(Key::Left), EditorAction::Continue);
    assert!(!e.config().cd_on_select);
    assert_eq!(e.handle_key(Key::Up), EditorAction::Continue);
    assert_eq!(e.selected_row(), 0);
    assert_eq!(e.handle_key(Key::Left), EditorAction::Continue);
    assert_eq!(e.editor_index(), 0);
    assert_eq!(e.handle_key(Key::Other), EditorAction::Continue);
    assert_eq!(e.editor_index(), 0);
    assert_eq!(e.selected_row(), 0);
}

#[test]
fn escape_cancels_and_enter_saves() {
    let mut e = ConfigEditor::new(config("code"));
    assert_eq!(e.handle_key(Key::Esc), EditorAction::Cancel);
    e.handle_key(Key::Right);
    e.handle_key(Key::Down);
    e.handle_key(Key::Right);
    assert_eq!(
        e.handle_key(Key::Enter),
        EditorAction::Save(Config {
            editor: "zed".to_string(),
            cd_on_select: false,
            git_init_on_add: true,
            gh_create_on_add: false
        })
    );
}

#[test]
fn enter_on_custom_asks_for_the_command() {
    let mut e = ConfigEditor::new(config("none"));
    e.handle_key(Key::Left);
    assert_eq!(e.editor_index(), 8);
    assert_eq!(e.handle_key(Key::Enter), EditorAction::PromptCustom);
    e.set_custom_editor("  hx --wait \n");
    assert_eq!(e.custom_editor(), Some(&"hx --wait".to_string()));
    e.set_custom_editor("   \n");
    assert_eq!(e.custom_editor(), Some(&"hx --wait".to_string()));
    e.handle_key(Key::Down);
    match e.handle_key(Key::Enter) {
        EditorAction::Save(c) => assert_eq!(c.editor, "hx --wait"),
        other => panic!("unexpected action {:?}", other),
    }
}

#[test]
fn the_rows_are_drawn_below_the_heading() {
    let mut e = ConfigEditor::new(config("code"));
    e.handle_key(Key::Down);
    let rows = e.render_rows();
    assert_eq!(rows.len(), 4);
    let lines: Vec<u16> = rows.iter().map(|r| r.line).collect();
    assert_eq!(lines, vec![2, 3, 4, 5]);
    let selected: Vec<bool> = rows.iter().map(|r| r.selected).collect();
    assert_eq!(selected, vec![false, true, false, false]);
    assert_eq!(rows[0].marker, "  ");
    assert_eq!(rows[0].name, "editor            ");
    assert_eq!(rows[0].value, "  code  ");
    assert_eq!(rows[1].marker, "> ");
    assert_eq!(rows[1].name, "cd_on_select      ");
    assert_eq!(rows[1].value, "< true >");
    assert_eq!(rows[2].name, "git_init_on_add   ");
    assert_eq!(rows[2].value, "  true  ");
    assert_eq!(rows[3].name, "gh_create_on_add  ");
    assert_eq!(rows[3].value, "  false  ");
}

#[test]
fn the_editor_row_shows_a_custom_command() {
    let e = ConfigEditor::new(config("hx"));
    let rows = e.render_rows();
    assert_eq!(rows[0].marker, "> ");
    assert_eq!(rows[0].value, "< custom: hx >");
}
