use matrix_lang::engine::editor::{DisplayMode, DockTab, GameObjectType, SimpleScriptingPanel};
use matrix_lang::engine::project_browser::{file_size_unit, skips_entry, sort_nodes, FileAction, FileNode, ProjectBrowser};
use matrix_lang::engine::scripting::{get_default_script_template, ErrorType, ScriptingPanel};

fn panel_with(name: &str, code: &str) -> ScriptingPanel {
    let mut p = ScriptingPanel::new();
    p.create_new_script(name.to_string(), code.to_string());
    p
}

#[test]
fn new_panel_shows_main_with_the_template() {
    let p = ScriptingPanel::new();
    assert_eq!(p.active_script(), Some("Main".to_string()));
    assert_eq!(p.script_names(), vec!["Main".to_string()]);
    let main = p.script("Main").unwrap();
    assert_eq!(main.code, get_default_script_template());
    assert_eq!(main.file_path, "Main.matrix");
    assert!(main.is_dirty);
    assert_eq!(main.cursor_position, 0);
    assert!(main.syntax_errors.is_empty());
    assert!(!main.auto_save);
    assert!(ScriptingPanel::default().script("Main").is_some());
}

#[test]
fn created_script_is_saved_under_its_name() {
    let p = panel_with("Physics", "let g = 9.81");
    let s = p.script("Physics").unwrap();
    assert_eq!(s.file_path, "Physics.matrix");
    assert_eq!(s.code, "let g = 9.81");
    assert_eq!(p.active_script(), Some("Main".to_string()));
    let mut names = p.script_names();
    names.sort();
    assert_eq!(names, vec!["Main".to_string(), "Physics".to_string()]);
}

#[test]
fn creating_an_existing_name_replaces_the_script() {
    let mut p = panel_with("A", "let x = 1");
    p.create_new_script("A".to_string(), "let x = 2".to_string());
    assert_eq!(p.script("A").unwrap().code, "let x = 2");
    assert_eq!(p.script_names().len(), 2);
}

#[test]
fn closing_the_shown_script_shows_another() {
    let mut p = panel_with("Other", "let y = 3");
    p.close_script("Main");
    assert!(p.script("Main").is_none());
    assert_eq!(p.active_script(), Some("Other".to_string()));
    p.close_script("Other");
    assert_eq!(p.active_script(), None);
    assert!(p.script_names().is_empty());
}

#[test]
fn closing_a_hidden_script_keeps_the_shown_one() {
    let mut p = panel_with("Other", "let y = 3");
    p.close_script("Other");
    assert_eq!(p.active_script(), Some("Main".to_string()));
    p.close_script("Missing");
    assert_eq!(p.script_names(), vec!["Main".to_string()]);
}

#[test]
fn close_undoes_create_of_a_new_name() {
    let mut p = ScriptingPanel::new();
    p.create_new_script("Tmp".to_string(), "let t = 1".to_string());
    p.close_script("Tmp");
    assert_eq!(p.script_names(), vec!["Main".to_string()]);
    assert_eq!(p.script("Main").unwrap().code, get_default_script_template());
    assert_eq!(p.active_script(), Some("Main".to_string()));
}

#[test]
fn showing_a_script_needs_it_open() {
    let mut p = panel_with("B", "let b = 1");
    assert!(p.set_active_script("B"));
    assert_eq!(p.active_script(), Some("B".to_string()));
    assert!(!p.set_active_script("Nope"));
    assert_eq!(p.active_script(), Some("B".to_string()));
}

#[test]
fn opened_script_is_saved_and_shown() {
    let mut p = ScriptingPanel::new();
    p.open_script("level".to_string(), "let l = 1".to_string(), "scripts/level.matrix".to_string());
    let s = p.script("level").unwrap();
    assert!(!s.is_dirty);
    assert_eq!(s.file_path, "scripts/level.matrix");
    assert_eq!(p.active_script(), Some("level".to_string()));
}

#[test]
fn editor_changes_and_saving() {
    let mut p = ScriptingPanel::new();
    assert!(p.apply_editor_changes("Main", "let z = 0".to_string(), true, true, 4));
    let s = p.script("Main").unwrap();
    assert_eq!(s.code, "let z = 0");
    assert!(s.auto_save);
    assert_eq!(s.cursor_position, 4);
    assert_eq!(s.file_path, "Main.matrix");
    assert!(p.mark_saved("Main"));
    assert!(!p.script("Main").unwrap().is_dirty);
    assert!(!p.mark_saved("Nope"));
    assert!(!p.apply_editor_changes("Nope", String::new(), false, false, 0));
}

#[test]
fn default_template_has_no_syntax_error() {
    let mut p = ScriptingPanel::new();
    assert!(p.check_syntax("Main"));
    assert!(p.script("Main").unwrap().syntax_errors.is_empty());
}

#[test]
fn syntax_error_is_reported_with_its_line() {
    let mut p = panel_with("Bad", "let a = 1\nlet = 5");
    assert!(p.check_syntax("Bad"));
    let errors = &p.script("Bad").unwrap().syntax_errors;
    assert_eq!(errors.len(), 1);
    assert_eq!(errors[0].line, 2);
    assert_eq!(errors[0].column, 1);
    assert_eq!(errors[0].error_type, ErrorType::Parser);
    assert!(errors[0].message.starts_with("expected an identifier at line 2"));
    assert!(!p.check_syntax("Missing"));
}

#[test]
fn checking_again_clears_fixed_errors() {
    let mut p = panel_with("Fix", "let = 5");
    p.check_syntax("Fix");
    assert_eq!(p.script("Fix").unwrap().syntax_errors.len(), 1);
    p.apply_editor_changes("Fix", "let a = 5".to_string(), false, true, 0);
    p.check_syntax("Fix");
    assert!(p.script("Fix").unwrap().syntax_errors.is_empty());
}

#[test]
fn format_code_trims_drops_blank_lines_and_indents() {
    let mut p = panel_with("F", "let x = 1\n\n  struct A {\nname: Int\n  }\n");
    p.mark_saved("F");
    assert!(p.format_code("F"));
    let s = p.script("F").unwrap();
    assert_eq!(s.code, "    let x = 1\nstruct A {\n    name: Int\n}");
    assert!(s.is_dirty);
    assert!(!p.format_code("Missing"));
}

#[test]
fn formatting_twice_is_formatting_once() {
    let mut p = panel_with("F", " a\n}\n\tb {\n\n c \r\n");
    p.format_code("F");
    let once = p.script("F").unwrap().code.clone();
    p.format_code("F");
    assert_eq!(p.script("F").unwrap().code, once);
}

#[test]
fn format_of_blank_code_is_empty() {
    let mut p = panel_with("E", "  \n\n \t ");
    p.format_code("E");
    assert_eq!(p.script("E").unwrap().code, "");
}

#[test]
fn documentation_lists_comments_functions_and_structs() {
    let mut p = panel_with("Doc", "-- hello\nlet f = (a: Int) => a\nstruct P {\n}\nlet y = 2");
    assert!(p.generate_documentation("Doc"));
    assert_eq!(p.active_script(), Some("Doc_docs".to_string()));
    let d = p.script("Doc_docs").unwrap();
    assert_eq!(
        d.code,
        "# Documentation for Doc\n\nLine 1: -- hello\nFunction found at line 2: let f = (a: Int) => a\nStruct found at line 3: struct P {\n"
    );
    assert_eq!(d.file_path, "Doc_docs.md");
    assert!(d.is_dirty);
    assert!(!p.generate_documentation("Missing"));
}

#[test]
fn documentation_of_the_template_starts_with_its_comments() {
    let mut p = ScriptingPanel::new();
    p.generate_documentation("Main");
    let d = &p.script("Main_docs").unwrap().code;
    assert!(d.starts_with(
        "# Documentation for Main\n\nLine 1: -- Matrix Language Script\nLine 2: -- Welcome to the Matrix Language scripting environment!\nLine 4: -- Basic variables\n"
    ));
    assert!(d.contains("Function found at line 10: let add = (a: Int, b: Int) => a + b\n"));
    assert!(d.contains("Struct found at line 13: struct GameObject {\n"));
}

#[test]
fn running_keeps_the_program_until_taken() {
    let mut p = ScriptingPanel::new();
    assert_eq!(p.run_active_script().map(|r| r.is_ok()), Some(true));
    assert!(p.last_executed_script().is_some());
    let program = p.get_last_executed_script().unwrap();
    assert!(program.items.len() > 5);
    assert!(p.get_last_executed_script().is_none());
}

#[test]
fn running_a_broken_script_returns_the_error() {
    let mut p = panel_with("Bad", "let = 1");
    p.set_active_script("Bad");
    match p.run_active_script() {
        Some(Err(e)) => assert_eq!(e.line, 1),
        other => panic!("expected a parse error, got {:?}", other),
    }
    assert!(p.last_executed_script().is_none());
    p.close_script("Bad");
    p.close_script("Main");
    assert!(p.run_active_script().is_none());
}

#[test]
fn editor_enum_labels() {
    assert_eq!(DisplayMode::Display1.label(), "Display 1");
    assert_eq!(DisplayMode::Custom.label(), "Custom");
    assert_eq!(DockTab::SceneView.title(), "Scene");
    assert_eq!(DockTab::MatrixScript.title(), "Matrix Script");
    assert!(GameObjectType::Sphere.has_default_rigid_body());
    assert!(!GameObjectType::Light.has_default_rigid_body());
    let s = SimpleScriptingPanel::new();
    assert!(s.script_content.starts_with("-- Matrix Language Script\n"));
    assert!(!s.show_help);
}

#[test]
fn file_icons_by_extension() {
    let b = ProjectBrowser::new();
    assert_eq!(b.get_file_icon("main.matrix"), "📜");
    assert_eq!(b.get_file_icon("level.SCENE"), "🎬");
    assert_eq!(b.get_file_icon("photo.png"), "🖼️");
    assert_eq!(b.get_file_icon("lib.rs"), "💻");
    assert_eq!(b.get_file_icon("README"), "📄");
    assert_eq!(b.get_file_icon("archive.zip"), "📄");
}

#[test]
fn file_actions_by_extension() {
    let b = ProjectBrowser::new();
    assert_eq!(b.file_action("a.matrix"), Some(FileAction::ScriptEditor));
    assert_eq!(b.file_action("b.Mtx"), Some(FileAction::ScriptEditor));
    assert_eq!(b.file_action("c.scene"), Some(FileAction::SceneLoader));
    assert_eq!(b.file_action("d.JPG"), Some(FileAction::SystemDefault));
    assert_eq!(b.file_action("e.txt"), Some(FileAction::TextEditor));
    assert_eq!(b.file_action("noext"), None);
}

#[test]
fn size_units_and_skipped_entries() {
    assert_eq!(file_size_unit(0), 0);
    assert_eq!(file_size_unit(1023), 0);
    assert_eq!(file_size_unit(1024), 1);
    assert_eq!(file_size_unit(5 * 1024 * 1024), 2);
    assert_eq!(file_size_unit(u64::MAX), 4);
    assert!(skips_entry(".git"));
    assert!(skips_entry("target"));
    assert!(skips_entry("node_modules"));
    assert!(!skips_entry("src"));
}

#[test]
fn mock_tree_and_filter() {
    let mut b = ProjectBrowser::new();
    b.load_mock_tree(42);
    assert_eq!(b.file_tree.len(), 3);
    assert_eq!(b.file_tree[0].name, "Scenes");
    assert_eq!(b.file_tree[0].children[1].path, "Scenes/PhysicsDemo.scene");
    assert_eq!(b.file_tree[0].children[0].size, Some(1024));
    assert_eq!(b.file_tree[2].children.len(), 3);
    assert_eq!(b.file_tree[1].modified, Some(42));
    b.file_filter = "MAINscene".to_string();
    assert!(b.matches_filter(&b.file_tree[0]));
    assert!(!b.matches_filter(&b.file_tree[2]));
    b.file_filter = String::new();
    assert!(b.matches_filter(&b.file_tree[2]));
    let mut extra: Vec<FileNode> = Vec::new();
    b.add_mock_data(&mut extra, 7);
    assert_eq!(extra.len(), 3);
    assert_eq!(extra[1].children[0].name, "player_controller.matrix");
}

fn node(name: &str, is_directory: bool) -> FileNode {
    FileNode {
        name: name.to_string(),
        path: format!("root/{}", name),
        is_directory,
        children: Vec::new(),
        expanded: false,
        size: None,
        modified: None,
    }
}

#[test]
fn nodes_list_directories_first_then_by_lowercase_name() {
    let mut v = vec![node("b.txt", false), node("Zeta", true), node("A.txt", false), node("alpha", true), node("a.txt", false)];
    sort_nodes(&mut v);
    let names: Vec<&str> = v.iter().map(|n| n.name.as_str()).collect();
    assert_eq!(names, vec!["alpha", "Zeta", "A.txt", "a.txt", "b.txt"]);
    let mut empty: Vec<FileNode> = Vec::new();
    sort_nodes(&mut empty);
    assert!(empty.is_empty());
}
