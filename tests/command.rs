use cmdchain::command::{join_args, App};
use cmdchain::output::split_tokens;

fn strings(v: &[&str]) -> Vec<String> {
    v.iter().map(|s| s.to_string()).collect()
}

#[test]
fn join_args_uses_single_spaces() {
    assert_eq!(join_args(&strings(&["pacman", "--noconfirm", "-Syu"])), "pacman --noconfirm -Syu");
}

#[test]
fn join_args_of_nothing_is_empty() {
    assert_eq!(join_args(&Vec::new()), "");
}

#[test]
fn join_args_of_one_is_that_argument() {
    assert_eq!(join_args(&strings(&["-Qtdq"])), "-Qtdq");
}

#[test]
fn display_is_program_then_arguments() {
    let app = App::new("echo".to_string(), strings(&["hello"]));
    assert_eq!(app.display(), "echo hello");
}

#[test]
fn display_without_arguments_keeps_separator() {
    let app = App::new("brew".to_string(), Vec::new());
    assert_eq!(app.display(), "brew ");
}

#[test]
fn new_keeps_program_and_arguments() {
    let app = App::new("sudo".to_string(), strings(&["pacman", "-Rns"]));
    assert_eq!(app.command, "sudo");
    assert_eq!(app.args, strings(&["pacman", "-Rns"]));
}

#[test]
fn split_drops_trailing_empty_line() {
    assert_eq!(split_tokens("pkgA\npkgB\n"), strings(&["pkgA", "pkgB"]));
}

#[test]
fn split_without_final_line_feed() {
    assert_eq!(split_tokens("pkgA\npkgB"), strings(&["pkgA", "pkgB"]));
}

#[test]
fn split_drops_blank_lines_in_between() {
    assert_eq!(split_tokens("a\n\n\nb\n"), strings(&["a", "b"]));
}

#[test]
fn split_of_empty_text_is_empty() {
    assert_eq!(split_tokens(""), Vec::<String>::new());
}

#[test]
fn split_of_blank_lines_is_empty() {
    assert_eq!(split_tokens("\n\n"), Vec::<String>::new());
}

#[test]
fn split_keeps_spaces_and_non_ascii() {
    assert_eq!(split_tokens("a b\nçé\n"), strings(&["a b", "çé"]));
}
