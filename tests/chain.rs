use cmdchain::chain::{chained_command, chained_command_from_output};
use cmdchain::command::App;

fn strings(v: &[&str]) -> Vec<String> {
    v.iter().map(|s| s.to_string()).collect()
}

fn remove() -> App {
    App::new("sudo".to_string(), strings(&["pacman", "--noconfirm", "-Rns"]))
}

#[test]
fn empty_output_never_runs_second() {
    assert!(chained_command_from_output(&remove(), b"").is_none());
}

#[test]
fn empty_text_never_runs_second() {
    assert!(chained_command(&remove(), "").is_none());
}

#[test]
fn output_lines_are_appended_in_order() {
    let r = chained_command_from_output(&remove(), b"pkgA\npkgB\n").unwrap();
    assert_eq!(r.command, "sudo");
    assert_eq!(r.args, strings(&["pacman", "--noconfirm", "-Rns", "pkgA", "pkgB"]));
}

#[test]
fn second_is_left_unchanged() {
    let second = remove();
    let _ = chained_command_from_output(&second, b"pkgA\n").unwrap();
    assert_eq!(second.args, strings(&["pacman", "--noconfirm", "-Rns"]));
}

#[test]
fn single_blank_line_runs_second_with_no_added_arguments() {
    let r = chained_command_from_output(&remove(), b"\n").unwrap();
    assert_eq!(r.command, "sudo");
    assert_eq!(r.args, strings(&["pacman", "--noconfirm", "-Rns"]));
}

#[test]
fn invalid_byte_is_replaced_not_fatal() {
    let r = chained_command_from_output(&remove(), &[b'a', 0xFF, b'\n', b'b']).unwrap();
    assert_eq!(r.args, strings(&["pacman", "--noconfirm", "-Rns", "a\u{FFFD}", "b"]));
}

#[test]
fn lone_invalid_byte_becomes_replacement_character() {
    let r = chained_command_from_output(&App::new("rm".to_string(), Vec::new()), &[0xC3]).unwrap();
    assert_eq!(r.args, strings(&["\u{FFFD}"]));
}

#[test]
fn valid_multibyte_output_is_decoded() {
    let r = chained_command_from_output(&App::new("rm".to_string(), Vec::new()), "é\n".as_bytes()).unwrap();
    assert_eq!(r.args, strings(&["é"]));
}

#[test]
fn chained_from_text_appends_tokens() {
    let r = chained_command(&App::new("rm".to_string(), strings(&["-f"])), "x\ny").unwrap();
    assert_eq!(r.command, "rm");
    assert_eq!(r.args, strings(&["-f", "x", "y"]));
}
