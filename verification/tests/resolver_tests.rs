use jeditr::resolver::Platform;
use jeditr::resolver::resolve_shell;
use jeditr::window_title;

#[test]
fn posix_uses_shell_variable() {
    let r = resolve_shell(Platform::Posix, Some("/usr/bin/fish".to_string()), None);
    assert_eq!(r.program, "/usr/bin/fish");
    assert!(r.args.is_empty());
}

#[test]
fn posix_falls_back_to_bash() {
    let r = resolve_shell(Platform::Posix, None, Some("ignored".to_string()));
    assert_eq!(r.program, "/bin/bash");
    assert!(r.args.is_empty());
}

#[test]
fn windows_trusts_shell_verbatim() {
    let r = resolve_shell(
        Platform::Windows,
        Some("C:\\tools\\nushell.exe".to_string()),
        Some("C:\\WINDOWS\\system32\\cmd.exe".to_string()),
    );
    assert_eq!(r.program, "C:\\tools\\nushell.exe");
    assert!(r.args.is_empty());
}

#[test]
fn windows_command_shell_stays_open() {
    let r = resolve_shell(
        Platform::Windows,
        None,
        Some("C:\\WINDOWS\\system32\\cmd.exe".to_string()),
    );
    assert_eq!(r.program, "C:\\WINDOWS\\system32\\cmd.exe");
    assert_eq!(r.args, vec!["/K".to_string()]);
}

#[test]
fn windows_interpreter_match_ignores_case() {
    let r = resolve_shell(Platform::Windows, None, Some("D:\\CMD.EXE".to_string()));
    assert_eq!(r.args, vec!["/K".to_string()]);
}

#[test]
fn windows_powershell_interpreter_stays_open() {
    let r = resolve_shell(
        Platform::Windows,
        None,
        Some("C:\\Program Files\\PowerShell\\7\\powershell.exe".to_string()),
    );
    assert_eq!(r.args, vec!["-NoExit".to_string()]);
}

#[test]
fn windows_unknown_interpreter_gets_no_arguments() {
    let r = resolve_shell(Platform::Windows, None, Some("C:\\other\\xonsh.exe".to_string()));
    assert_eq!(r.program, "C:\\other\\xonsh.exe");
    assert!(r.args.is_empty());
}

#[test]
fn windows_defaults_to_powershell() {
    let r = resolve_shell(Platform::Windows, None, None);
    assert_eq!(r.program, "powershell.exe");
    assert_eq!(r.args, vec!["-NoExit".to_string()]);
}

#[test]
fn title_names_the_working_directory() {
    assert_eq!(window_title("/home/me/project"), "jeditr - /home/me/project");
}
