use myterm::session::{command_output, init_writes, next_sort_order, search_pattern, sh_command, shell_for};

#[test]
fn command_output_prefers_stdout() {
    assert_eq!(command_output("out".to_string(), "err".to_string()), "out");
    assert_eq!(command_output(String::new(), "err".to_string()), "err");
    assert_eq!(command_output(String::new(), String::new()), "");
}

#[test]
fn shells_start_with_init_command_then_path() {
    assert_eq!(
        init_writes(&Some("uptime".to_string()), &Some("/srv".to_string())),
        vec!["uptime\n".to_string(), "cd /srv\n".to_string()]
    );
    assert_eq!(init_writes(&Some(String::new()), &None), Vec::<String>::new());
    assert_eq!(init_writes(&None, &Some("/tmp".to_string())), vec!["cd /tmp\n".to_string()]);
}

#[test]
fn local_shell_choice() {
    assert_eq!(shell_for(Some("zsh".to_string()), true, None), "zsh");
    assert_eq!(shell_for(None, true, Some("/bin/bash".to_string())), "cmd");
    assert_eq!(shell_for(None, false, Some("/bin/bash".to_string())), "/bin/bash");
    assert_eq!(shell_for(None, false, None), "/bin/sh");
}

#[test]
fn sort_positions_and_search_patterns() {
    assert_eq!(next_sort_order(0), 1);
    assert_eq!(next_sort_order(-5), -4);
    assert_eq!(search_pattern("web"), "%web%");
}

#[test]
fn scripts_are_quoted_for_sh() {
    assert_eq!(sh_command("echo 'hi'\r\nuptime"), "sh -c 'echo '\\''hi'\\''\nuptime'");
    assert_eq!(sh_command("ls"), "sh -c 'ls'");
}
