use myterm::actions::{
    capture_region, screenshot_file_name,
    conversation_title_at, expand_command_at, log_level,
    rdesktop_target, rdp_settings, replace_text, xfreerdp_args, LogLevel,
};

#[test]
fn quick_command_variables() {
    assert_eq!(
        expand_command_at("ssh ${username}@${host} -p ${port} # ${date} ${time}", "h", 2222, "u", "2024-01-02", "03:04:05"),
        "ssh u@h -p 2222 # 2024-01-02 03:04:05"
    );
    assert_eq!(expand_command_at("echo ${host}${host}", "a", 1, "", "", ""), "echo aa");
    assert_eq!(expand_command_at("plain", "a", 1, "b", "c", "d"), "plain");
    assert_eq!(
        expand_command_at("${port}:${date}T${time}", "h", 22, "u", "+10000-01-02", "03:04:05"),
        "22:+10000-01-02T03:04:05"
    );
}

#[test]
fn replacement_is_left_to_right_and_not_repeated() {
    assert_eq!(replace_text("aaa", "aa", "b"), "ba");
    assert_eq!(replace_text("${host}", "${host}", "${host}"), "${host}");
}

#[test]
fn rdp_defaults_and_arguments() {
    assert_eq!(rdp_settings(None, None, None), (3389, 1280, 800));
    assert_eq!(rdp_settings(Some(1), Some(2), Some(3)), (1, 2, 3));
    assert_eq!(
        xfreerdp_args("win", 1024, 768, &Some("bob".to_string()), &None, &Some("CORP".to_string())),
        vec!["/v:win", "/w:1024", "/h:768", "/u:bob", "/d:CORP"]
    );
    assert_eq!(rdesktop_target("win", 3389), "win:3389");
}

#[test]
fn conversation_titles() {
    assert_eq!(conversation_title_at(Some("Mine".to_string()), "2024-01-02 03:04"), "Mine");
    assert_eq!(conversation_title_at(None, "2024-01-02 03:04"), "Conversation 2024-01-02 03:04");
}

#[test]
fn log_levels() {
    assert!(matches!(log_level(None), LogLevel::Info));
    assert!(matches!(log_level(Some("WARNING".to_string())), LogLevel::Warn));
    assert!(matches!(log_level(Some("Off".to_string())), LogLevel::Off));
    assert!(matches!(log_level(Some("trace".to_string())), LogLevel::Trace));
    assert!(matches!(log_level(Some("verbose".to_string())), LogLevel::Info));
}


#[test]
fn screenshot_names_and_regions() {
    assert_eq!(screenshot_file_name("20240102_030405"), "screenshot_20240102_030405.png");
    assert_eq!(capture_region(10, -20, 800, 600), "10,-20,800,600");
    assert_eq!(capture_region(i32::MIN, 0, 0, u32::MAX), "-2147483648,0,0,4294967295");
}

#[test]
fn windows_capture_script() {
    let script = myterm::actions::capture_script(-5, 7, "C:\\shots\\a.png");
    assert_eq!(
        script,
        "Add-Type -AssemblyName System.Windows.Forms; \
         $screen = [System.Windows.Forms.Screen]::FromPoint([System.Drawing.Point]::new(-5, 7)); \
         $bitmap = New-Object System.Drawing.Bitmap($screen.Bounds.Width, $screen.Bounds.Height); \
         $graphics = [System.Drawing.Graphics]::FromImage($bitmap); \
         $graphics.CopyFromScreen($screen.Bounds.Location, [System.Drawing.Point]::Empty, $screen.Bounds.Size); \
         $bitmap.Save('C:\\\\shots\\\\a.png'); \
         $graphics.Dispose(); $bitmap.Dispose()"
    );
}
