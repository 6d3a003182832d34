use toolpulse::platform::{
    terminal_cd_linux, terminal_cd_windows, terminal_script_macos, trash_script_macos,
    trash_script_windows,
};

#[test]
fn finder_trash_script_escapes_double_quotes() {
    assert_eq!(
        trash_script_macos("/Users/a/my \"old\" app"),
        "tell application \"Finder\" to delete (POSIX file \"/Users/a/my \\\"old\\\" app\")"
    );
    assert_eq!(trash_script_macos("/tmp/x"), "tell application \"Finder\" to delete (POSIX file \"/tmp/x\")");
}

#[test]
fn finder_trash_script_escapes_backslashes_first() {
    // The path /tmp/a\"b: its backslash and its quote are each escaped.
    assert_eq!(
        trash_script_macos("/tmp/a\\\"b"),
        "tell application \"Finder\" to delete (POSIX file \"/tmp/a\\\\\\\"b\")"
    );
    assert_eq!(
        trash_script_macos("C:\\dir\\"),
        "tell application \"Finder\" to delete (POSIX file \"C:\\\\dir\\\\\")"
    );
}

#[test]
fn recycle_bin_script_doubles_single_quotes() {
    assert_eq!(
        trash_script_windows("C:\\Users\\o'neil\\proj"),
        "Add-Type -AssemblyName Microsoft.VisualBasic; [Microsoft.VisualBasic.FileIO.FileSystem]::DeleteDirectory('C:\\Users\\o''neil\\proj', 'OnlyErrorDialogs', 'SendToRecycleBin')"
    );
}

#[test]
fn terminal_scripts() {
    assert_eq!(
        terminal_script_macos("/p/a \"b\""),
        "tell application \"Terminal\"\nactivate\ndo script \"cd '/p/a \\\"b\\\"'\"\nend tell"
    );
    assert_eq!(
        terminal_script_macos("/p/$x\\y"),
        "tell application \"Terminal\"\nactivate\ndo script \"cd '/p/$x\\\\y'\"\nend tell"
    );
    assert_eq!(terminal_cd_linux("/home/a/p"), "cd '/home/a/p'");
    assert_eq!(terminal_cd_windows("C:\\p"), "cd /d \"C:\\p\"");
}

#[test]
fn shell_line_quotes_single_quotes() {
    assert_eq!(terminal_cd_linux("/tmp/a'b"), "cd '/tmp/a'\\''b'");
    assert_eq!(terminal_cd_linux("/tmp/$(rm -rf x)"), "cd '/tmp/$(rm -rf x)'");
    assert_eq!(terminal_script_macos("/tmp/a'b"), "tell application \"Terminal\"\nactivate\ndo script \"cd '/tmp/a'\\\\''b'\"\nend tell");
}
