//! The scripts that hand a folder to the operating system: AppleScript for
//! Finder and Terminal, PowerShell for the Recycle Bin, and the shell lines
//! that open a terminal in a folder.
use vstd::prelude::*;

use crate::text::{chars_of, push_char, push_str};

verus! {

/// `s` with every `c` replaced by `rep` (`str::replace` with a char).
pub open spec fn replaced(s: Seq<char>, c: char, rep: Seq<char>) -> Seq<char>
    decreases s.len(),
{
    if s.len() == 0 {
        Seq::empty()
    } else {
        replaced(s.drop_last(), c, rep) + if s.last() == c {
            rep
        } else {
            seq![s.last()]
        }
    }
}

/// Append `s` to `out` with every `c` replaced by `rep`.
fn push_replaced(out: &mut String, s: &str, c: char, rep: &str)
    ensures
        final(out)@ == old(out)@ + replaced(s@, c, rep@),
{
    let v = chars_of(s);
    let ghost start = out@;
    let mut i: usize = 0;
    proof {
        assert(v@.take(0) =~= Seq::<char>::empty());
        assert(start + replaced(v@.take(0), c, rep@) =~= start);
    }
    while i < v.len()
        invariant
            i <= v.len(),
            v@ == s@,
            out@ == start + replaced(v@.take(i as int), c, rep@),
        decreases v.len() - i,
    {
        proof {
            assert(v@.take(i + 1).drop_last() =~= v@.take(i as int));
            assert(v@.take(i + 1).last() == v@[i as int]);
        }
        if v[i] == c {
            push_str(out, rep);
        } else {
            push_char(out, v[i]);
        }
        i = i + 1;
        assert(out@ =~= start + replaced(v@.take(i as int), c, rep@));
    }
    assert(v@.take(v@.len() as int) =~= v@);
}

/// `s` written inside an AppleScript string literal: every backslash, then
/// every double quote, escaped with a backslash.
pub open spec fn applescript_escaped(s: Seq<char>) -> Seq<char> {
    replaced(replaced(s, '\\', "\\\\"@), '"', "\\\""@)
}

/// `s` as one single-quoted POSIX shell word: each `'` closes the quoting,
/// is written escaped, and reopens it.
pub open spec fn shell_quoted(s: Seq<char>) -> Seq<char> {
    "'"@ + replaced(s, '\'', "'\\''"@) + "'"@
}

/// Append `s` to `out`, escaped for an AppleScript string literal.
fn push_applescript_escaped(out: &mut String, s: &str)
    ensures
        final(out)@ == old(out)@ + applescript_escaped(s@),
{
    let mut t = String::new();
    push_replaced(&mut t, s, '\\', "\\\\");
    push_replaced(out, t.as_str(), '"', "\\\"");
}

/// Append `s` to `out` as one single-quoted shell word.
fn push_shell_quoted(out: &mut String, s: &str)
    ensures
        final(out)@ == old(out)@ + shell_quoted(s@),
{
    let ghost start = out@;
    push_str(out, "'");
    push_replaced(out, s, '\'', "'\\''");
    push_str(out, "'");
    assert(out@ =~= start + shell_quoted(s@));
}

/// The AppleScript that moves `path` to the Trash through Finder, the path
/// written as an AppleScript string that reads back as exactly `path`.
pub open spec fn finder_trash_script(path: Seq<char>) -> Seq<char> {
    "tell application \"Finder\" to delete (POSIX file \""@ + applescript_escaped(path) + "\")"@
}

/// The AppleScript that moves a folder to the Trash.
pub fn trash_script_macos(path: &str) -> (r: String)
    ensures
        r@ == finder_trash_script(path@),
{
    let mut r = String::from_str("tell application \"Finder\" to delete (POSIX file \"");
    push_applescript_escaped(&mut r, path);
    push_str(&mut r, "\")");
    r
}

/// The PowerShell command that sends `path` to the Recycle Bin, with the
/// single quotes of the path doubled.
pub open spec fn recycle_script(path: Seq<char>) -> Seq<char> {
    "Add-Type -AssemblyName Microsoft.VisualBasic; [Microsoft.VisualBasic.FileIO.FileSystem]::DeleteDirectory('"@
        + replaced(path, '\'', "''"@) + "', 'OnlyErrorDialogs', 'SendToRecycleBin')"@
}

/// The PowerShell command that sends a folder to the Recycle Bin.
pub fn trash_script_windows(path: &str) -> (r: String)
    ensures
        r@ == recycle_script(path@),
{
    let mut r = String::from_str(
        "Add-Type -AssemblyName Microsoft.VisualBasic; [Microsoft.VisualBasic.FileIO.FileSystem]::DeleteDirectory('",
    );
    push_replaced(&mut r, path, '\'', "''");
    push_str(&mut r, "', 'OnlyErrorDialogs', 'SendToRecycleBin')");
    r
}

/// The shell line that enters `path`: `cd` and the path as one quoted word.
pub open spec fn cd_line(path: Seq<char>) -> Seq<char> {
    "cd "@ + shell_quoted(path)
}

/// The AppleScript that opens Terminal and runs `cd_line(path)` in it, the
/// line written as an AppleScript string that reads back as exactly it.
pub open spec fn terminal_script(path: Seq<char>) -> Seq<char> {
    "tell application \"Terminal\"\nactivate\ndo script \""@ + applescript_escaped(cd_line(path))
        + "\"\nend tell"@
}

/// The AppleScript that opens Terminal in a folder.
pub fn terminal_script_macos(path: &str) -> (r: String)
    ensures
        r@ == terminal_script(path@),
{
    let line = terminal_cd_linux(path);
    let mut r = String::from_str("tell application \"Terminal\"\nactivate\ndo script \"");
    push_applescript_escaped(&mut r, line.as_str());
    push_str(&mut r, "\"\nend tell");
    r
}

/// The shell line a POSIX terminal runs to enter `path`: `cd '<path>'`, with
/// each `'` of the path written as `'\''`.
pub fn terminal_cd_linux(path: &str) -> (r: String)
    ensures
        r@ == cd_line(path@),
{
    let ghost p = path@;
    let mut r = String::from_str("cd ");
    push_shell_quoted(&mut r, path);
    assert(r@ =~= cd_line(p));
    r
}

/// The command line a Windows console runs to enter `path`:
/// `cd /d "<path>"` (a Windows path holds no double quote).
pub fn terminal_cd_windows(path: &str) -> (r: String)
    ensures
        r@ == "cd /d \""@ + path@ + "\""@,
{
    let mut r = String::from_str("cd /d \"");
    push_str(&mut r, path);
    push_str(&mut r, "\"");
    r
}

} // verus!
