//! Where the plugin keeps its files, and the shell commands that read and
//! write them.
use vstd::prelude::*;
use crate::text::{decimal, push_decimal};

verus! {

/// The directory that holds the plugin's files.
pub open spec fn data_dir_text() -> Seq<char> {
    "${XDG_DATA_HOME:-$HOME/.local/share}/zellij-harpoon"@
}

/// The directory that holds the plugin's files, left for the shell to expand.
pub fn data_dir() -> (r: String)
    ensures
        r@ == data_dir_text(),
{
    String::from_str("${XDG_DATA_HOME:-$HOME/.local/share}/zellij-harpoon")
}

/// `<data dir>/<session><suffix>`.
fn session_file(session: &str, suffix: &str) -> (r: String)
    ensures
        r@ == data_dir_text() + "/"@ + session@ + suffix@,
{
    let mut s = data_dir();
    s.append("/");
    s.append(session);
    s.append(suffix);
    s
}

/// The access-time file of a session.
pub fn timestamps_file(session: &str) -> (r: String)
    ensures
        r@ == data_dir_text() + "/"@ + session@ + "-timestamps.json"@,
{
    session_file(session, "-timestamps.json")
}

/// The debug log of a session.
pub fn log_file(session: &str) -> (r: String)
    ensures
        r@ == data_dir_text() + "/"@ + session@ + "-debug.log"@,
{
    session_file(session, "-debug.log")
}

/// The bookmark file of a session.
pub fn bookmarks_file(session: &str) -> (r: String)
    ensures
        r@ == data_dir_text() + "/"@ + session@ + ".json"@,
{
    session_file(session, ".json")
}

/// `cat <path>`, printing `fallback` when the file cannot be read.
fn cat_or(path: &str, fallback: &str) -> (r: String)
    ensures
        r@ == "cat "@ + path@ + " 2>/dev/null || echo '"@ + fallback@ + "'"@,
{
    let mut s = String::from_str("cat ");
    s.append(path);
    s.append(" 2>/dev/null || echo '");
    s.append(fallback);
    s.append("'");
    s
}

/// Reads a session's access times, or an empty map.
pub fn load_timestamps_command(session: &str) -> (r: String)
    ensures
        r@ == "cat "@ + data_dir_text() + "/"@ + session@ + "-timestamps.json"@ + " 2>/dev/null || echo '"@
            + "{\"entries\":[]}"@ + "'"@,
{
    let path = timestamps_file(session);
    cat_or(path.as_str(), "{\"entries\":[]}")
}

/// The tracker reads a session's access times, or `{}`.
pub fn worker_load_command(session: &str) -> (r: String)
    ensures
        r@ == "cat "@ + data_dir_text() + "/"@ + session@ + "-timestamps.json"@ + " 2>/dev/null || echo '"@ + "{}"@
            + "'"@,
{
    let path = timestamps_file(session);
    cat_or(path.as_str(), "{}")
}

/// Reads a session's bookmarks, or an empty list.
pub fn load_bookmarks_command(session: &str) -> (r: String)
    ensures
        r@ == "cat "@ + data_dir_text() + "/"@ + session@ + ".json"@ + " 2>/dev/null || echo '"@ + "[]"@ + "'"@,
{
    let path = bookmarks_file(session);
    cat_or(path.as_str(), "[]")
}

/// Writes the command's first argument to `path`, creating the directory.
pub fn save_command(path: &str) -> (r: String)
    ensures
        r@ == "mkdir -p "@ + data_dir_text() + " && printf '%s' \"$1\" > "@ + path@,
{
    let mut s = String::from_str("mkdir -p ");
    let d = data_dir();
    s.append(d.as_str());
    s.append(" && printf '%s' \"$1\" > ");
    s.append(path);
    s
}

/// A debug log line: `[<ts>] <msg>`.
pub fn log_line(ts: u64, msg: &str) -> (r: String)
    ensures
        r@ == "["@ + decimal(ts as nat) + "] "@ + msg@,
{
    let mut s = String::from_str("[");
    push_decimal(&mut s, ts);
    s.append("] ");
    s.append(msg);
    s
}

/// Appends `line` to a session's debug log.
pub fn log_command(session: &str, line: &str) -> (r: String)
    ensures
        r@ == "mkdir -p "@ + data_dir_text() + " && echo '"@ + line@ + "' >> "@ + data_dir_text() + "/"@ + session@
            + "-debug.log"@,
{
    let mut s = String::from_str("mkdir -p ");
    let d = data_dir();
    s.append(d.as_str());
    s.append(" && echo '");
    s.append(line);
    s.append("' >> ");
    let f = log_file(session);
    s.append(f.as_str());
    s
}

/// The debug message for a change of focus.
pub fn focus_message(pane_id: u32, tab_name: &str, pane_title: &str, ts: u64) -> (r: String)
    ensures
        r@ == "focus changed: pane_id="@ + decimal(pane_id as nat) + " tab=\""@ + tab_name@ + "\" title=\""@ + pane_title@
            + "\" ts="@ + decimal(ts as nat),
{
    let mut s = String::from_str("focus changed: pane_id=");
    push_decimal(&mut s, pane_id as u64);
    s.append(" tab=\"");
    s.append(tab_name);
    s.append("\" title=\"");
    s.append(pane_title);
    s.append("\" ts=");
    push_decimal(&mut s, ts);
    s
}

} // verus!
