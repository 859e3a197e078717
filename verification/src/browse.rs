use vstd::prelude::*;
use vstd::string::*;
use crate::names::{
    spec_contains, spec_is_entry_name, join_path, strip_path, contains_str, is_entry_name,
    child_path, strip_components,
};

verus! {

/// What the program does, from its command-line arguments.
pub enum Mode {
    /// `-h`: print the usage text and stop.
    Help,
    /// `--server`: run the server, then the browser.
    Server,
    /// Anything else: run the browser.
    Browse,
}

/// What the path line asks for when a path is submitted.
pub enum PathAction {
    /// Show the entry at `entry_path`, after moving to `folder`.
    ShowEntry { entry_path: String, folder: String },
    /// Go up to `folder` and show its path in the path line.
    Leave { folder: String },
    /// Move to `folder`.
    Enter { folder: String },
}

/// What choosing an item of the folder list asks for.
pub enum Selected {
    /// Show the entry at `path`.
    Entry { path: String },
    /// Move to the folder at `path`.
    Folder { path: String },
}

/// What choosing `.` or `..` above the folder list asks for.
pub enum MenuAction {
    /// Put the path of the folder being shown in the path line.
    ShowPosition,
    /// Go up to `folder`.
    Leave { folder: String },
}

/// `..`: the step up.
pub open spec fn up_mark() -> Seq<char> {
    seq!['.', '.']
}

pub open spec fn help_flag() -> Seq<char> {
    seq!['-', 'h']
}

pub open spec fn server_flag() -> Seq<char> {
    seq!['-', '-', 's', 'e', 'r', 'v', 'e', 'r']
}

/// The mode the arguments ask for (the first argument is the program).
pub open spec fn spec_mode(args: Seq<Seq<char>>) -> Mode {
    if args.len() > 1 && args[1] == help_flag() {
        Mode::Help
    } else if args.len() > 1 && args[1] == server_flag() {
        Mode::Server
    } else {
        Mode::Browse
    }
}

fn up_mark_str() -> (m: &'static str)
    ensures
        m@ == up_mark(),
{
    let m: &'static str = "..";
    proof {
        reveal_strlit("..");
    }
    assert(m@ =~= up_mark());
    m
}

/// Reads the mode from the command-line arguments.
pub fn mode_of(args: &Vec<String>) -> (m: Mode)
    ensures
        m == spec_mode(args@.map_values(|a: String| a@)),
{
    let ghost views = args@.map_values(|a: String| a@);
    if args.len() > 1 {
        let h: &'static str = "-h";
        let s: &'static str = "--server";
        proof {
            reveal_strlit("-h");
            reveal_strlit("--server");
            assert(h@ =~= help_flag());
            assert(s@ =~= server_flag());
            assert(views[1] == args@[1]@);
        }
        if args[1] == String::from_str(h) {
            return Mode::Help;
        } else if args[1] == String::from_str(s) {
            return Mode::Server;
        }
    }
    Mode::Browse
}

/// What submitting `path` in the path line does: a path naming an entry
/// shows it, or, with `..` in it, goes up three components; any other path
/// with `..` goes up two components; any other path is moved to.
pub fn path_action(path: &str) -> (a: PathAction)
    ensures
        spec_is_entry_name(path@) && spec_contains(path@, up_mark())
            ==> (a matches PathAction::Leave { folder } && folder@ == strip_path(path@, 3)),
        spec_is_entry_name(path@) && !spec_contains(path@, up_mark())
            ==> (a matches PathAction::ShowEntry { entry_path, folder } && entry_path@ == path@
                && folder@ == strip_path(path@, 1)),
        !spec_is_entry_name(path@) && spec_contains(path@, up_mark())
            ==> (a matches PathAction::Leave { folder } && folder@ == strip_path(path@, 2)),
        !spec_is_entry_name(path@) && !spec_contains(path@, up_mark())
            ==> (a matches PathAction::Enter { folder } && folder@ == path@),
{
    let up: bool = contains_str(path, up_mark_str());
    if is_entry_name(path) {
        if up {
            PathAction::Leave { folder: strip_components(path, 3) }
        } else {
            PathAction::ShowEntry { entry_path: String::from_str(path), folder: strip_components(path, 1) }
        }
    } else if up {
        PathAction::Leave { folder: strip_components(path, 2) }
    } else {
        PathAction::Enter { folder: String::from_str(path) }
    }
}

/// What choosing the item `name` of the folder at `position` does.
pub fn select(position: &str, name: &str) -> (s: Selected)
    ensures
        spec_is_entry_name(name@) ==> (s matches Selected::Entry { path } && path@ == join_path(position@, name@)),
        !spec_is_entry_name(name@) ==> (s matches Selected::Folder { path } && path@ == join_path(position@, name@)),
{
    let path: String = child_path(position, name);
    if is_entry_name(name) {
        Selected::Entry { path }
    } else {
        Selected::Folder { path }
    }
}

/// What choosing `item` (`.` or `..`) above the folder list does: with `..`
/// in it, go up one component from `position`; otherwise show `position`.
pub fn menu_action(position: &str, item: &str) -> (a: MenuAction)
    ensures
        spec_contains(item@, up_mark()) ==> (a matches MenuAction::Leave { folder }
            && folder@ == strip_path(position@, 1)),
        !spec_contains(item@, up_mark()) ==> a is ShowPosition,
{
    if contains_str(item, up_mark_str()) {
        MenuAction::Leave { folder: strip_components(position, 1) }
    } else {
        MenuAction::ShowPosition
    }
}

} // verus!
