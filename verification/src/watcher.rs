//! The watch over a folder: how it is set up and what is printed for a
//! change.

use vstd::prelude::*;

verus! {

/// How often a watcher that polls looks at the folder, in milliseconds.
pub const POLL_INTERVAL_MILLIS: u64 = 200;

/// How a folder is to be watched.
#[derive(Debug, PartialEq, Eq)]
pub struct WatchPlan {
    /// The folder at the root of the watch.
    pub folder: String,
    /// Whether what lies below the folder is watched too.
    pub recursive: bool,
    /// The time between two looks of a watcher that polls, in milliseconds.
    pub poll_interval_millis: u64,
}

/// A change that was reported: the paths that it touches.
#[derive(Debug, PartialEq, Eq)]
pub struct WatchEvent {
    pub paths: Vec<String>,
}

/// The line for a change of `path`.
pub open spec fn change_line(path: Seq<char>) -> Seq<char> {
    "\u{1F4C2} File changed: "@ + path
}

/// The line for what the watch reported: for a change, the line of its first
/// path; nothing for a change without paths or a report that is no change.
pub open spec fn event_line(event: Option<WatchEvent>) -> Option<Seq<char>> {
    match event {
        Some(change) => if change.paths@.len() > 0 {
            Some(change_line(change.paths@[0]@))
        } else {
            None
        },
        None => None,
    }
}

/// How `folder` is to be watched: with all that lies below it, and looked at
/// every 200 milliseconds where the watcher polls.
pub fn watch_folder(folder: &str) -> (plan: WatchPlan)
    ensures
        plan.folder@ == folder@,
        plan.recursive,
        plan.poll_interval_millis == POLL_INTERVAL_MILLIS,
{
    WatchPlan {
        folder: folder.to_owned(),
        recursive: true,
        poll_interval_millis: POLL_INTERVAL_MILLIS,
    }
}

/// The line to print for what the watch reported: `event` is the change, or
/// `None` where the report was an error.
pub fn describe_event(event: &Option<WatchEvent>) -> (line: Option<String>)
    ensures
        match line {
            Some(text) => event_line(*event) == Some(text@),
            None => event_line(*event) is None,
        },
{
    match event {
        Some(change) => {
            if change.paths.len() > 0 {
                let mut line = "\u{1F4C2} File changed: ".to_owned();
                line.append(change.paths[0].as_str());
                Some(line)
            } else {
                None
            }
        },
        None => None,
    }
}

} // verus!
