//! The notes that the companion remembers: an ordered list of texts and the
//! time of the last save, kept as a JSON object in a file in the user's home
//! directory.
//!
//! Reading and writing the file, and reading the clock, is left to the
//! caller. This module decides where the file lies, what a file's text
//! means, and what is to be written.

use crate::text::{
    chars_of, decimal, decimal_text, lemma_texts_push, opt_text, opt_view, same_texts, texts,
};
use vstd::prelude::*;

verus! {

/// The remembered notes.
#[derive(Debug, PartialEq, Eq)]
pub struct Memory {
    /// The notes, in the order in which they were remembered.
    pub data: Vec<String>,
    /// When the notes were last saved, as an RFC 3339 time.
    pub last_updated: String,
}

/// The remembered notes as plain mathematical values.
#[verifier::ext_equal]
pub struct MemoryView {
    pub data: Seq<Seq<char>>,
    pub last_updated: Seq<char>,
}

impl View for Memory {
    type V = MemoryView;

    open spec fn view(&self) -> MemoryView {
        MemoryView { data: texts(self.data@), last_updated: self.last_updated@ }
    }
}

/// A reading of the clock: the seconds since the beginning of 1970, in
/// universal time, and the nanoseconds since the last full second.
#[derive(Clone, Copy, Debug, PartialEq, Eq, Structural)]
pub struct Moment {
    pub secs: i64,
    pub nanos: u32,
}

/// The RFC 3339 text that `chrono` writes for the time `secs` seconds and
/// `nanos` nanoseconds after the beginning of 1970, in universal time;
/// `None` where `chrono` has no such time.
pub uninterp spec fn rfc3339_text(secs: int, nanos: int) -> Option<Seq<char>>;

impl Moment {
    /// The moment as an RFC 3339 text, where it has one.
    pub open spec fn text(self) -> Option<Seq<char>> {
        rfc3339_text(self.secs as int, self.nanos as int)
    }
}

/// The text that `serde_json` writes, pretty-printed, for the JSON object
/// with the two members `list_key`, an array of the strings `list`, and
/// `text_key`, the string `text`; `None` where it writes none.
pub uninterp spec fn pretty_record_text(
    list_key: Seq<char>,
    list: Seq<Seq<char>>,
    text_key: Seq<char>,
    text: Seq<char>,
) -> Option<Seq<char>>;

/// What `serde_json` reads from `json` as a JSON object whose member
/// `list_key` is an array of strings and whose member `text_key` is a
/// string: the two values, or `None` where `json` is no such object.
pub uninterp spec fn parsed_record(json: Seq<char>, list_key: Seq<char>, text_key: Seq<char>)
    -> Option<(Seq<Seq<char>>, Seq<char>)>;

/// Calls `dirs::home_dir`, which asks the environment and the system for the
/// user's home directory. The answer can be anything, or missing, so nothing
/// is claimed of it. A home directory whose path is not valid Unicode is
/// reported as missing.
#[verifier::external_body]
fn home_directory() -> (home: Option<String>) {
    match dirs::home_dir() {
        Some(path) => path.into_os_string().into_string().ok(),
        None => None,
    }
}

/// Makes the time with `chrono::DateTime::from_timestamp`, which gives
/// `None` for seconds or nanoseconds out of its range, and writes it with
/// `chrono::DateTime::to_rfc3339`. The text depends on the two numbers
/// alone; the contract gives it its name and claims nothing else of it.
#[verifier::external_body]
fn write_time(secs: i64, nanos: u32) -> (out: Option<String>)
    ensures
        opt_view(out) == rfc3339_text(secs as int, nanos as int),
{
    match chrono::DateTime::from_timestamp(secs, nanos) {
        Some(time) => Some(time.to_rfc3339()),
        None => None,
    }
}

/// Builds the JSON object `{ list_key: list, text_key: text }` as a
/// `serde_json::Value` and writes it with `serde_json::to_string_pretty`.
/// The text depends on the four arguments alone; the contract gives it its
/// name and claims nothing else of it.
#[verifier::external_body]
fn write_record(list_key: &str, list: &Vec<String>, text_key: &str, text: &str) -> (out: Option<
    String,
>)
    ensures
        match out {
            Some(json) => pretty_record_text(list_key@, texts(list@), text_key@, text@) == Some(
                json@,
            ),
            None => pretty_record_text(list_key@, texts(list@), text_key@, text@) is None,
        },
{
    let mut object = serde_json::Map::new();
    object.insert(list_key.to_string(), serde_json::Value::from(list.clone()));
    object.insert(text_key.to_string(), serde_json::Value::from(text));
    serde_json::to_string_pretty(&serde_json::Value::Object(object)).ok()
}

/// Reads `json` with `serde_json::from_str` as a JSON object, and its
/// members `list_key` and `text_key` with `serde_json::from_value` as a list
/// of strings and a string. Whatever fails, a syntax error, a missing member
/// or a member of another type, gives `None`. The result depends on the
/// three arguments alone; the contract gives it its name and claims nothing
/// else of it.
#[verifier::external_body]
fn read_record(json: &str, list_key: &str, text_key: &str) -> (out: Option<(Vec<String>, String)>)
    ensures
        match out {
            Some(found) => parsed_record(json@, list_key@, text_key@) == Some(
                (texts(found.0@), found.1@),
            ),
            None => parsed_record(json@, list_key@, text_key@) is None,
        },
{
    let mut object = serde_json::from_str::<serde_json::Map<String, serde_json::Value>>(json).ok()?;
    let list = serde_json::from_value::<Vec<String>>(object.remove(list_key)?).ok()?;
    let text = serde_json::from_value::<String>(object.remove(text_key)?).ok()?;
    Some((list, text))
}

/// The path of `name` in the directory `base`: the two joined by a slash,
/// unless `base` is empty or ends with one.
pub open spec fn joined(base: Seq<char>, name: Seq<char>) -> Seq<char> {
    if base.len() == 0 || base.last() == '/' {
        base + name
    } else {
        base + "/"@ + name
    }
}

/// Where the notes are kept, for a home directory `home`.
pub open spec fn memory_path(home: Seq<char>) -> Seq<char> {
    joined(home, ".coffee_break_memory.json"@)
}

/// Where the notes are kept, for what the system reports as the home
/// directory: in that directory, or nowhere where it reports none.
pub open spec fn path_under(home: Option<Seq<char>>) -> Option<Seq<char>> {
    match home {
        Some(dir) => Some(memory_path(dir)),
        None => None,
    }
}

/// What a file's text says of the notes: the notes and the time it holds, or
/// `None` where it is not a JSON object with an array of strings `data` and
/// a string `last_updated`.
pub open spec fn record_in(json: Seq<char>) -> Option<(Seq<Seq<char>>, Seq<char>)> {
    parsed_record(json, "data"@, "last_updated"@)
}

/// The file's text for the notes `data` saved at `last_updated`.
pub open spec fn file_text(notes: MemoryView) -> Option<Seq<char>> {
    pretty_record_text("data"@, notes.data, "last_updated"@, notes.last_updated)
}

/// No notes, as of the time `stamp`.
pub open spec fn no_notes(stamp: Seq<char>) -> MemoryView {
    MemoryView { data: Seq::empty(), last_updated: stamp }
}

/// The notes that are loaded from what was read of the file, `raw`, at the
/// time `stamp`: what the file holds, or, where there is no file or it cannot
/// be understood, no notes and the time of loading.
pub open spec fn loaded(raw: Option<Seq<char>>, stamp: Seq<char>) -> MemoryView {
    match raw {
        Some(json) => match record_in(json) {
            Some(found) => MemoryView { data: found.0, last_updated: found.1 },
            None => no_notes(stamp),
        },
        None => no_notes(stamp),
    }
}

/// The view of notes that may be missing.
pub open spec fn opt_notes(notes: Option<Memory>) -> Option<MemoryView> {
    match notes {
        Some(held) => Some(held@),
        None => None,
    }
}

/// The line that shows the note at position `index`.
pub open spec fn listing_line(index: nat, note: Seq<char>) -> Seq<char> {
    decimal(index) + " "@ + note
}

/// The notes, one line each, numbered from zero.
pub open spec fn listing_of(data: Seq<Seq<char>>) -> Seq<Seq<char>> {
    Seq::new(data.len(), |i: int| listing_line(i as nat, data[i]))
}

/// The notes after a save at the time `stamp`: the same notes, with that
/// time.
pub open spec fn saved_at(notes: MemoryView, stamp: Seq<char>) -> MemoryView {
    MemoryView { data: notes.data, last_updated: stamp }
}

/// The notes after saves at the times `stamps`, one after the other.
pub open spec fn after_saves(notes: MemoryView, stamps: Seq<Seq<char>>) -> MemoryView
    decreases stamps.len(),
{
    if stamps.len() == 0 {
        notes
    } else {
        saved_at(after_saves(notes, stamps.drop_last()), stamps.last())
    }
}

/// The time of the last save follows the clock: after each save it is the
/// time that the clock gave for it. So as long as the clock does not go
/// back, however its readings are compared, the time of the last save does
/// not go back from one save to the next.
pub proof fn law_last_updated_follows_the_clock(
    notes: MemoryView,
    stamps: Seq<Seq<char>>,
    reading: spec_fn(Seq<char>) -> int,
    earlier: int,
    later: int,
)
    requires
        0 <= earlier <= later < stamps.len(),
        forall|i: int, j: int|
            0 <= i <= j < stamps.len() ==> reading(#[trigger] stamps[i]) <= reading(
                #[trigger] stamps[j],
            ),
    ensures
        after_saves(notes, stamps.take(later + 1)).last_updated == stamps[later],
        after_saves(notes, stamps.take(later + 1)).data == notes.data,
        reading(after_saves(notes, stamps.take(earlier + 1)).last_updated) <= reading(
            after_saves(notes, stamps.take(later + 1)).last_updated,
        ),
{
    lemma_after_saves(notes, stamps.take(earlier + 1));
    lemma_after_saves(notes, stamps.take(later + 1));
}

/// After at least one save the time is that of the last one, and the notes
/// are as they were.
pub proof fn lemma_after_saves(notes: MemoryView, stamps: Seq<Seq<char>>)
    ensures
        after_saves(notes, stamps).data == notes.data,
        stamps.len() > 0 ==> after_saves(notes, stamps).last_updated == stamps.last(),
    decreases stamps.len(),
{
    if stamps.len() > 0 {
        lemma_after_saves(notes, stamps.drop_last());
    }
}

/// The text that a save of `notes` hands out: the file's text for them,
/// where there is one and it is read back as the same notes and time.
pub open spec fn saved_text(notes: MemoryView) -> Option<Seq<char>> {
    match file_text(notes) {
        Some(json) => if record_in(json) == Some((notes.data, notes.last_updated)) {
            Some(json)
        } else {
            None
        },
        None => None,
    }
}

/// Notes come back as they were saved: load, save and load again gives the
/// notes of the first load. Whatever was read of the file, `raw`, a save of
/// what was loaded from it leaves the notes as they are, and the text that
/// it hands out loads as the same notes with the time of the save.
pub proof fn law_saved_notes_load_again(
    raw: Option<Seq<char>>,
    at_load: Seq<char>,
    at_save: Seq<char>,
    at_reload: Seq<char>,
)
    ensures
        saved_at(loaded(raw, at_load), at_save).data == loaded(raw, at_load).data,
        saved_text(saved_at(loaded(raw, at_load), at_save)) matches Some(json) ==> loaded(
            Some(json),
            at_reload,
        ) == saved_at(loaded(raw, at_load), at_save),
{
}

impl Memory {
    /// Where the notes are kept, for the home directory `home`.
    pub fn path_in(home: &str) -> (path: String)
        ensures
            path@ == memory_path(home@),
    {
        let v = chars_of(home);
        let mut path = home.to_owned();
        if v.len() > 0 && v[v.len() - 1] != '/' {
            path.append("/");
        }
        path.append(".coffee_break_memory.json");
        path
    }

    /// Where the notes are kept: in the user's home directory, or nowhere
    /// where the user has none. The home directory is whatever the system
    /// reports.
    pub fn path() -> (path: Option<String>)
        ensures
            path matches Some(p) ==> exists|home: Seq<char>| p@ == memory_path(home),
    {
        let home = home_directory();
        let path = Memory::path_from(&home);
        proof {
            if let Some(dir) = home {
                assert(path->0@ == memory_path(dir@));
            }
        }
        path
    }

    /// Where the notes are kept, for what was reported as the home
    /// directory: the file in that directory, or nowhere where none was
    /// reported.
    pub fn path_from(home: &Option<String>) -> (path: Option<String>)
        ensures
            opt_view(path) == path_under(opt_view(*home)),
    {
        match home {
            Some(dir) => Some(Memory::path_in(dir.as_str())),
            None => None,
        }
    }

    /// The RFC 3339 text of a reading of the clock, where it has one.
    pub fn stamp(now: Moment) -> (text: Option<String>)
        ensures
            opt_view(text) == now.text(),
    {
        write_time(now.secs, now.nanos)
    }

    /// No notes, as of the time `stamp`.
    pub fn empty_at(stamp: String) -> (notes: Memory)
        ensures
            notes@ == no_notes(stamp@),
    {
        let notes = Memory { data: Vec::new(), last_updated: stamp };
        assert(notes@ =~= no_notes(stamp@));
        notes
    }

    /// No notes, as of the moment `now`; none where the moment cannot be
    /// written as a time.
    pub fn empty(now: Moment) -> (notes: Option<Memory>)
        ensures
            opt_notes(notes) == match now.text() {
                Some(stamp) => Some(no_notes(stamp)),
                None => None,
            },
    {
        match Memory::stamp(now) {
            Some(stamp) => Some(Memory::empty_at(stamp)),
            None => None,
        }
    }

    /// The notes that what was read of the file gives, at the time `stamp`:
    /// `raw` is the file's text, or `None` where there is no file or it could
    /// not be read.
    pub fn load_at(raw: Option<&str>, stamp: String) -> (notes: Memory)
        ensures
            notes@ == loaded(opt_text(raw), stamp@),
    {
        match raw {
            Some(json) => match read_record(json, "data", "last_updated") {
                Some(found) => {
                    let notes = Memory { data: found.0, last_updated: found.1 };
                    assert(notes@ =~= (MemoryView {
                        data: texts(found.0@),
                        last_updated: found.1@,
                    }));
                    notes
                },
                None => Memory::empty_at(stamp),
            },
            None => Memory::empty_at(stamp),
        }
    }

    /// The notes that what was read of the file gives, at the moment `now`:
    /// what the file holds, or no notes as of `now` where there is no file
    /// or it cannot be understood. There are none where the moment cannot be
    /// written as a time.
    pub fn load(raw: Option<&str>, now: Moment) -> (notes: Option<Memory>)
        ensures
            opt_notes(notes) == match now.text() {
                Some(stamp) => Some(loaded(opt_text(raw), stamp)),
                None => None,
            },
    {
        match Memory::stamp(now) {
            Some(stamp) => Some(Memory::load_at(raw, stamp)),
            None => None,
        }
    }

    /// Marks the notes as saved at the time `stamp` and gives the text to
    /// write to the file. The text is read back before it is handed out, so
    /// that what is written is known to load as these notes; where no text
    /// can be made, or it reads back otherwise, there is nothing to write and
    /// the file stays as it is.
    pub fn save_at(&mut self, stamp: String) -> (json: Option<String>)
        ensures
            final(self)@ == saved_at(old(self)@, stamp@),
            opt_view(json) == saved_text(final(self)@),
    {
        self.last_updated = stamp;
        match write_record("data", &self.data, "last_updated", self.last_updated.as_str()) {
            Some(text) => match read_record(text.as_str(), "data", "last_updated") {
                Some(back) => {
                    if same_texts(&back.0, &self.data) && back.1 == self.last_updated {
                        Some(text)
                    } else {
                        None
                    }
                },
                None => None,
            },
            None => None,
        }
    }

    /// Marks the notes as saved at the moment `now` and gives the text to
    /// write to the file. The notes themselves do not change. Where the
    /// moment cannot be written as a time, nothing changes and there is
    /// nothing to write.
    pub fn save(&mut self, now: Moment) -> (json: Option<String>)
        ensures
            match now.text() {
                Some(stamp) => final(self)@ == saved_at(old(self)@, stamp) && opt_view(json)
                    == saved_text(final(self)@),
                None => final(self)@ == old(self)@ && json is None,
            },
    {
        match Memory::stamp(now) {
            Some(stamp) => self.save_at(stamp),
            None => None,
        }
    }

    /// Adds `note` after the notes already held, saves at the moment `now`,
    /// and gives the text to write to the file.
    pub fn remember(&mut self, note: String, now: Moment) -> (json: Option<String>)
        ensures
            match now.text() {
                Some(stamp) => final(self)@ == saved_at(
                    MemoryView { data: old(self)@.data.push(note@), ..old(self)@ },
                    stamp,
                ) && opt_view(json) == saved_text(final(self)@),
                None => final(self)@ == (MemoryView {
                    data: old(self)@.data.push(note@),
                    ..old(self)@
                }) && json is None,
            },
    {
        proof {
            lemma_texts_push(self.data@, note);
        }
        self.data.push(note);
        self.save(now)
    }

    /// The notes, one line each, numbered from zero in the order in which
    /// they were remembered.
    pub fn listing(&self) -> (lines: Vec<String>)
        ensures
            texts(lines@) == listing_of(self@.data),
    {
        let mut lines: Vec<String> = Vec::new();
        let mut i: usize = 0;
        while i < self.data.len()
            invariant
                i <= self.data.len(),
                texts(lines@) == listing_of(self@.data).take(i as int),
            decreases self.data.len() - i,
        {
            let mut line = decimal_text(i as u64);
            line.append(" ");
            line.append(self.data[i].as_str());
            proof {
                lemma_texts_push(lines@, line);
            }
            lines.push(line);
            i += 1;
            assert(texts(lines@) =~= listing_of(self@.data).take(i as int));
        }
        assert(listing_of(self@.data).take(self.data.len() as int) =~= listing_of(self@.data));
        lines
    }
}

} // verus!
