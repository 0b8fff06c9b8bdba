//! The vocabulary of the prompt: what a line that the user typed asks for.

use crate::memory::listing_of;
use crate::text::{has_prefix, skip_chars, starts_with, trim, trimmed};
use vstd::prelude::*;

verus! {

/// The prompt that is written before each line is read.
pub const PROMPT: &'static str = "coffee> ";

/// What a line asks for.
#[derive(Debug, PartialEq, Eq)]
pub enum Command {
    /// Say goodbye and leave.
    Bye,
    /// Remember this note.
    Remember(String),
    /// Show the notes.
    Mem,
    /// Explain this topic.
    Explain(String),
    /// Summarise the project in the current directory.
    Insight,
    /// Start the coffee dance.
    Coffee,
    /// Show the help page.
    Help,
    /// Hand this command to the shell.
    Shell(String),
}

/// A `Command` as plain mathematical values.
pub enum CommandView {
    Bye,
    Remember(Seq<char>),
    Mem,
    Explain(Seq<char>),
    Insight,
    Coffee,
    Help,
    Shell(Seq<char>),
}

impl View for Command {
    type V = CommandView;

    open spec fn view(&self) -> CommandView {
        match self {
            Command::Bye => CommandView::Bye,
            Command::Remember(note) => CommandView::Remember(note@),
            Command::Mem => CommandView::Mem,
            Command::Explain(topic) => CommandView::Explain(topic@),
            Command::Insight => CommandView::Insight,
            Command::Coffee => CommandView::Coffee,
            Command::Help => CommandView::Help,
            Command::Shell(cmd) => CommandView::Shell(cmd@),
        }
    }
}

/// What follows the first `n` characters of `s`.
pub open spec fn after(s: Seq<char>, n: nat) -> Seq<char> {
    s.subrange(n as int, s.len() as int)
}

/// What the line asks for. The white space around it does not count; of the
/// forms below the first that fits decides, and a line of no other form,
/// the empty one too, goes to the shell.
pub open spec fn command_of(line: Seq<char>) -> CommandView {
    let cmd = trimmed(line);
    if cmd == "bye"@ {
        CommandView::Bye
    } else if starts_with(cmd, "remember "@) {
        CommandView::Remember(after(cmd, "remember "@.len()))
    } else if cmd == "mem"@ {
        CommandView::Mem
    } else if starts_with(cmd, "explain "@) {
        CommandView::Explain(after(cmd, "explain "@.len()))
    } else if cmd == "insight"@ {
        CommandView::Insight
    } else if cmd == "coffee"@ {
        CommandView::Coffee
    } else if cmd == "help"@ || cmd == "?"@ || cmd == "h"@ {
        CommandView::Help
    } else {
        CommandView::Shell(cmd)
    }
}

/// The notes after a command: `remember` adds its note at the end, and no
/// other command changes them.
pub open spec fn notes_after(notes: Seq<Seq<char>>, command: CommandView) -> Seq<Seq<char>> {
    match command {
        CommandView::Remember(note) => notes.push(note),
        _ => notes,
    }
}

/// The notes after the lines `lines`, typed in this order.
pub open spec fn notes_after_lines(notes: Seq<Seq<char>>, lines: Seq<Seq<char>>) -> Seq<Seq<char>>
    decreases lines.len(),
{
    if lines.len() == 0 {
        notes
    } else {
        notes_after(notes_after_lines(notes, lines.drop_last()), command_of(lines.last()))
    }
}

/// Notes are listed in the order in which they were remembered, numbered
/// from zero: after any run of lines that each ask to remember a note, the
/// notes are those held before followed by the new ones in the order of the
/// lines, and `mem` shows each on a line of its own after its position.
pub proof fn law_notes_are_listed_in_order(
    held: Seq<Seq<char>>,
    lines: Seq<Seq<char>>,
    notes: Seq<Seq<char>>,
)
    requires
        lines.len() == notes.len(),
        forall|i: int|
            0 <= i < lines.len() ==> command_of(#[trigger] lines[i]) == CommandView::Remember(
                notes[i],
            ),
    ensures
        notes_after_lines(held, lines) == held + notes,
        listing_of(held + notes).len() == held.len() + notes.len(),
        forall|k: int|
            0 <= k < held.len() + notes.len() ==> #[trigger] listing_of(held + notes)[k]
                == crate::memory::listing_line(k as nat, (held + notes)[k]),
        forall|i: int|
            0 <= i < notes.len() ==> #[trigger] listing_of(held + notes)[held.len() + i]
                == crate::memory::listing_line((held.len() + i) as nat, notes[i]),
    decreases lines.len(),
{
    if lines.len() == 0 {
        assert(held + notes =~= held);
    } else {
        let front = lines.drop_last();
        let fewer = notes.drop_last();
        assert forall|i: int| 0 <= i < front.len() implies command_of(#[trigger] front[i])
            == CommandView::Remember(fewer[i]) by {
            assert(front[i] == lines[i]);
        }
        law_notes_are_listed_in_order(held, front, fewer);
        assert(command_of(lines.last()) == CommandView::Remember(notes.last())) by {
            assert(lines.last() == lines[lines.len() - 1]);
        }
        assert((held + fewer).push(notes.last()) =~= held + notes);
    }
}

/// `help`, `?` and `h` ask for the same thing, and `mem` for the notes.
pub proof fn law_help_has_three_names()
    ensures
        command_of("help"@) == CommandView::Help,
        command_of("?"@) == CommandView::Help,
        command_of("h"@) == CommandView::Help,
        command_of("mem"@) == CommandView::Mem,
{
    reveal_strlit("help");
    reveal_strlit("?");
    reveal_strlit("h");
    reveal_strlit("mem");
    reveal_strlit("bye");
    reveal_strlit("remember ");
    reveal_strlit("explain ");
    reveal_strlit("insight");
    reveal_strlit("coffee");
    lemma_plain_word("help"@);
    lemma_plain_word("?"@);
    lemma_plain_word("h"@);
    lemma_plain_word("mem"@);
}

/// A text that neither begins nor ends with white space is its own trimmed
/// form.
pub proof fn lemma_plain_word(word: Seq<char>)
    requires
        word.len() > 0,
        !crate::text::is_white_space(word[0]),
        !crate::text::is_white_space(word.last()),
    ensures
        trimmed(word) == word,
{
}

/// What the line `line` asks for.
pub fn parse_command(line: &str) -> (command: Command)
    ensures
        command@ == command_of(line@),
{
    let cmd = trim(line);
    let text = cmd.as_str();
    if text.eq("bye") {
        Command::Bye
    } else if has_prefix(text, "remember ") {
        let n = "remember ".unicode_len();
        Command::Remember(skip_chars(text, n))
    } else if text.eq("mem") {
        Command::Mem
    } else if has_prefix(text, "explain ") {
        let n = "explain ".unicode_len();
        Command::Explain(skip_chars(text, n))
    } else if text.eq("insight") {
        Command::Insight
    } else if text.eq("coffee") {
        Command::Coffee
    } else if text.eq("help") || text.eq("?") || text.eq("h") {
        Command::Help
    } else {
        Command::Shell(cmd)
    }
}

} // verus!
