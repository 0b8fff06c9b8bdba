//! Desktop notifications: which program to run with which script on each
//! platform, which icon to attach, and what to report when the program fails.
//!
//! Nothing is run here. A notification is returned as a `Delivery`, which
//! the caller carries out.

use crate::text::{opt_view, replace_char, replaced, texts};
use vstd::prelude::*;

verus! {

/// The platform that notifications are shown on.
#[derive(Clone, Copy, Debug, PartialEq, Eq, Structural)]
pub enum Platform {
    MacOs,
    Windows,
    Other,
}

/// A program to run, with its arguments.
#[derive(Debug, PartialEq, Eq)]
pub struct Invocation {
    pub program: String,
    pub args: Vec<String>,
}

/// A run of an interpreter: which one, what for (`notification` or
/// `dialog`), and how it is called.
#[derive(Debug, PartialEq, Eq)]
pub struct Job {
    pub tool: Tool,
    pub context: String,
    pub call: Invocation,
}

/// How a notification or a dialog is brought to the user.
#[derive(Debug, PartialEq, Eq)]
pub enum Delivery {
    /// Run this interpreter.
    Run(Job),
    /// Print this line to standard output.
    Print(String),
    /// The platform has nothing to show.
    Nothing,
}

/// A `Delivery` as plain mathematical values.
pub enum DeliveryView {
    Run { tool: Tool, context: Seq<char>, program: Seq<char>, args: Seq<Seq<char>> },
    Print(Seq<char>),
    Nothing,
}

impl View for Delivery {
    type V = DeliveryView;

    open spec fn view(&self) -> DeliveryView {
        match self {
            Delivery::Run(job) => DeliveryView::Run {
                tool: job.tool,
                context: job.context@,
                program: job.call.program@,
                args: texts(job.call.args@),
            },
            Delivery::Print(line) => DeliveryView::Print(line@),
            Delivery::Nothing => DeliveryView::Nothing,
        }
    }
}

/// What was found at one of the places where the icon may lie.
#[derive(Debug, PartialEq, Eq)]
pub enum Probe {
    /// No file is there.
    Missing,
    /// A file is there; `canonical` is its absolute path, where that could
    /// be worked out.
    Found { canonical: Option<String> },
}

/// The interpreter that runs a notification script.
#[derive(Clone, Copy, Debug, PartialEq, Eq, Structural)]
pub enum Tool {
    Osascript,
    PowerShell,
}

/// How a run of an interpreter ended.
#[derive(Debug, PartialEq, Eq)]
pub enum Outcome {
    /// It ran and exited, with success or not, and wrote `stderr`.
    Exited { success: bool, stderr: String },
    /// It could not be started; `error` says why.
    NotStarted { error: String },
}

/// The places where the icon may lie, in the order in which they are tried.
pub open spec fn icon_candidates() -> Seq<Seq<char>> {
    seq![
        "./src/resource/coffee_icon.png"@,
        "./src/resource/coffee_icon.jpg"@,
        "./coffee_icon.png"@,
        "./coffee_icon.icns"@,
        "./coffee_icon.jpg"@,
        "./coffee_icon.jpeg"@,
        "./assets/coffee_icon.png"@,
        "./assets/coffee_icon.icns"@,
        "./assets/coffee_icon.jpg"@,
        "./coffee.png"@,
        "./coffee.jpg"@,
    ]
}

/// The path under which a file found at place `at` is used: its absolute
/// path, or the place itself where that is not known.
pub open spec fn icon_at(probe: Probe, at: int) -> Seq<char> {
    match probe {
        Probe::Found { canonical: Some(path) } => path@,
        _ => icon_candidates()[at],
    }
}

/// The icon, looking at the places from `from` on: the first at which a file
/// was found.
pub open spec fn resolved_from(probes: Seq<Probe>, from: nat) -> Option<Seq<char>>
    decreases probes.len() - from,
{
    if from >= probes.len() || from >= icon_candidates().len() {
        None
    } else if probes[from as int] is Found {
        Some(icon_at(probes[from as int], from as int))
    } else {
        resolved_from(probes, from + 1)
    }
}

/// The icon: the first place at which a file was found, or none.
pub open spec fn resolved_icon(probes: Seq<Probe>) -> Option<Seq<char>> {
    resolved_from(probes, 0)
}

/// The part of an AppleScript command that names the icon.
pub open spec fn icon_clause(icon: Option<Seq<char>>) -> Seq<char> {
    match icon {
        Some(path) => "with icon POSIX file \""@ + path + "\""@,
        None => "with icon note"@,
    }
}

/// The AppleScript that shows a notification.
pub open spec fn macos_notification_script(
    title: Seq<char>,
    message: Seq<char>,
    icon: Option<Seq<char>>,
) -> Seq<char> {
    "display notification \""@ + message + "\" with title \""@ + title
        + "\" sound name \"Glass\" "@ + icon_clause(icon)
}

/// The AppleScript that shows the coffee-break dialog, which closes by itself
/// after 30 seconds.
pub open spec fn macos_dialog_script(icon: Option<Seq<char>>) -> Seq<char> {
    DIALOG_HEAD@ + icon_clause(icon) + DIALOG_TAIL@
}

/// A text as it stands inside a PowerShell string: each double quote gets a
/// backtick in front.
pub open spec fn escape_ps(value: Seq<char>) -> Seq<char> {
    replaced(value, '"', "`\""@)
}

/// The `file:///` URL of an icon: backslashes become slashes, spaces `%20`.
pub open spec fn icon_url(path: Seq<char>) -> Seq<char> {
    "file:///"@ + replaced(replaced(path, '\\', "/"@), ' ', "%20"@)
}

/// The PowerShell statement that sets the toast's image, or nothing where
/// there is no icon.
pub open spec fn icon_snippet(icon: Option<Seq<char>>) -> Seq<char> {
    match icon {
        Some(path) => TOAST_IMAGE_HEAD@ + icon_url(path) + "\";"@,
        None => Seq::empty(),
    }
}

/// The PowerShell script that shows a toast notification.
pub open spec fn windows_toast_script(
    title: Seq<char>,
    message: Seq<char>,
    icon: Option<Seq<char>>,
) -> Seq<char> {
    TOAST_HEAD@ + escape_ps(title) + TOAST_MIDDLE@ + escape_ps(message) + TOAST_AFTER_TEXT@
        + icon_snippet(icon) + TOAST_TAIL@
}

/// The line that stands for a notification where the platform shows none.
pub open spec fn fallback_line(title: Seq<char>, message: Seq<char>) -> Seq<char> {
    "\u{2615} "@ + title + " - "@ + message
}

/// How `osascript` is called with a script, for `context`.
pub open spec fn osascript_call(script: Seq<char>, context: Seq<char>) -> DeliveryView {
    DeliveryView::Run {
        tool: Tool::Osascript,
        context,
        program: "osascript"@,
        args: seq!["-e"@, script],
    }
}

/// How PowerShell is called with a script, for `context`.
pub open spec fn powershell_call(script: Seq<char>, context: Seq<char>) -> DeliveryView {
    DeliveryView::Run {
        tool: Tool::PowerShell,
        context,
        program: "powershell"@,
        args: seq!["-NoLogo"@, "-NoProfile"@, "-Command"@, script],
    }
}

/// How a notification is shown on `platform`: by AppleScript on macOS, by a
/// PowerShell toast on Windows, and elsewhere by a printed line.
pub open spec fn notification_on(
    platform: Platform,
    title: Seq<char>,
    message: Seq<char>,
    icon: Option<Seq<char>>,
) -> DeliveryView {
    match platform {
        Platform::MacOs => osascript_call(
            macos_notification_script(title, message, icon),
            "notification"@,
        ),
        Platform::Windows => powershell_call(
            windows_toast_script(title, message, icon),
            "notification"@,
        ),
        Platform::Other => DeliveryView::Print(fallback_line(title, message)),
    }
}

/// How the coffee-break dialog is shown on `platform`: only macOS has one.
pub open spec fn dialog_on(platform: Platform, icon: Option<Seq<char>>) -> DeliveryView {
    match platform {
        Platform::MacOs => osascript_call(macos_dialog_script(icon), "dialog"@),
        _ => DeliveryView::Nothing,
    }
}

/// The name under which an interpreter is reported.
pub open spec fn tool_name(tool: Tool) -> Seq<char> {
    match tool {
        Tool::Osascript => "osascript"@,
        Tool::PowerShell => "PowerShell"@,
    }
}

/// The line for standard error after a run of `tool` for `context`: none
/// where it exited with success.
pub open spec fn failure_line(tool: Tool, context: Seq<char>, outcome: Outcome) -> Option<
    Seq<char>,
> {
    match outcome {
        Outcome::Exited { success, stderr } => if success {
            None
        } else {
            Some("[coffee reminder] "@ + context + " failed: "@ + stderr@)
        },
        Outcome::NotStarted { error } => Some(
            "[coffee reminder] could not run "@ + tool_name(tool) + " for "@ + context + ": "@
                + error@,
        ),
    }
}

/// The dialog's script up to the icon clause.
pub const DIALOG_HEAD: &'static str =
    "\n        tell application \"System Events\"\n            activate\n        end tell\n        \n        display dialog \"\u{2615} COFFEE BREAK TIME! \u{2615}\n\nYou've been coding for a while!\nTime to take a break and grab some coffee! \u{1F375}\n\nYour code will still be here when you return!\" with title \"\u{2615} Coffee Break\" buttons {\"\u{2615} OK \u{2615}\"} default button 1 ";

/// The dialog's script after the icon clause.
pub const DIALOG_TAIL: &'static str = " giving up after 30\n        ";

/// The toast script up to the title.
pub const TOAST_HEAD: &'static str =
    "\nAdd-Type -AssemblyName System.Runtime.WindowsRuntime | Out-Null\n[Windows.UI.Notifications.ToastNotificationManager, Windows.UI.Notifications, ContentType = WindowsRuntime] | Out-Null\n$template = [Windows.UI.Notifications.ToastTemplateType]::ToastImageAndText02\n$xml = [Windows.UI.Notifications.ToastNotificationManager]::GetTemplateContent($template)\n$xml.GetElementsByTagName(\"text\")[0].AppendChild($xml.CreateTextNode(\"";

/// The toast script between the title and the message.
pub const TOAST_MIDDLE: &'static str =
    "\")) | Out-Null\n$xml.GetElementsByTagName(\"text\")[1].AppendChild($xml.CreateTextNode(\"";

/// The toast script between the message and the image statement.
pub const TOAST_AFTER_TEXT: &'static str = "\")) | Out-Null\n";

/// The image statement up to the URL.
pub const TOAST_IMAGE_HEAD: &'static str =
    "$xml.GetElementsByTagName(\"image\")[0].Attributes.GetNamedItem(\"src\").Value = \"";

/// The toast script after the image statement.
pub const TOAST_TAIL: &'static str =
    "\n$toast = [Windows.UI.Notifications.ToastNotification]::new($xml)\n$notifier = [Windows.UI.Notifications.ToastNotificationManager]::CreateToastNotifier(\"coffee-break\")\n$notifier.Show($toast)\n";

/// The places where the icon may lie, in the order in which they are tried.
pub fn icon_paths() -> (paths: Vec<String>)
    ensures
        texts(paths@) == icon_candidates(),
{
    let mut paths: Vec<String> = Vec::new();
    paths.push("./src/resource/coffee_icon.png".to_owned());
    paths.push("./src/resource/coffee_icon.jpg".to_owned());
    paths.push("./coffee_icon.png".to_owned());
    paths.push("./coffee_icon.icns".to_owned());
    paths.push("./coffee_icon.jpg".to_owned());
    paths.push("./coffee_icon.jpeg".to_owned());
    paths.push("./assets/coffee_icon.png".to_owned());
    paths.push("./assets/coffee_icon.icns".to_owned());
    paths.push("./assets/coffee_icon.jpg".to_owned());
    paths.push("./coffee.png".to_owned());
    paths.push("./coffee.jpg".to_owned());
    assert(texts(paths@) =~= icon_candidates());
    paths
}

/// The icon to attach: `probes` says, for the places of `icon_paths` in
/// their order, what was found there. The first place with a file decides.
pub fn resolve_coffee_icon(probes: &Vec<Probe>) -> (icon: Option<String>)
    ensures
        opt_view(icon) == resolved_icon(probes@),
{
    let paths = icon_paths();
    let mut i: usize = 0;
    while i < probes.len() && i < paths.len()
        invariant
            i <= probes.len(),
            i <= paths.len(),
            texts(paths@) == icon_candidates(),
            paths.len() == icon_candidates().len(),
            resolved_icon(probes@) == resolved_from(probes@, i as nat),
        decreases probes.len() - i,
    {
        match &probes[i] {
            Probe::Found { canonical: Some(path) } => {
                return Some(path.clone());
            },
            Probe::Found { canonical: None } => {
                assert(texts(paths@)[i as int] == paths[i as int]@);
                return Some(paths[i].clone());
            },
            Probe::Missing => {},
        }
        i += 1;
    }
    None
}

/// The part of an AppleScript command that names the icon.
fn icon_clause_text(icon: &Option<String>) -> (clause: String)
    ensures
        clause@ == icon_clause(opt_view(*icon)),
{
    match icon {
        Some(path) => {
            let mut clause = "with icon POSIX file \"".to_owned();
            clause.append(path.as_str());
            clause.append("\"");
            clause
        },
        None => "with icon note".to_owned(),
    }
}

/// The PowerShell script that shows a toast notification.
fn toast_script(title: &str, message: &str, icon: &Option<String>) -> (script: String)
    ensures
        script@ == windows_toast_script(title@, message@, opt_view(*icon)),
{
    let mut script = TOAST_HEAD.to_owned();
    script.append(replace_char(title, '"', "`\"").as_str());
    script.append(TOAST_MIDDLE);
    script.append(replace_char(message, '"', "`\"").as_str());
    script.append(TOAST_AFTER_TEXT);
    match icon {
        Some(path) => {
            let slashed = replace_char(path.as_str(), '\\', "/");
            let encoded = replace_char(slashed.as_str(), ' ', "%20");
            let ghost before = script@;
            script.append(TOAST_IMAGE_HEAD);
            script.append("file:///");
            script.append(encoded.as_str());
            script.append("\";");
            assert(script@ =~= before + icon_snippet(Some(path@)));
        },
        None => {
            assert(script@ + icon_snippet(None) =~= script@);
        },
    }
    script.append(TOAST_TAIL);
    script
}

/// The call of `osascript` that runs `script`, for `context`.
pub fn run_osascript(script: String, context: &str) -> (call: Delivery)
    ensures
        call@ == osascript_call(script@, context@),
{
    let mut args: Vec<String> = Vec::new();
    args.push("-e".to_owned());
    args.push(script);
    assert(texts(args@) =~= seq!["-e"@, script@]);
    Delivery::Run(
        Job {
            tool: Tool::Osascript,
            context: context.to_owned(),
            call: Invocation { program: "osascript".to_owned(), args },
        },
    )
}

/// The call of PowerShell, without logo and profile, that runs `script`,
/// for `context`.
pub fn run_powershell(script: String, context: &str) -> (call: Delivery)
    ensures
        call@ == powershell_call(script@, context@),
{
    let mut args: Vec<String> = Vec::new();
    args.push("-NoLogo".to_owned());
    args.push("-NoProfile".to_owned());
    args.push("-Command".to_owned());
    args.push(script);
    assert(texts(args@) =~= seq!["-NoLogo"@, "-NoProfile"@, "-Command"@, script@]);
    Delivery::Run(
        Job {
            tool: Tool::PowerShell,
            context: context.to_owned(),
            call: Invocation { program: "powershell".to_owned(), args },
        },
    )
}

/// How to show a notification with this title and message on `platform`.
/// `probes` says what was found at the places where the icon may lie; the
/// first one found is attached. Title and message go into the AppleScript as
/// they are; in the PowerShell script their double quotes are escaped.
pub fn show_system_notification(
    platform: Platform,
    title: &str,
    message: &str,
    probes: &Vec<Probe>,
) -> (delivery: Delivery)
    ensures
        delivery@ == notification_on(platform, title@, message@, resolved_icon(probes@)),
{
    match platform {
        Platform::MacOs => {
            let icon = resolve_coffee_icon(probes);
            let mut script = "display notification \"".to_owned();
            script.append(message);
            script.append("\" with title \"");
            script.append(title);
            script.append("\" sound name \"Glass\" ");
            script.append(icon_clause_text(&icon).as_str());
            run_osascript(script, "notification")
        },
        Platform::Windows => {
            let icon = resolve_coffee_icon(probes);
            run_powershell(toast_script(title, message, &icon), "notification")
        },
        Platform::Other => {
            let mut line = "\u{2615} ".to_owned();
            line.append(title);
            line.append(" - ");
            line.append(message);
            Delivery::Print(line)
        },
    }
}

/// How to show the coffee-break dialog on `platform`. `probes` says what was
/// found at the places where the icon may lie.
pub fn show_coffee_dialog(platform: Platform, probes: &Vec<Probe>) -> (delivery: Delivery)
    ensures
        delivery@ == dialog_on(platform, resolved_icon(probes@)),
{
    match platform {
        Platform::MacOs => {
            let icon = resolve_coffee_icon(probes);
            let mut script = DIALOG_HEAD.to_owned();
            script.append(icon_clause_text(&icon).as_str());
            script.append(DIALOG_TAIL);
            run_osascript(script, "dialog")
        },
        _ => Delivery::Nothing,
    }
}

/// What to write to standard error after the run `job` has ended with
/// `outcome`: a line where the run failed or could not be started, nothing
/// where it succeeded. Nothing else follows from a failure.
pub fn report_failure(job: &Job, outcome: &Outcome) -> (line: Option<String>)
    ensures
        match line {
            Some(text) => failure_line(job.tool, job.context@, *outcome) == Some(text@),
            None => failure_line(job.tool, job.context@, *outcome) is None,
        },
{
    match outcome {
        Outcome::Exited { success, stderr } => {
            if *success {
                None
            } else {
                let mut line = "[coffee reminder] ".to_owned();
                line.append(job.context.as_str());
                line.append(" failed: ");
                line.append(stderr.as_str());
                Some(line)
            }
        },
        Outcome::NotStarted { error } => {
            let mut line = "[coffee reminder] could not run ".to_owned();
            match job.tool {
                Tool::Osascript => line.append("osascript"),
                Tool::PowerShell => line.append("PowerShell"),
            }
            line.append(" for ");
            line.append(job.context.as_str());
            line.append(": ");
            line.append(error.as_str());
            Some(line)
        },
    }
}

} // verus!
