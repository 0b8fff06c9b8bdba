use coffee_break::notification::{
    icon_paths, report_failure, resolve_coffee_icon, run_osascript, run_powershell,
    show_coffee_dialog, show_system_notification, Delivery, Invocation, Job, Outcome, Platform,
    Probe, Tool,
};

fn missing(n: usize) -> Vec<Probe> {
    (0..n).map(|_| Probe::Missing).collect()
}

fn found_at(place: usize, canonical: Option<&str>) -> Vec<Probe> {
    let mut probes = missing(11);
    probes[place] = Probe::Found { canonical: canonical.map(|p| p.to_string()) };
    probes
}

fn job_of(delivery: Delivery) -> Job {
    match delivery {
        Delivery::Run(job) => job,
        other => panic!("unexpected delivery {:?}", other),
    }
}

#[test]
fn macos_notifications_are_applescript() {
    let job = job_of(show_system_notification(
        Platform::MacOs,
        "Break",
        "Time for coffee",
        &missing(11),
    ));
    assert_eq!(job.tool, Tool::Osascript);
    assert_eq!(job.context, "notification");
    assert_eq!(job.call.program, "osascript");
    assert_eq!(
        job.call.args,
        vec![
            "-e".to_string(),
            "display notification \"Time for coffee\" with title \"Break\" sound name \"Glass\" with icon note"
                .to_string()
        ]
    );
    let with_icon = job_of(show_system_notification(
        Platform::MacOs,
        "Break",
        "Time",
        &found_at(9, Some("/x/coffee.png")),
    ));
    assert_eq!(
        with_icon.call.args[1],
        "display notification \"Time\" with title \"Break\" sound name \"Glass\" with icon POSIX file \"/x/coffee.png\""
    );
}

#[test]
fn macos_passes_quotes_through_as_they_are() {
    let job = job_of(show_system_notification(Platform::MacOs, "a\"b", "c\"d", &vec![]));
    assert_eq!(
        job.call.args[1],
        "display notification \"c\"d\" with title \"a\"b\" sound name \"Glass\" with icon note"
    );
}

#[test]
fn windows_notifications_are_powershell_toasts() {
    let job = job_of(show_system_notification(
        Platform::Windows,
        "Say \"hi\"",
        "A \"b\"",
        &found_at(0, Some("C:\\My Icons\\coffee.png")),
    ));
    assert_eq!(job.tool, Tool::PowerShell);
    assert_eq!(job.context, "notification");
    assert_eq!(job.call.program, "powershell");
    assert_eq!(job.call.args.len(), 4);
    assert_eq!(
        &job.call.args[..3],
        &["-NoLogo".to_string(), "-NoProfile".to_string(), "-Command".to_string()]
    );
    let expected = "\nAdd-Type -AssemblyName System.Runtime.WindowsRuntime | Out-Null\n[Windows.UI.Notifications.ToastNotificationManager, Windows.UI.Notifications, ContentType = WindowsRuntime] | Out-Null\n$template = [Windows.UI.Notifications.ToastTemplateType]::ToastImageAndText02\n$xml = [Windows.UI.Notifications.ToastNotificationManager]::GetTemplateContent($template)\n$xml.GetElementsByTagName(\"text\")[0].AppendChild($xml.CreateTextNode(\"Say `\"hi`\"\")) | Out-Null\n$xml.GetElementsByTagName(\"text\")[1].AppendChild($xml.CreateTextNode(\"A `\"b`\"\")) | Out-Null\n$xml.GetElementsByTagName(\"image\")[0].Attributes.GetNamedItem(\"src\").Value = \"file:///C:/My%20Icons/coffee.png\";\n$toast = [Windows.UI.Notifications.ToastNotification]::new($xml)\n$notifier = [Windows.UI.Notifications.ToastNotificationManager]::CreateToastNotifier(\"coffee-break\")\n$notifier.Show($toast)\n";
    assert_eq!(job.call.args[3], expected);
}

#[test]
fn windows_toast_without_icon_has_an_empty_line_for_it() {
    let job = job_of(show_system_notification(Platform::Windows, "T", "M", &missing(11)));
    assert!(job.call.args[3].contains("CreateTextNode(\"M\")) | Out-Null\n\n$toast = "));
    assert!(!job.call.args[3].contains("image"));
}

#[test]
fn other_platforms_print_one_line() {
    assert_eq!(
        show_system_notification(Platform::Other, "Title", "Body", &found_at(1, Some("/i.png"))),
        Delivery::Print("\u{2615} Title - Body".to_string())
    );
}

#[test]
fn only_macos_has_a_dialog() {
    assert_eq!(show_coffee_dialog(Platform::Windows, &missing(11)), Delivery::Nothing);
    assert_eq!(show_coffee_dialog(Platform::Other, &found_at(0, Some("/x.png"))), Delivery::Nothing);
    let job = job_of(show_coffee_dialog(Platform::MacOs, &found_at(0, Some("/x.png"))));
    assert_eq!(job.tool, Tool::Osascript);
    assert_eq!(job.context, "dialog");
    assert_eq!(job.call.program, "osascript");
    assert_eq!(job.call.args[0], "-e");
    let script = &job.call.args[1];
    assert!(script.contains("tell application \"System Events\""));
    assert!(script.contains(
        "display dialog \"\u{2615} COFFEE BREAK TIME! \u{2615}\n\nYou've been coding for a while!"
    ));
    assert!(script.contains(
        "buttons {\"\u{2615} OK \u{2615}\"} default button 1 with icon POSIX file \"/x.png\" giving up after 30"
    ));
    let plain = job_of(show_coffee_dialog(Platform::MacOs, &missing(11)));
    assert!(plain.call.args[1].contains("default button 1 with icon note giving up after 30"));
}

#[test]
fn interpreters_are_called_with_the_script() {
    assert_eq!(
        run_osascript("beep".to_string(), "dialog"),
        Delivery::Run(Job {
            tool: Tool::Osascript,
            context: "dialog".to_string(),
            call: Invocation {
                program: "osascript".to_string(),
                args: vec!["-e".to_string(), "beep".to_string()],
            },
        })
    );
    assert_eq!(
        run_powershell("Beep".to_string(), "notification"),
        Delivery::Run(Job {
            tool: Tool::PowerShell,
            context: "notification".to_string(),
            call: Invocation {
                program: "powershell".to_string(),
                args: vec![
                    "-NoLogo".to_string(),
                    "-NoProfile".to_string(),
                    "-Command".to_string(),
                    "Beep".to_string()
                ],
            },
        })
    );
}

#[test]
fn the_first_icon_found_is_taken() {
    let paths = icon_paths();
    assert_eq!(paths.len(), 11);
    assert_eq!(paths[0], "./src/resource/coffee_icon.png");
    assert_eq!(paths[1], "./src/resource/coffee_icon.jpg");
    assert_eq!(paths[2], "./coffee_icon.png");
    assert_eq!(paths[3], "./coffee_icon.icns");
    assert_eq!(paths[4], "./coffee_icon.jpg");
    assert_eq!(paths[5], "./coffee_icon.jpeg");
    assert_eq!(paths[6], "./assets/coffee_icon.png");
    assert_eq!(paths[7], "./assets/coffee_icon.icns");
    assert_eq!(paths[8], "./assets/coffee_icon.jpg");
    assert_eq!(paths[9], "./coffee.png");
    assert_eq!(paths[10], "./coffee.jpg");

    assert_eq!(resolve_coffee_icon(&vec![]), None);
    assert_eq!(resolve_coffee_icon(&missing(11)), None);

    let mut probes = found_at(3, Some("/abs/coffee_icon.icns"));
    probes[7] = Probe::Found { canonical: Some("/abs/other".to_string()) };
    assert_eq!(resolve_coffee_icon(&probes), Some("/abs/coffee_icon.icns".to_string()));

    probes[2] = Probe::Found { canonical: None };
    assert_eq!(resolve_coffee_icon(&probes), Some("./coffee_icon.png".to_string()));

    let mut too_long = missing(12);
    too_long[11] = Probe::Found { canonical: Some("/beyond".to_string()) };
    assert_eq!(resolve_coffee_icon(&too_long), None);
}

#[test]
fn failures_are_reported_with_their_context() {
    let osascript = job_of(run_osascript("s".to_string(), "notification"));
    let osascript_dialog = job_of(run_osascript("s".to_string(), "dialog"));
    let powershell = job_of(run_powershell("s".to_string(), "notification"));
    let ok = Outcome::Exited { success: true, stderr: "noise".to_string() };
    assert_eq!(report_failure(&osascript, &ok), None);
    assert_eq!(report_failure(&powershell, &ok), None);
    let failed = Outcome::Exited { success: false, stderr: "boom".to_string() };
    assert_eq!(
        report_failure(&osascript, &failed),
        Some("[coffee reminder] notification failed: boom".to_string())
    );
    assert_eq!(
        report_failure(&osascript_dialog, &failed),
        Some("[coffee reminder] dialog failed: boom".to_string())
    );
    let not_started = Outcome::NotStarted { error: "No such file".to_string() };
    assert_eq!(
        report_failure(&osascript_dialog, &not_started),
        Some("[coffee reminder] could not run osascript for dialog: No such file".to_string())
    );
    assert_eq!(
        report_failure(&powershell, &not_started),
        Some("[coffee reminder] could not run PowerShell for notification: No such file".to_string())
    );
}
