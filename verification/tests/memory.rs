use coffee_break::command::{parse_command, Command};
use coffee_break::memory::{Memory, Moment};

fn at(secs: i64) -> Moment {
    Moment { secs, nanos: 0 }
}

fn now() -> Moment {
    let time = chrono::Utc::now();
    Moment { secs: time.timestamp(), nanos: time.timestamp_subsec_nanos() }
}

#[test]
fn notes_round_trip_through_the_file_text() {
    let mut notes = Memory::load(None, now()).expect("notes");
    assert!(notes.data.is_empty());
    let first = notes.remember("buy beans".to_string(), now());
    assert!(first.is_some());
    let text = notes.remember("grind beans".to_string(), now()).expect("a text to write");
    let back = Memory::load(Some(text.as_str()), at(0)).expect("notes");
    assert_eq!(back.data, vec!["buy beans".to_string(), "grind beans".to_string()]);
    assert_eq!(back.last_updated, notes.last_updated);
    assert!(chrono::DateTime::parse_from_rfc3339(&back.last_updated).is_ok());
}

#[test]
fn a_session_of_remember_lines_fills_the_file() {
    let mut notes = Memory::load(None, now()).expect("notes");
    let mut written: Option<String> = None;
    for line in ["remember buy beans", "remember grind beans", "bye"] {
        match parse_command(line) {
            Command::Remember(note) => written = notes.remember(note, now()),
            Command::Bye => break,
            other => panic!("unexpected command {:?}", other),
        }
    }
    let text = written.expect("a text to write");
    let value: serde_json::Value = serde_json::from_str(&text).expect("valid JSON");
    let data: Vec<String> = value["data"]
        .as_array()
        .expect("an array")
        .iter()
        .map(|v| v.as_str().expect("a string").to_string())
        .collect();
    assert_eq!(data, vec!["buy beans".to_string(), "grind beans".to_string()]);
    let stamp = value["last_updated"].as_str().expect("a string");
    assert!(chrono::DateTime::parse_from_rfc3339(stamp).is_ok());
}

#[test]
fn load_save_load_gives_the_same_notes() {
    let on_disk = "{\"data\":[\"a\",\"b \\\"c\\\"\",\"\\u2615 \\n tab\\t\"],\"last_updated\":\"2024-01-01T00:00:00+00:00\"}";
    let mut first = Memory::load(Some(on_disk), now()).expect("notes");
    assert_eq!(
        first.data,
        vec!["a".to_string(), "b \"c\"".to_string(), "\u{2615} \n tab\t".to_string()]
    );
    assert_eq!(first.last_updated, "2024-01-01T00:00:00+00:00");
    let text = first.save(now()).expect("a text to write");
    let second = Memory::load(Some(text.as_str()), now()).expect("notes");
    assert_eq!(second.data, first.data);
    assert_eq!(second, first);
}

#[test]
fn file_text_is_pretty_printed_json() {
    let mut notes = Memory::empty_at("then".to_string());
    notes.data.push("a \"quoted\" note".to_string());
    let text = notes.save(at(1714557600)).expect("a text to write");
    assert_eq!(
        text,
        "{\n  \"data\": [\n    \"a \\\"quoted\\\" note\"\n  ],\n  \"last_updated\": \"2024-05-01T10:00:00+00:00\"\n}"
    );
    assert_eq!(notes.last_updated, "2024-05-01T10:00:00+00:00");
    let other = notes.save_at("any text".to_string()).expect("a text to write");
    assert!(other.ends_with("\"last_updated\": \"any text\"\n}"));
}

#[test]
fn moments_are_written_as_rfc_3339_times() {
    assert_eq!(Memory::stamp(at(0)), Some("1970-01-01T00:00:00+00:00".to_string()));
    assert_eq!(Memory::stamp(at(-1)), Some("1969-12-31T23:59:59+00:00".to_string()));
    assert_eq!(
        Memory::stamp(Moment { secs: 1714557600, nanos: 500_000_000 }),
        Some("2024-05-01T10:00:00.500+00:00".to_string())
    );
    assert_eq!(
        Memory::stamp(Moment { secs: 1714557600, nanos: 1 }),
        Some("2024-05-01T10:00:00.000000001+00:00".to_string())
    );
    assert_eq!(Memory::stamp(at(i64::MAX)), None);
    assert_eq!(Memory::stamp(Moment { secs: 0, nanos: 2_000_000_000 }), None);
    let text = Memory::stamp(now()).expect("a time");
    assert!(chrono::DateTime::parse_from_rfc3339(&text).is_ok());
}

#[test]
fn a_moment_that_cannot_be_written_changes_nothing() {
    assert_eq!(Memory::empty(at(i64::MAX)), None);
    assert_eq!(Memory::load(None, at(i64::MAX)), None);
    let mut notes = Memory::empty(at(60)).expect("notes");
    assert_eq!(notes.last_updated, "1970-01-01T00:01:00+00:00");
    assert_eq!(notes.save(at(i64::MIN)), None);
    assert_eq!(notes.last_updated, "1970-01-01T00:01:00+00:00");
    assert_eq!(notes.remember("kept".to_string(), at(i64::MIN)), None);
    assert_eq!(notes.data, vec!["kept".to_string()]);
    assert_eq!(notes.last_updated, "1970-01-01T00:01:00+00:00");
}

#[test]
fn what_cannot_be_understood_loads_as_no_notes() {
    for raw in [
        "",
        "not json",
        "[]",
        "{}",
        "{\"data\": [\"a\"]}",
        "{\"last_updated\": \"x\"}",
        "{\"data\": [1, 2], \"last_updated\": \"x\"}",
        "{\"data\": \"a\", \"last_updated\": \"x\"}",
        "{\"data\": [\"a\"], \"last_updated\": 5}",
        "{\"data\": [\"a\"], \"last_updated\": \"x\"} trailing",
    ] {
        let notes = Memory::load_at(Some(raw), "now".to_string());
        assert!(notes.data.is_empty(), "{raw}");
        assert_eq!(notes.last_updated, "now", "{raw}");
    }
    let missing = Memory::load_at(None, "now".to_string());
    assert!(missing.data.is_empty());
    assert_eq!(missing.last_updated, "now");
    let fresh = Memory::load(Some("{}"), at(86400)).expect("notes");
    assert!(fresh.data.is_empty());
    assert_eq!(fresh.last_updated, "1970-01-02T00:00:00+00:00");
}

#[test]
fn other_members_of_the_file_are_passed_over() {
    let notes = Memory::load_at(
        Some("{\"extra\": 1, \"data\": [\"kept\"], \"last_updated\": \"t\"}"),
        "now".to_string(),
    );
    assert_eq!(notes.data, vec!["kept".to_string()]);
    assert_eq!(notes.last_updated, "t");
}

#[test]
fn notes_are_listed_in_order_from_zero() {
    let mut notes = Memory::empty_at("t".to_string());
    assert!(notes.listing().is_empty());
    for note in ["buy beans", "grind beans", "buy beans"] {
        notes.remember(note.to_string(), now());
    }
    assert_eq!(
        notes.listing(),
        vec!["0 buy beans".to_string(), "1 grind beans".to_string(), "2 buy beans".to_string()]
    );
    for i in 3..12 {
        notes.remember(format!("note {i}"), now());
    }
    assert_eq!(notes.listing()[10], "10 note 10");
    assert_eq!(notes.listing().len(), 12);
}

#[test]
fn each_save_takes_the_time_it_is_given() {
    let mut notes = Memory::empty(at(0)).expect("notes");
    notes.save(at(1));
    assert_eq!(notes.last_updated, "1970-01-01T00:00:01+00:00");
    notes.save(at(1));
    assert_eq!(notes.last_updated, "1970-01-01T00:00:01+00:00");
    notes.save_at("2024-01-01T00:00:01+00:00".to_string());
    assert_eq!(notes.last_updated, "2024-01-01T00:00:01+00:00");
}

#[test]
fn successive_saves_do_not_go_back_in_time() {
    let mut notes = Memory::empty(now()).expect("notes");
    let mut last = chrono::DateTime::parse_from_rfc3339(&notes.last_updated).expect("a time");
    let mut clock = now();
    for _ in 0..5 {
        let reading = now();
        if (reading.secs, reading.nanos) >= (clock.secs, clock.nanos) {
            clock = reading;
        }
        notes.save(clock);
        let saved = chrono::DateTime::parse_from_rfc3339(&notes.last_updated).expect("a time");
        assert!(saved >= last);
        last = saved;
    }
}

#[test]
fn the_file_lies_in_the_home_directory() {
    assert_eq!(Memory::path_in("/home/alice"), "/home/alice/.coffee_break_memory.json");
    assert_eq!(Memory::path_in("/"), "/.coffee_break_memory.json");
    assert_eq!(Memory::path_in("/home/alice/"), "/home/alice/.coffee_break_memory.json");
    assert_eq!(Memory::path_in(""), ".coffee_break_memory.json");
    assert_eq!(Memory::path_from(&None), None);
    assert_eq!(
        Memory::path_from(&Some("/home/bob".to_string())),
        Some("/home/bob/.coffee_break_memory.json".to_string())
    );
    let reported = dirs::home_dir().and_then(|home| home.into_os_string().into_string().ok());
    assert_eq!(Memory::path(), Memory::path_from(&reported));
    if let Some(path) = Memory::path() {
        assert!(path.ends_with(".coffee_break_memory.json"));
        let home = dirs::home_dir().expect("a home directory");
        assert_eq!(std::path::PathBuf::from(path), home.join(".coffee_break_memory.json"));
    }
}
