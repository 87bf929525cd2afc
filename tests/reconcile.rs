use sap_calendar_sync::discord_notifier::{batches, build_embeds, change_embed, Embed};
use sap_calendar_sync::encoding_fix::{count_suspicious, fix_mojibake, seems_better};
use sap_calendar_sync::models::{EventChange, SAPEvent};
use sap_calendar_sync::snapshot::{diff, Snapshot};
use sap_calendar_sync::state::{fix_encoding_all, AppState};

fn event(title: &str, room: &str, instructor: &str) -> SAPEvent {
    SAPEvent {
        title: title.to_string(),
        start: 1700000000,
        end: 1700003600,
        description: "Lecture".to_string(),
        room: room.to_string(),
        instructor: instructor.to_string(),
        remarks: String::new(),
    }
}

fn state() -> AppState {
    AppState::new("https://example.org/feed".to_string(), "c=1".to_string(), None)
}

#[test]
fn uid_has_fixed_prefix_and_digest() {
    assert_eq!(event("Math", "R1", "Smith").generate_uid(), "sap-9a29082c9344da41");
    assert_eq!(event("Math", "R2", "Smith").generate_uid(), "sap-f4b670250ea6fe20");
}

#[test]
fn uid_uses_decimal_start_and_end() {
    let mut e = event("Math", "R1", "Smith");
    e.start = -5;
    assert_eq!(e.generate_uid(), "sap-389ee60ea2b386b2");
}

#[test]
fn uid_is_deterministic() {
    let a = event("Math", "R1", "Smith");
    let b = event("Math", "R1", "Smith");
    assert_eq!(a.generate_uid(), a.generate_uid());
    assert_eq!(a.generate_uid(), b.generate_uid());
}

#[test]
fn uid_ignores_instructor_description_and_remarks() {
    let a = event("Math", "R1", "Smith");
    let mut b = event("Math", "R1", "Jones");
    b.description = "Other".to_string();
    b.remarks = "Bring laptop".to_string();
    assert_eq!(a.generate_uid(), b.generate_uid());
}

#[test]
fn compare_lists_changed_fields_in_order() {
    let a = event("Math", "R1", "Smith");
    let mut b = event("Physics", "R2", "Jones");
    b.start = 1;
    b.end = 2;
    b.remarks = "x".to_string();
    assert_eq!(
        a.compare(&b),
        vec![
            "Title: 'Math' -> 'Physics'".to_string(),
            "Start time changed".to_string(),
            "End time changed".to_string(),
            "Room: 'R1' -> 'R2'".to_string(),
            "Instructor: 'Smith' -> 'Jones'".to_string(),
            "Remarks: '' -> 'x'".to_string(),
        ]
    );
    assert!(a.compare(&a).is_empty());
}

#[test]
fn mojibake_is_repaired() {
    assert_eq!(fix_mojibake("MÃ¼nchen"), "München");
    assert_eq!(fix_mojibake("München"), "München");
    assert_eq!(fix_mojibake("plain"), "plain");
    assert_eq!(fix_mojibake(""), "");
}

#[test]
fn suspicion_weights() {
    assert_eq!(count_suspicious("plain"), 0);
    assert_eq!(count_suspicious("Ã¤Ã¶"), 10);
    assert_eq!(count_suspicious("Ã¤ Ã„ ÃŸ Ã©"), 35);
    assert!(seems_better("München", "MÃ¼nchen"));
    assert!(!seems_better("a", "b"));
}

#[test]
fn fix_encoding_repairs_every_text_field() {
    let mut e = event("KÃ¶ln", "RÃ¤um", "MÃ¼ller");
    e.remarks = "fÃ¼r".to_string();
    let fixed = fix_encoding_all(vec![e]);
    assert_eq!(fixed[0].title, "Köln");
    assert_eq!(fixed[0].room, "Räum");
    assert_eq!(fixed[0].instructor, "Müller");
    assert_eq!(fixed[0].remarks, "für");
    assert_eq!(fixed[0].start, 1700000000);
}

#[test]
fn empty_store_adds_event() {
    let mut s = state();
    let x = event("Math", "R1", "Smith");
    let changes = s.update_events(vec![x.clone()]);
    assert_eq!(changes.len(), 1);
    match &changes[0] {
        EventChange::Added(e) => assert_eq!(**e, x),
        _ => panic!("expected an addition"),
    }
    assert_eq!(s.current_events(), vec![x.clone()]);
    assert_eq!(s.events.len(), 1);
    assert_eq!(s.events.key_at(0), &x.generate_uid());
}

#[test]
fn room_change_is_removal_and_addition() {
    let mut s = state();
    s.update_events(vec![event("Math", "R1", "Smith")]);
    let changes = s.update_events(vec![event("Math", "R2", "Smith")]);
    assert_eq!(changes.len(), 2);
    assert!(changes
        .iter()
        .any(|c| matches!(c, EventChange::Deleted(e) if e.room == "R1")));
    assert!(changes
        .iter()
        .any(|c| matches!(c, EventChange::Added(e) if e.room == "R2")));
}

#[test]
fn instructor_change_is_modification() {
    let mut s = state();
    s.update_events(vec![event("Math", "R1", "Smith")]);
    let changes = s.update_events(vec![event("Math", "R1", "Jones")]);
    assert_eq!(changes.len(), 1);
    match &changes[0] {
        EventChange::Modified { previous, current, changes } => {
            assert_eq!(previous.instructor, "Smith");
            assert_eq!(current.instructor, "Jones");
            assert_eq!(changes, &vec!["Instructor: 'Smith' -> 'Jones'".to_string()]);
        }
        _ => panic!("expected a modification"),
    }
    assert_eq!(s.current_events(), vec![event("Math", "R1", "Jones")]);
}

#[test]
fn empty_feed_removes_everything() {
    let mut s = state();
    let z = event("Math", "R1", "Smith");
    s.update_events(vec![z.clone()]);
    let changes = s.update_events(vec![]);
    assert_eq!(changes.len(), 1);
    match &changes[0] {
        EventChange::Deleted(e) => assert_eq!(**e, z),
        _ => panic!("expected a deletion"),
    }
    assert!(s.current_events().is_empty());
}

#[test]
fn failed_fetch_leaves_store_unchanged() {
    let mut s = state();
    s.run_cycle(Some(vec![event("Math", "R1", "Smith")]), false);
    let before = s.current_events();
    let changes = s.run_cycle(None, true);
    assert!(changes.is_empty());
    assert_eq!(s.current_events(), before);
    assert_eq!(s.events.key_at(0), &event("Math", "R1", "Smith").generate_uid());
}

#[test]
fn silent_cycle_installs_without_reporting() {
    let mut s = state();
    let changes = s.run_cycle(Some(vec![event("Math", "R1", "Smith")]), false);
    assert!(changes.is_empty());
    assert_eq!(s.current_events().len(), 1);
    let changes = s.run_cycle(Some(vec![event("Math", "R1", "Jones")]), true);
    assert_eq!(changes.len(), 1);
}

#[test]
fn cycle_repairs_text_before_deriving_identity() {
    let mut s = state();
    s.run_cycle(Some(vec![event("KÃ¶ln", "R1", "Smith")]), true);
    let events = s.current_events();
    assert_eq!(events[0].title, "Köln");
    assert_eq!(s.events.key_at(0), &event("Köln", "R1", "Smith").generate_uid());
}

#[test]
fn same_input_twice_reports_nothing() {
    let mut s = state();
    let input = vec![event("Math", "R1", "Smith"), event("Art", "R3", "Lee")];
    assert_eq!(s.update_events(input.clone()).len(), 2);
    assert!(s.update_events(input).is_empty());
}

#[test]
fn later_duplicate_overwrites_earlier() {
    let mut s = state();
    let changes = s.update_events(vec![event("Math", "R1", "Smith"), event("Math", "R1", "Jones")]);
    assert_eq!(changes.len(), 1);
    assert_eq!(s.current_events(), vec![event("Math", "R1", "Jones")]);
}

#[test]
fn diff_counts_each_difference_once() {
    let a = Snapshot::from_events(vec![
        event("Math", "R1", "Smith"),
        event("Art", "R3", "Lee"),
        event("Bio", "R4", "Kim"),
    ]);
    let b = Snapshot::from_events(vec![
        event("Math", "R1", "Jones"),
        event("Bio", "R4", "Kim"),
        event("Chem", "R5", "Ng"),
    ]);
    let changes = diff(&a, &b);
    assert_eq!(changes.len(), 3);
    let added = changes.iter().filter(|c| matches!(c, EventChange::Added(_))).count();
    let deleted = changes.iter().filter(|c| matches!(c, EventChange::Deleted(_))).count();
    let modified = changes.iter().filter(|c| matches!(c, EventChange::Modified { .. })).count();
    assert_eq!((added, deleted, modified), (1, 1, 1));
    assert!(diff(&a, &a).is_empty());
}

#[test]
fn embeds_summarise_each_change() {
    let e = event("Math", "R1", "Smith");
    let added = change_embed(&EventChange::Added(Box::new(e.clone())));
    assert_eq!(added.title, "✅ New Event: Math");
    assert_eq!(added.color, 3066993);
    assert_eq!(added.description, None);
    assert_eq!(added.fields.len(), 4);
    assert_eq!(added.fields[1].name, "Instructor");
    assert_eq!(added.fields[1].value, "Smith");
    assert_eq!(added.fields[2].value, "2023-11-14 22:13 UTC");
    assert_eq!(added.fields[3].value, "2023-11-14 23:13 UTC");
    assert!(!added.fields[2].inline);

    let modified = change_embed(&EventChange::Modified {
        previous: Box::new(e.clone()),
        current: Box::new(e.clone()),
        changes: vec!["A".to_string(), "B".to_string()],
    });
    assert_eq!(modified.title, "🔄 Event Modified: Math");
    assert_eq!(modified.color, 15105570);
    assert_eq!(modified.description, Some("**Changes:**\nA\nB".to_string()));
    assert_eq!(modified.fields[1].name, "Date");
    assert_eq!(modified.fields[1].value, "2023-11-14 22:13 UTC");

    let deleted = change_embed(&EventChange::Deleted(Box::new(e)));
    assert_eq!(deleted.title, "❌ Event Deleted: Math");
    assert_eq!(deleted.color, 15158332);
    assert_eq!(deleted.fields[0].value, "R1");
}

#[test]
fn out_of_range_time_reads_as_epoch() {
    let mut e = event("Math", "R1", "Smith");
    e.start = i64::MAX;
    let embed = change_embed(&EventChange::Deleted(Box::new(e)));
    assert_eq!(embed.fields[1].value, "1970-01-01 00:00 UTC");
}

#[test]
fn embeds_are_sent_in_batches_of_ten() {
    let changes: Vec<EventChange> = (0..23)
        .map(|i| EventChange::Added(Box::new(event(&format!("E{}", i), "R1", "Smith"))))
        .collect();
    let embeds: Vec<Embed> = build_embeds(&changes);
    assert_eq!(embeds.len(), 23);
    let b = batches(embeds);
    assert_eq!(b.iter().map(|x| x.len()).collect::<Vec<_>>(), vec![10, 10, 3]);
    assert_eq!(b[2][0].title, "✅ New Event: E20");
    assert!(batches(Vec::new()).is_empty());
}

#[test]
fn calendar_description_lists_room_instructor_and_remarks() {
    let mut e = event("Math", "R1", "Smith");
    assert_eq!(
        sap_calendar_sync::ics_generator::event_description(&e),
        "Lecture\n\nRoom: R1\nInstructor: Smith\n"
    );
    e.remarks = "Bring laptop".to_string();
    assert_eq!(
        sap_calendar_sync::ics_generator::event_description(&e),
        "Lecture\n\nRoom: R1\nInstructor: Smith\nRemarks: Bring laptop"
    );
}

#[test]
fn uid_separates_title_from_start() {
    let mut a = event("a1", "R", "Smith");
    a.start = 2;
    a.end = 3;
    let mut b = event("a", "R", "Smith");
    b.start = 12;
    b.end = 3;
    assert_eq!(a.generate_uid(), "sap-02ea8b4a400e3fb4");
    assert_eq!(b.generate_uid(), "sap-73f0f03283797dfa");
    assert_eq!(a.generate_uid().len(), 20);
}

#[test]
fn mojibake_repair_is_idempotent() {
    let s = "\u{c3}\u{178}\u{83}\u{c2}\u{a4}\u{c3}\u{201e}\u{83}\u{c2}\u{a4}";
    let once = fix_mojibake(s);
    assert_eq!(once, "ää");
    assert_eq!(fix_mojibake(&once), once);
    let plain = fix_mojibake("MÃ¼nchen");
    assert_eq!(fix_mojibake(&plain), plain);
}
