use blink_core::clipboard::ClipboardMode;
use blink_core::paste_worker::{ConflictResolution, PasteEvent, PasteWorker};

fn strings(v: &[&str]) -> Vec<String> {
    v.iter().map(|s| s.to_string()).collect()
}

#[test]
fn a_conflict_free_paste_walks_every_file_and_finishes_once() {
    let mut w = PasteWorker::new(strings(&["/s/a", "/s/b"]), ClipboardMode::Copy, "/d".to_string());
    let mut transfers: Vec<(String, String)> = Vec::new();
    let mut finished = 0;
    loop {
        if w.is_done() {
            break;
        }
        if w.is_finishing() {
            match w.finish_event() {
                PasteEvent::Finished(mode) => {
                    assert_eq!(mode, ClipboardMode::Copy);
                    finished += 1;
                }
                PasteEvent::Conflict(_) => panic!("finish emitted a conflict"),
            }
            continue;
        }
        match w.start_file() {
            None => continue,
            Some(candidate) => {
                // nothing exists on this pretend disk
                assert!(w.on_exists(false).is_none());
                let (source, dest, _mode) = w.current_transfer();
                assert_eq!(dest, candidate);
                transfers.push((source, dest));
                w.on_transfer_done();
            }
        }
    }
    assert_eq!(finished, 1);
    assert_eq!(
        transfers,
        vec![
            ("/s/a".to_string(), "/d/a".to_string()),
            ("/s/b".to_string(), "/d/b".to_string()),
        ]
    );
}

#[test]
fn cancel_aborts_the_remainder_with_exactly_one_finished_event() {
    // three files: the first succeeds, the second provokes a conflict
    // that the user answers with cancel; the third must never transfer
    let mut w = PasteWorker::new(
        strings(&["/s/one", "/s/two", "/s/three"]),
        ClipboardMode::Cut,
        "/d".to_string(),
    );
    // first file: free, transferred
    let c1 = w.start_file().expect("first candidate");
    assert_eq!(c1, "/d/one");
    assert!(w.on_exists(false).is_none());
    let (src, _dst, _) = w.current_transfer();
    assert_eq!(src, "/s/one");
    w.on_transfer_done();
    // second file: taken, conflict goes out
    let c2 = w.start_file().expect("second candidate");
    let event = w.on_exists(true).expect("conflict event");
    match event {
        PasteEvent::Conflict(p) => assert_eq!(p, c2),
        PasteEvent::Finished(_) => panic!("conflict expected"),
    }
    // the user cancels: the worker turns terminal at once
    w.on_resolution(&ConflictResolution::Cancel);
    assert!(w.is_finishing());
    let terminal = w.finish_event();
    match terminal {
        PasteEvent::Finished(mode) => assert_eq!(mode, ClipboardMode::Cut),
        PasteEvent::Conflict(_) => panic!("finished expected"),
    }
    assert!(w.is_done());
    // done is absorbing: no further phase accepts work for the third file
    assert!(!w.is_finishing());
}

#[test]
fn a_second_resolution_for_one_conflict_is_ignored() {
    let mut w = PasteWorker::new(strings(&["/s/f", "/s/g"]), ClipboardMode::Copy, "/d".to_string());
    let _c = w.start_file().expect("candidate");
    let _conflict = w.on_exists(true).expect("conflict event");
    w.on_resolution(&ConflictResolution::Replace);
    // a duplicate answer arrives late; nothing may change
    w.on_resolution(&ConflictResolution::Cancel);
    let (source, dest, _) = w.current_transfer();
    assert_eq!(source, "/s/f");
    assert_eq!(dest, "/d/f");
    w.on_transfer_done();
    // the next file is unaffected
    let c2 = w.start_file().expect("second candidate");
    assert_eq!(c2, "/d/g");
}

#[test]
fn a_rename_resolution_rechecks_the_fresh_name() {
    let mut w = PasteWorker::new(strings(&["/s/f.txt"]), ClipboardMode::Copy, "/d".to_string());
    let _ = w.start_file().expect("candidate");
    let _ = w.on_exists(true).expect("conflict");
    w.on_resolution(&ConflictResolution::Rename("fresh.txt".to_string()));
    // the renamed candidate is checked again; this time it is free
    assert!(w.on_exists(false).is_none());
    let (_, dest, _) = w.current_transfer();
    assert_eq!(dest, "/d/fresh.txt");
}

#[test]
fn replace_keeps_the_standing_candidate() {
    let mut w = PasteWorker::new(strings(&["/s/f"]), ClipboardMode::Copy, "/d".to_string());
    let c = w.start_file().expect("candidate");
    let _ = w.on_exists(true).expect("conflict");
    w.on_resolution(&ConflictResolution::Replace);
    let (_, dest, _) = w.current_transfer();
    assert_eq!(dest, c);
}

#[test]
fn paths_without_names_are_skipped() {
    let mut w = PasteWorker::new(strings(&["/", "/s/real"]), ClipboardMode::Copy, "/d".to_string());
    // the first path has no final component: skipped without a candidate
    assert!(w.start_file().is_none());
    assert!(!w.is_finishing());
    let c = w.start_file().expect("the real file");
    assert_eq!(c, "/d/real");
}

#[test]
fn an_empty_snapshot_finishes_at_once() {
    let mut w = PasteWorker::new(Vec::new(), ClipboardMode::Copy, "/d".to_string());
    assert!(w.start_file().is_none());
    assert!(w.is_finishing());
    match w.finish_event() {
        PasteEvent::Finished(_) => {}
        PasteEvent::Conflict(_) => panic!("finished expected"),
    }
    assert!(w.is_done());
}
