use std::cell::RefCell;

use bitrate_optimizer::setup::{check_input, create_all_dirs, supported_extension, SetupError, WorkDir};

#[test]
fn supported_extensions() {
    for e in ["flac", "wav", "opus", "ogg", "m4a", "aac", "mp3"] {
        assert!(supported_extension(e.as_bytes()));
    }
    assert!(!supported_extension(b"txt"));
    assert!(!supported_extension(b"FLAC"));
    assert!(!supported_extension(b""));
    assert!(!supported_extension(b"mp34"));
}

#[test]
fn input_checks_in_order() {
    assert_eq!(check_input(false, false, false, None), Err(SetupError::MissingTranscoder));
    assert_eq!(check_input(true, false, false, None), Err(SetupError::MissingQualityTool));
    assert_eq!(check_input(true, true, false, Some(b"wav")), Err(SetupError::MissingInput));
    assert_eq!(check_input(true, true, true, None), Err(SetupError::NoExtension));
    assert_eq!(check_input(true, true, true, Some(b"doc")), Err(SetupError::UnsupportedExtension));
    assert_eq!(check_input(true, true, true, Some(b"flac")), Ok(()));
}

#[test]
fn work_dirs_created_root_first() {
    let r: Result<Vec<&str>, ()> = create_all_dirs(Vec::new(), |mut log: Vec<&str>, d: WorkDir| {
        log.push(d.path());
        Ok(log)
    });
    assert_eq!(r, Ok(vec!["temp", "temp/segments", "temp/probes", "temp/conc"]));
}

#[test]
fn first_failure_stops_dir_creation() {
    let seen = RefCell::new(Vec::new());
    let r = create_all_dirs((), |t: (), d: WorkDir| {
        seen.borrow_mut().push(d);
        if d == WorkDir::Probes {
            Err("permission denied")
        } else {
            Ok(t)
        }
    });
    assert_eq!(r, Err("permission denied"));
    assert_eq!(*seen.borrow(), vec![WorkDir::Root, WorkDir::Segments, WorkDir::Probes]);
}
