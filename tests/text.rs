use breakpoint_player::files::{
    classify, collect_marks, timepoint_from_parts, timepoint_to_parts, DecodeError, FileCategory,
    OpenError,
};
use breakpoint_player::breakpoint::Breakpoint;
use breakpoint_player::layout::{Dir2, Dir4};
use breakpoint_player::timefmt::{secs_to_string, string_to_secs};
use breakpoint_player::windows::Guardian;

#[test]
fn clock_text_of_seconds() {
    assert_eq!(secs_to_string(0), "00:00");
    assert_eq!(secs_to_string(5), "00:05");
    assert_eq!(secs_to_string(65), "01:05");
    assert_eq!(secs_to_string(600), "10:00");
    assert_eq!(secs_to_string(3_599), "59:59");
    assert_eq!(secs_to_string(3_600), "1:00:00");
    assert_eq!(secs_to_string(3_725), "1:02:05");
    assert_eq!(secs_to_string(36_000 * 10), "100:00:00");
    assert_eq!(secs_to_string(u64::MAX), "5124095576030431:00:15");
}

#[test]
fn seconds_of_clock_text() {
    assert_eq!(string_to_secs("0"), Some(0));
    assert_eq!(string_to_secs("42"), Some(42));
    assert_eq!(string_to_secs("01:05"), Some(65));
    assert_eq!(string_to_secs("1:02:05"), Some(3_725));
    assert_eq!(string_to_secs("+3:+4"), Some(184));
    assert_eq!(string_to_secs("1:75"), Some(135));
    assert_eq!(string_to_secs(""), None);
    assert_eq!(string_to_secs("1::2"), None);
    assert_eq!(string_to_secs(":5"), None);
    assert_eq!(string_to_secs("1:a"), None);
    assert_eq!(string_to_secs("-1"), None);
    assert_eq!(string_to_secs("+"), None);
    assert_eq!(string_to_secs("1+2"), None);
    assert_eq!(string_to_secs("18446744073709551615"), Some(u64::MAX));
    assert_eq!(string_to_secs("18446744073709551616"), None);
    assert_eq!(string_to_secs("307445734561825860:15"), Some(u64::MAX));
    assert_eq!(string_to_secs("307445734561825860:16"), None);
}

#[test]
fn clock_text_round_trip() {
    for s in [0u64, 59, 60, 3_599, 3_600, 86_399, 1_000_000] {
        assert_eq!(string_to_secs(&secs_to_string(s)), Some(s));
    }
}

#[test]
fn file_kind_from_extension() {
    assert_eq!(classify(Some("mp3")), Ok(FileCategory::Mp3));
    assert_eq!(classify(Some("bax")), Ok(FileCategory::Bax));
    assert_eq!(classify(Some("MP3")), Err(OpenError::UnsupportedExtension));
    assert_eq!(classify(Some("wav")), Err(OpenError::UnsupportedExtension));
    assert_eq!(classify(None), Err(OpenError::UnsupportedExtension));
    assert!(FileCategory::Nil.is_nil());
    assert!(!FileCategory::Mp3.is_nil());
}

#[test]
fn error_messages_are_distinct() {
    let all = [
        OpenError::UnsupportedExtension,
        OpenError::CorruptSaveFile,
        OpenError::Io,
        OpenError::Decode(DecodeError::UnrecognizedFormat),
        OpenError::Decode(DecodeError::Io),
        OpenError::Decode(DecodeError::Malformed),
        OpenError::Decode(DecodeError::ResourceLimit),
        OpenError::Decode(DecodeError::ResetRequired),
        OpenError::Decode(DecodeError::NoStreams),
    ];
    let msgs: Vec<String> = all.iter().map(|e| e.message()).collect();
    for i in 0..msgs.len() {
        for j in i + 1..msgs.len() {
            assert_ne!(msgs[i], msgs[j]);
        }
    }
}

#[test]
fn offsets_in_saved_form() {
    assert_eq!(timepoint_from_parts(12, 345_000_000), Some(12_345));
    assert_eq!(timepoint_from_parts(0, 999_999), Some(0));
    assert_eq!(timepoint_from_parts(1, 1_000_000_000), Some(2_000));
    assert_eq!(timepoint_from_parts(0, u32::MAX), Some(4_294));
    assert_eq!(timepoint_from_parts(u64::MAX / 1000, 551_000_000), Some(u64::MAX - 64));
    assert_eq!(timepoint_from_parts(u64::MAX / 1000, 616_000_000), None);
    assert_eq!(timepoint_from_parts(u64::MAX, 0), None);
    assert_eq!(timepoint_to_parts(12_345), (12, 345_000_000));
    assert_eq!(timepoint_to_parts(999), (0, 999_000_000));
}

#[test]
fn collected_marks_are_ordered() {
    let marks = vec![
        Breakpoint::new(300, "c".to_string()),
        Breakpoint::new(100, "a".to_string()),
        Breakpoint::new(200, "b".to_string()),
    ];
    let c = collect_marks(marks);
    let t: Vec<u64> = c.to_vec().iter().map(|b| b.timepoint()).collect();
    assert_eq!(t, vec![100, 200, 300]);
}

#[test]
fn window_states_by_title() {
    let mut g = Guardian::new();
    let about = "About".to_string();
    assert_eq!(g.window_status(&about), None);
    assert!(g.status_or_insert(about.clone(), true));
    assert_eq!(g.window_status(&about), Some(true));
    g.set_window_status(about.clone(), false);
    assert_eq!(g.window_status(&about), Some(false));
    assert!(!g.status_or_insert(about.clone(), true));
    g.set_window_status("Add".to_string(), true);
    assert_eq!(g.window_status(&"Add".to_string()), Some(true));
    assert_eq!(g.window_status(&about), Some(false));
}

#[test]
fn sides_and_axes() {
    assert_eq!(Dir4::Left.to_string(), "left");
    assert_eq!(Dir4::Right.to_string(), "right");
    assert_eq!(Dir4::Top.to_string(), "top");
    assert_eq!(Dir4::Bottom.to_string(), "bottom");
    assert_eq!(Dir2::from(Dir4::Top), Dir2::Vertical);
    assert_eq!(Dir2::from(Dir4::Bottom), Dir2::Vertical);
    assert_eq!(Dir2::from(Dir4::Left), Dir2::Horizontal);
    assert_eq!(Dir2::from(Dir4::Right), Dir2::Horizontal);
}
