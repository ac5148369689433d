use breakpoint_player::breakpoint::Breakpoint;
use breakpoint_player::collection::BreakpointCollection;
use breakpoint_player::document::Document;
use breakpoint_player::history::{Action, ActionLog, NoOpError};
use breakpoint_player::player::PlaybackController;

fn bp(ms: u64, hint: &str) -> Breakpoint {
    Breakpoint::new(ms, hint.to_string())
}

fn times(c: &BreakpointCollection) -> Vec<u64> {
    c.to_vec().iter().map(|b| b.timepoint()).collect()
}

#[test]
fn empty_log_has_nothing_to_undo_or_redo() {
    let mut log = ActionLog::new(ActionLog::DEFAULT_CAPACITY);
    let mut marks = BreakpointCollection::new();
    assert_eq!(log.capacity(), 255);
    assert_eq!(log.undo(&mut marks), Err(NoOpError::NothingToUndo));
    assert_eq!(log.redo(&mut marks), Err(NoOpError::NothingToRedo));
    assert_eq!(NoOpError::NothingToUndo.message(), "nothing to undo");
    assert_eq!(NoOpError::NothingToRedo.message(), "nothing to redo");
}

#[test]
fn undo_and_redo_of_an_addition() {
    let mut doc = Document::new(8);
    doc.add(bp(10, "a"));
    doc.add(bp(30, "c"));
    let before = times(doc.marks());
    doc.add(bp(20, "b"));
    let after = times(doc.marks());
    assert_eq!(after, vec![10, 20, 30]);
    assert_eq!(doc.undo(), Ok(()));
    assert_eq!(times(doc.marks()), before);
    assert_eq!(doc.redo(), Ok(()));
    assert_eq!(times(doc.marks()), after);
    assert_eq!(doc.marks().get(1).hint(), "b");
}

#[test]
fn undo_and_redo_of_a_removal() {
    let mut doc = Document::new(8);
    doc.add(bp(10, "a"));
    doc.add(bp(20, "b"));
    assert!(doc.remove(&bp(10, "a")));
    assert!(!doc.remove(&bp(10, "a")));
    assert_eq!(doc.history().len(), 3);
    assert_eq!(times(doc.marks()), vec![20]);
    doc.undo().unwrap();
    assert_eq!(times(doc.marks()), vec![10, 20]);
    doc.redo().unwrap();
    assert_eq!(times(doc.marks()), vec![20]);
}

#[test]
fn undo_and_redo_of_clear_all() {
    let mut doc = Document::new(8);
    doc.add(bp(10, "a"));
    doc.add(bp(20, "b"));
    doc.clear_all();
    assert!(doc.marks().is_empty());
    doc.undo().unwrap();
    assert_eq!(times(doc.marks()), vec![10, 20]);
    doc.redo().unwrap();
    assert!(doc.marks().is_empty());
}

#[test]
fn remove_nearest_takes_the_closer_marker() {
    let mut doc = Document::new(8);
    doc.add(bp(10_000, "a"));
    doc.add(bp(30_000, "b"));
    let gone = doc.remove_nearest(24_000).unwrap();
    assert_eq!(gone.timepoint(), 30_000);
    assert_eq!(times(doc.marks()), vec![10_000]);
    doc.undo().unwrap();
    assert_eq!(times(doc.marks()), vec![10_000, 30_000]);
    let mut empty = Document::new(8);
    assert!(empty.remove_nearest(5).is_none());
    assert_eq!(empty.history().len(), 0);
}

#[test]
fn new_edit_after_undo_discards_redo() {
    let mut doc = Document::new(8);
    doc.add(bp(1, "a"));
    doc.add(bp(2, "b"));
    doc.add(bp(3, "c"));
    doc.undo().unwrap();
    doc.undo().unwrap();
    assert!(doc.history().can_redo());
    doc.add(bp(4, "d"));
    assert_eq!(doc.history().len(), 2);
    assert_eq!(doc.history().current_index(), 2);
    assert_eq!(doc.redo(), Err(NoOpError::NothingToRedo));
    assert_eq!(times(doc.marks()), vec![1, 4]);
}

#[test]
fn log_never_grows_past_its_capacity() {
    let mut log = ActionLog::new(3);
    let mut marks = BreakpointCollection::new();
    for t in 0..10u64 {
        let b = bp(t, "x");
        marks.insert(b.clone());
        log.record(Action::Add(b));
        assert!(log.len() <= 3);
        assert!(log.current_index() <= log.len());
    }
    assert_eq!(log.len(), 3);
    assert_eq!(log.current_index(), 3);
    for _ in 0..3 {
        log.undo(&mut marks).unwrap();
    }
    assert_eq!(log.undo(&mut marks), Err(NoOpError::NothingToUndo));
    assert_eq!(times(&marks), vec![0, 1, 2, 3, 4, 5, 6]);
}

#[test]
fn reset_forgets_marks_and_history() {
    let mut doc = Document::new(8);
    doc.add(bp(1, "a"));
    doc.reset();
    assert!(doc.marks().is_empty());
    assert_eq!(doc.history().len(), 0);
    assert_eq!(doc.undo(), Err(NoOpError::NothingToUndo));
}

#[test]
fn load_mark_seek_undo_redo_end_to_end() {
    let mut player = PlaybackController::new();
    player.replace_file(Some(120_000));
    assert_eq!(player.total_duration(), Some(120_000));
    let mut doc = Document::new(ActionLog::DEFAULT_CAPACITY);
    doc.add(bp(10_000, "intro"));
    doc.add(bp(60_000, "verse"));
    doc.add(bp(90_000, "outro"));
    player.set_progress(45_000);
    let position = player.get_progress();
    assert_eq!(position, 45_000);
    let (p, n) = doc.neighbors(position);
    assert_eq!(p.unwrap().timepoint(), 10_000);
    assert_eq!(n.unwrap().timepoint(), 60_000);
    for _ in 0..3 {
        doc.undo().unwrap();
    }
    assert!(doc.marks().is_empty());
    for _ in 0..3 {
        doc.redo().unwrap();
    }
    assert_eq!(times(doc.marks()), vec![10_000, 60_000, 90_000]);
    let hints: Vec<String> = doc.marks().to_vec().iter().map(|b| b.hint()).collect();
    assert_eq!(hints, vec!["intro", "verse", "outro"]);
}

fn hints(doc: &Document) -> Vec<(u64, String)> {
    doc.marks().to_vec().iter().map(|b| (b.timepoint(), b.hint())).collect()
}

#[test]
fn equal_offsets_are_ordered_by_hint() {
    let mut doc = Document::new(8);
    doc.add(bp(10_000, ""));
    doc.add(bp(10_000, "a"));
    doc.add(bp(10_000, "B"));
    assert_eq!(
        hints(&doc),
        vec![(10_000, "".to_string()), (10_000, "B".to_string()), (10_000, "a".to_string())]
    );
}

#[test]
fn undo_of_removal_restores_order_among_equal_offsets() {
    let mut doc = Document::new(8);
    doc.add(bp(10_000, ""));
    doc.add(bp(10_000, "a"));
    let before = hints(&doc);
    assert!(doc.remove(&bp(10_000, "")));
    doc.undo().unwrap();
    assert_eq!(hints(&doc), before);
    doc.undo().unwrap();
    let one = hints(&doc);
    doc.redo().unwrap();
    assert_eq!(hints(&doc), before);
    doc.undo().unwrap();
    assert_eq!(hints(&doc), one);
}

#[test]
fn undo_then_redo_is_identity_for_every_edit() {
    let mut doc = Document::new(8);
    doc.add(bp(5, "x"));
    doc.add(bp(5, "w"));
    doc.add(bp(1, "z"));
    doc.remove(&bp(5, "x"));
    doc.clear_all();
    doc.add(bp(3, "q"));
    for _ in 0..6 {
        let now = hints(&doc);
        doc.undo().unwrap();
        let back = hints(&doc);
        doc.redo().unwrap();
        assert_eq!(hints(&doc), now);
        doc.undo().unwrap();
        assert_eq!(hints(&doc), back);
    }
    assert_eq!(doc.undo(), Err(NoOpError::NothingToUndo));
}
