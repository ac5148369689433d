use breakpoint_player::player::{DeviceCommand, PlaybackController, PlaybackError};

#[test]
fn nothing_loaded_refuses_play_and_ignores_seek() {
    let mut p = PlaybackController::new();
    assert!(p.is_empty());
    assert!(p.is_paused());
    assert_eq!(p.resume(), Err(PlaybackError::NothingLoaded));
    assert!(p.set_progress(5_000).is_empty());
    assert!(p.reset().is_empty());
    assert_eq!(p.get_progress(), 0);
    assert_eq!(PlaybackError::NothingLoaded.message(), "nothing is loaded");
}

#[test]
fn loading_queues_the_source_paused() {
    let mut p = PlaybackController::new();
    let cmds = p.replace_file(None);
    assert_eq!(
        cmds,
        vec![DeviceCommand::Pause, DeviceCommand::ClearQueue, DeviceCommand::Enqueue(0)]
    );
    assert!(!p.is_empty());
    assert!(p.is_paused());
    assert_eq!(p.total_duration(), None);
    assert_eq!(p.get_progress(), 0);
}

#[test]
fn play_and_pause_move_device_and_timer_together() {
    let mut p = PlaybackController::new();
    p.replace_file(Some(1_000));
    assert_eq!(p.resume(), Ok(vec![DeviceCommand::Play]));
    assert!(!p.is_paused());
    assert_eq!(p.pause(), vec![DeviceCommand::Pause]);
    assert!(p.is_paused());
    let at = p.get_progress();
    assert_eq!(p.get_progress(), at);
}

#[test]
fn seek_while_paused_stays_paused() {
    let mut p = PlaybackController::new();
    p.replace_file(Some(120_000));
    let cmds = p.set_progress(45_000);
    assert_eq!(
        cmds,
        vec![DeviceCommand::ClearQueue, DeviceCommand::Enqueue(45_000), DeviceCommand::Pause]
    );
    assert!(p.is_paused());
    assert_eq!(p.get_progress(), 45_000);
}

#[test]
fn seek_while_playing_keeps_playing() {
    let mut p = PlaybackController::new();
    p.replace_file(Some(120_000));
    p.resume().unwrap();
    let cmds = p.set_progress(30_000);
    assert_eq!(
        cmds,
        vec![DeviceCommand::ClearQueue, DeviceCommand::Enqueue(30_000), DeviceCommand::Play]
    );
    assert!(!p.is_paused());
    assert!(p.get_progress() >= 30_000);
}

#[test]
fn reset_goes_back_to_start() {
    let mut p = PlaybackController::new();
    p.replace_file(Some(9_000));
    p.set_progress(4_000);
    let cmds = p.reset();
    assert_eq!(
        cmds,
        vec![DeviceCommand::ClearQueue, DeviceCommand::Enqueue(0), DeviceCommand::Pause]
    );
    assert_eq!(p.get_progress(), 0);
}

#[test]
fn closing_empties_the_controller() {
    let mut p = PlaybackController::new();
    p.replace_file(Some(9_000));
    p.resume().unwrap();
    assert_eq!(p.clear(), vec![DeviceCommand::Pause, DeviceCommand::ClearQueue]);
    assert!(p.is_empty());
    assert!(p.is_paused());
    assert_eq!(p.total_duration(), None);
    assert_eq!(p.get_progress(), 0);
}

#[test]
fn volume_is_clamped_to_one_hundred() {
    let p = PlaybackController::new();
    assert_eq!(p.set_volume(40), DeviceCommand::SetVolume(40));
    assert_eq!(p.set_volume(100), DeviceCommand::SetVolume(100));
    assert_eq!(p.set_volume(250), DeviceCommand::SetVolume(100));
}
