use magma::mode::{select_mode, Mode, ModeRequest};
use magma::surface::reschedule_delay_ms;

fn m(width: u16, height: u16, refresh: u32, preferred: bool) -> Mode {
    Mode { width, height, refresh, preferred }
}

#[test]
fn exact_refresh_match_wins() {
    // 1920x1080@60, 1920x1080@59.94, 1280x720@60; override 1920x1080@60.
    let modes = vec![
        m(1920, 1080, 60000, false),
        m(1920, 1080, 59940, false),
        m(1280, 720, 60000, false),
    ];
    let req = ModeRequest { width: 1920, height: 1080, refresh: 60000 };
    assert_eq!(select_mode(&modes, Some(req)), Some(0));
}

#[test]
fn closest_refresh_wins_when_no_exact_match() {
    let modes = vec![
        m(1920, 1080, 60000, false),
        m(1920, 1080, 59940, false),
        m(1280, 720, 60000, false),
    ];
    // 59.90 is 40 mHz from 59.94 and 100 mHz from 60.00.
    let req = ModeRequest { width: 1920, height: 1080, refresh: 59900 };
    assert_eq!(select_mode(&modes, Some(req)), Some(1));
}

#[test]
fn refresh_distance_tie_goes_to_earlier_mode() {
    let modes = vec![m(1920, 1080, 59940, false), m(1920, 1080, 60060, false)];
    // 60000 is 60 mHz from both entries: the earlier one wins.
    let req = ModeRequest { width: 1920, height: 1080, refresh: 60000 };
    assert_eq!(select_mode(&modes, Some(req)), Some(0));
}

#[test]
fn override_size_must_exist() {
    let modes = vec![m(1280, 720, 60000, true)];
    let req = ModeRequest { width: 1920, height: 1080, refresh: 60000 };
    assert_eq!(select_mode(&modes, Some(req)), None);
}

#[test]
fn preferred_mode_wins_without_override() {
    let modes = vec![
        m(1024, 768, 60000, false),
        m(1920, 1080, 60000, true),
        m(1280, 720, 60000, false),
    ];
    assert_eq!(select_mode(&modes, None), Some(1));
}

#[test]
fn first_mode_wins_when_none_preferred() {
    let modes = vec![m(1024, 768, 60000, false), m(1280, 720, 60000, false)];
    assert_eq!(select_mode(&modes, None), Some(0));
}

#[test]
fn empty_mode_list_selects_nothing() {
    let modes: Vec<Mode> = Vec::new();
    assert_eq!(select_mode(&modes, None), None);
}

#[test]
fn reschedule_delay_rounds_to_nearest_millisecond() {
    // 60 Hz (60000 mHz): 1e6 / 60000 = 16.67 ms, rounded to 17.
    assert_eq!(reschedule_delay_ms(60000), 17);
    // 59.94 Hz: 16.68 ms, rounded to 17.
    assert_eq!(reschedule_delay_ms(59940), 17);
    // 30 Hz: 33.33 ms, rounded to 33.
    assert_eq!(reschedule_delay_ms(30000), 33);
    // 144 Hz: 6.94 ms, rounded to 7.
    assert_eq!(reschedule_delay_ms(144000), 7);
    // Degenerate 1 mHz: one million milliseconds.
    assert_eq!(reschedule_delay_ms(1), 1_000_000);
}
