use bootmgr::ui::{clamp, remap, TkEvent};

#[test]
fn remap_scales_between_ranges() {
    assert_eq!(remap(3, 0, 5, 0, 100), 60);
    assert_eq!(remap(0, 0, 5, 0, 100), 0);
    assert_eq!(remap(5, 0, 5, 0, 100), 100);
    assert_eq!(remap(-5, -10, 0, 0, 100), 50);
    assert_eq!(remap(2, 0, 8, 10, 14), 11);
}

#[test]
fn clamp_forces_into_range() {
    assert_eq!(clamp(7, 0, 5), 5);
    assert_eq!(clamp(-3, 0, 5), 0);
    assert_eq!(clamp(3, 0, 5), 3);
    assert_eq!(clamp(0, 0, 5), 0);
    assert_eq!(clamp(5, 0, 5), 5);
}

#[test]
fn events_compare_by_content() {
    assert_eq!(
        TkEvent::ButtonPress("ok".to_string()),
        TkEvent::ButtonPress("ok".to_string())
    );
    assert_ne!(
        TkEvent::ButtonSelect("ok".to_string()),
        TkEvent::ButtonPress("ok".to_string())
    );
    assert_eq!(TkEvent::SliderChange("s".to_string(), 3, 0, 5), TkEvent::SliderChange("s".to_string(), 3, 0, 5));
    assert_ne!(TkEvent::ToggleChange("t".to_string(), true), TkEvent::ToggleChange("t".to_string(), false));
    assert_eq!(TkEvent::Idle, TkEvent::Idle);
}
