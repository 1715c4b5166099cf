use topola::math::RotationSense;
use topola::overlay::Overlay;
use topola::router::ng::Alignment;
use topola::router::tracer::TracerStatus;
use topola::rules::Conditions;
use topola::step::IsFinished;
use topola::stepper::LinearScale;
use topola::weight::{BendWeight, Label};

#[test]
fn step_ccw_wraps_around() {
    assert_eq!(RotationSense::Counterclockwise.step_ccw(3, 5, 4), 2);
    assert_eq!(RotationSense::Clockwise.step_ccw(3, 5, 4), 4);
    assert_eq!(RotationSense::Clockwise.step_ccw(0, 5, 1), 4);
    assert_eq!(RotationSense::Counterclockwise.step_ccw(4, 5, 1), 0);
    assert_eq!(RotationSense::Counterclockwise.step_ccw(2, 5, 12), 4);
    assert_eq!(RotationSense::Clockwise.step_ccw(2, 5, 12), 0);
}

#[test]
fn rotation_sense_negation_turns_around() {
    assert_eq!(-RotationSense::Clockwise, RotationSense::Counterclockwise);
    assert_eq!(-RotationSense::Counterclockwise, RotationSense::Clockwise);
    assert_eq!(-(-RotationSense::Clockwise), RotationSense::Clockwise);
}

#[test]
fn alignment_mirrors_and_steps() {
    assert_eq!(-Alignment::Left, Alignment::Right);
    assert_eq!(-Alignment::Center, Alignment::Center);
    assert_eq!(-(-Alignment::Right), Alignment::Right);
    let mut a = Alignment::Left;
    a.incr_inplace();
    assert_eq!(a, Alignment::Center);
    a.incr_inplace();
    assert_eq!(a, Alignment::Right);
}

#[test]
fn conditions_priority_adds_powers_of_two() {
    let none = Conditions { lower_net: None, higher_net: None, layer: None, zone: None };
    assert_eq!(none.priority(), 0);
    let all = Conditions { lower_net: Some(1), higher_net: Some(2), layer: Some(0), zone: Some(7) };
    assert_eq!(all.priority(), 15);
    let layer = Conditions { layer: Some(3), ..none };
    assert_eq!(layer.priority(), 4);
    let nets = Conditions { lower_net: Some(1), higher_net: Some(2), ..none };
    assert_eq!(nets.priority(), 3);
    let zone = Conditions { zone: Some(0), ..none };
    assert_eq!(zone.priority(), 8);
}

#[test]
fn tracer_status_finished() {
    assert!(TracerStatus::Finished.finished());
    assert!(!TracerStatus::Running.finished());
}

#[test]
fn linear_scale_keeps_its_parts() {
    let scale = LinearScale::new(3u32, 10u32, 'x');
    assert_eq!(*scale.value(), 3);
    assert_eq!(*scale.maximum(), 10);
    assert_eq!(*scale.subscale(), 'x');
}

#[test]
fn weights_compare_by_fields() {
    assert_eq!(BendWeight { net: 2, cw: true }, BendWeight { net: 2, cw: true });
    assert_ne!(BendWeight { net: 2, cw: true }, BendWeight { net: 2, cw: false });
    assert_ne!(Label::End, Label::Core);
    assert!(Label::End.is_end() && !Label::End.is_core() && !Label::End.is_outer());
    assert!(Label::Outer.is_outer() && Label::Core.is_core());
}

#[test]
fn overlay_toggles_selection() {
    let mut overlay: Overlay<u64> = Overlay::new();
    assert!(overlay.selection().is_empty());
    overlay.toggle_selection(7);
    overlay.toggle_selection(3);
    assert!(overlay.selection().contains(&7) && overlay.selection().contains(&3));
    overlay.toggle_selection(7);
    assert!(!overlay.selection().contains(&7));
    assert_eq!(overlay.selection().len(), 1);
    overlay.toggle_selection(3);
    assert!(overlay.selection().is_empty());
}
