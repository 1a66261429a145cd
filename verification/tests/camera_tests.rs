use terminal_renderer::camera::{movement_intent, MovementIntent};
use terminal_renderer::keyboard::Keys;

#[test]
fn no_keys_no_motion() {
    assert_eq!(movement_intent(&[]), MovementIntent { x: 0, y: 0, z: 0, yaw: 0, pitch: 0 });
}

#[test]
fn each_key_steers_its_axis() {
    assert_eq!(movement_intent(&[Keys::W]).z, -1);
    assert_eq!(movement_intent(&[Keys::S]).z, 1);
    assert_eq!(movement_intent(&[Keys::A]).x, -1);
    assert_eq!(movement_intent(&[Keys::D]).x, 1);
    assert_eq!(movement_intent(&[Keys::C]).y, -1);
    assert_eq!(movement_intent(&[Keys::Space]).y, 1);
    assert_eq!(movement_intent(&[Keys::Left]).yaw, -1);
    assert_eq!(movement_intent(&[Keys::Right]).yaw, 1);
    assert_eq!(movement_intent(&[Keys::Up]).pitch, 1);
    assert_eq!(movement_intent(&[Keys::Down]).pitch, -1);
    assert_eq!(movement_intent(&[Keys::CtrlC]), MovementIntent { x: 0, y: 0, z: 0, yaw: 0, pitch: 0 });
}

#[test]
fn opposite_keys_cancel() {
    let i = movement_intent(&[Keys::W, Keys::S, Keys::A, Keys::Left, Keys::Right, Keys::Up]);
    assert_eq!(i, MovementIntent { x: -1, y: 0, z: 0, yaw: 0, pitch: 1 });
}
