use simple_3d::{apply_action, Action, Effect, Screen};

type Delta = [f64; 3];

#[test]
fn add_object_appends() {
    let mut screen = Screen::new(2, 2);
    let mut objects: Vec<&str> = vec!["cube"];
    let effect = apply_action::<&str, Delta>(&mut screen, &mut objects, Action::AddObject(Box::new("ball")));
    assert!(matches!(effect, Effect::Nothing));
    assert_eq!(objects, vec!["cube", "ball"]);
}

#[test]
fn resize_replaces_the_screen() {
    let mut screen = Screen::new(100, 100);
    let mut objects: Vec<u8> = vec![];
    let effect = apply_action::<u8, Delta>(&mut screen, &mut objects, Action::Resize(200, 150));
    assert_eq!(screen.size(), (200, 150));
    assert_eq!(screen.buffer().len(), 200 * 150);
    match effect {
        Effect::Reaspect(w, h) => assert_eq!(w as f64 / h as f64, 200.0 / 150.0),
        _ => panic!("the camera must take the new aspect"),
    }
}

#[test]
fn move_camera_is_handed_on() {
    let mut screen = Screen::new(1, 1);
    let mut objects: Vec<u8> = vec![1];
    let effect = apply_action(&mut screen, &mut objects, Action::MoveCamera([0.0, 0.1, 0.0]));
    assert!(matches!(effect, Effect::MoveCamera(v) if v == [0.0, 0.1, 0.0]));
    assert_eq!(objects, vec![1]);
}

#[test]
fn rotate_in_range_is_handed_on() {
    let mut screen = Screen::new(1, 1);
    let mut objects: Vec<u8> = vec![1, 2];
    let effect = apply_action(&mut screen, &mut objects, Action::RotateObject(1, [0.01, 0.02, 0.03]));
    assert!(matches!(effect, Effect::RotateObject(1, v) if v == [0.01, 0.02, 0.03]));
}

#[test]
fn rotate_out_of_range_is_ignored() {
    let mut screen = Screen::new(1, 1);
    let mut objects: Vec<u8> = vec![1];
    let effect = apply_action(&mut screen, &mut objects, Action::RotateObject(7, [1.0, 1.0, 1.0]));
    assert!(matches!(effect, Effect::Nothing));
    assert_eq!(objects, vec![1]);
    let effect = apply_action::<u8, Delta>(&mut screen, &mut objects, Action::AddObject(Box::new(2)));
    assert!(matches!(effect, Effect::Nothing));
    assert_eq!(objects, vec![1, 2]);
    let effect = apply_action(&mut screen, &mut objects, Action::RotateObject(1, [1.0, 1.0, 1.0]));
    assert!(matches!(effect, Effect::RotateObject(1, _)));
}

#[test]
fn end_stops() {
    let mut screen = Screen::new(1, 1);
    let mut objects: Vec<u8> = vec![];
    let effect = apply_action::<u8, Delta>(&mut screen, &mut objects, Action::End);
    assert!(matches!(effect, Effect::Stop));
}
