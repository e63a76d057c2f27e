use ferrogl::layout::Rect;
use ferrogl::widget::{Button, Widget, WidgetEvent};

fn area() -> Rect {
    Rect { x: 1, y: 2, width: 30, height: 10 }
}

#[test]
fn new_button_is_not_pressed() {
    let button = Button::new("ok", area());
    assert_eq!(button.label, "ok");
    assert_eq!(button.rect, area());
    assert!(!button.pressed);
}

#[test]
fn press_and_release_toggle_the_button() {
    let mut button = Button::new("ok", area());
    button.handle_event(WidgetEvent::Pressed);
    assert!(button.pressed);
    button.handle_event(WidgetEvent::Released);
    assert!(!button.pressed);
    button.handle_event(WidgetEvent::Pressed);
    button.handle_event(WidgetEvent::Clicked);
    assert!(!button.pressed);
}

#[test]
fn other_events_leave_the_button_as_it_is() {
    let mut button = Button::new("ok", area());
    button.handle_event(WidgetEvent::ValueChanged(7));
    assert!(!button.pressed);
    button.handle_event(WidgetEvent::Pressed);
    button.handle_event(WidgetEvent::ValueChanged(7));
    assert!(button.pressed);
    assert_eq!(button.label, "ok");
    assert_eq!(button.rect, area());
}

#[test]
fn rect_returns_the_bounding_rectangle() {
    let button = Button::new("ok", area());
    assert_eq!(*button.rect(), area());
}

#[test]
fn draw_leaves_the_buffer_untouched() {
    let button = Button::new("ok", area());
    let mut buffer = [4u8; 8];
    button.draw(&area(), &mut buffer);
    assert_eq!(buffer, [4u8; 8]);
}
