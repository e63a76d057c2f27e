//! Widgets: Buttons, charts, etc.

use crate::layout::Rect;
use vstd::prelude::*;

verus! {

/// Basic event/message type for widgets.
pub enum WidgetEvent {
    Pressed,
    Released,
    Clicked,
    ValueChanged(u32),
}

/// Widget trait for all UI elements.
pub trait Widget {
    /// Draw the widget into a framebuffer or via a driver.
    fn draw(&self, area: &Rect, buffer: &mut [u8]);

    /// Handle an event (e.g., touch, state change).
    fn handle_event(&mut self, event: WidgetEvent);

    /// Get the widget's bounding rectangle.
    fn rect(&self) -> &Rect;
}

/// A simple Button widget.
pub struct Button {
    pub label: &'static str,
    pub rect: Rect,
    pub pressed: bool,
}

/// Whether a button is held down once `event` has reached it.
pub open spec fn pressed_after(pressed: bool, event: WidgetEvent) -> bool {
    match event {
        WidgetEvent::Pressed => true,
        WidgetEvent::Released | WidgetEvent::Clicked => false,
        WidgetEvent::ValueChanged(_) => pressed,
    }
}

impl Button {
    /// A button that is not pressed.
    pub fn new(label: &'static str, rect: Rect) -> (button: Self)
        ensures
            button == (Button { label, rect, pressed: false }),
    {
        Self { label, rect, pressed: false }
    }
}

impl Widget for Button {
    /// Leaves `buffer` as it is: a button has no pixels of its own yet.
    fn draw(&self, area: &Rect, buffer: &mut [u8])
        ensures
            final(buffer)@ == old(buffer)@,
    {
    }

    /// A press holds the button down, a release or click lets it go, and
    /// any other event leaves it as it is.
    fn handle_event(&mut self, event: WidgetEvent)
        ensures
            *final(self) == (Button {
                pressed: pressed_after(old(self).pressed, event),
                ..*old(self)
            }),
    {
        match event {
            WidgetEvent::Pressed => self.pressed = true,
            WidgetEvent::Released | WidgetEvent::Clicked => self.pressed = false,
            _ => {},
        }
    }

    fn rect(&self) -> (r: &Rect)
        ensures
            *r == self.rect,
    {
        &self.rect
    }
}

} // verus!
