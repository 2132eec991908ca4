//! A dialog with a message and a row of buttons, one of them selected.

use vstd::prelude::*;
use crate::app::{Key, is_confirm_key, is_down_key, is_left_key, is_right_key, is_up_key};

verus! {

/// A rectangle of terminal cells.
#[derive(Debug, Clone, Copy, PartialEq, Eq, Structural)]
pub struct Area {
    pub x: u16,
    pub y: u16,
    pub width: u16,
    pub height: u16,
}

pub struct Popup<T> {
    pub cursor_position: u16,
    pub number_of_buttons: u16,
    pub buttons_content: Vec<String>,
    pub popup_content: String,
    pub popup_type: T,
}

impl<T> Popup<T> {
    /// The selected button after a step to the left.
    pub open spec fn cursor_after_left(self) -> u16 {
        if self.cursor_position > 0 && self.number_of_buttons != 0 {
            (self.cursor_position - 1) as u16
        } else {
            self.cursor_position
        }
    }

    /// The selected button after a step to the right.
    pub open spec fn cursor_after_right(self) -> u16 {
        if self.number_of_buttons != 0 && self.cursor_position < self.number_of_buttons - 1 {
            (self.cursor_position + 1) as u16
        } else {
            self.cursor_position
        }
    }

    /// The selected button after `key`: left and down step left, right and
    /// up step right.
    pub open spec fn cursor_after_key(self, key: Key) -> u16 {
        if is_confirm_key(key) {
            self.cursor_position
        } else if is_left_key(key) || is_down_key(key) {
            self.cursor_after_left()
        } else if is_right_key(key) || is_up_key(key) {
            self.cursor_after_right()
        } else {
            self.cursor_position
        }
    }

    /// What a key press answers: the selected button on confirmation, else
    /// the number of buttons, which names no button.
    pub open spec fn answer_to_key(self, key: Key) -> u16 {
        if is_confirm_key(key) {
            self.cursor_position
        } else {
            self.number_of_buttons
        }
    }

    /// The part of `area` of the given percentages of its width and height,
    /// centred in it.
    pub fn make_centered_rectangle_area(
        width_percentage: u32,
        height_percentage: u32,
        area: Area,
    ) -> (r: Area)
        requires
            width_percentage <= 100,
            height_percentage <= 100,
            area.width * (100 - width_percentage) <= u16::MAX,
            area.height * (100 - height_percentage) <= u16::MAX,
            area.width * width_percentage <= u16::MAX,
            area.height * height_percentage <= u16::MAX,
            area.x + area.width * (100 - width_percentage) / 200 <= u16::MAX,
            area.y + area.height * (100 - height_percentage) / 200 <= u16::MAX,
        ensures
            r.x == area.x + area.width * (100 - width_percentage) / 200,
            r.y == area.y + area.height * (100 - height_percentage) / 200,
            r.width == area.width * width_percentage / 100,
            r.height == area.height * height_percentage / 100,
    {
        let wp = width_percentage as u16;
        let hp = height_percentage as u16;
        Area {
            x: area.x + area.width * (100 - wp) / 200,
            y: area.y + area.height * (100 - hp) / 200,
            width: area.width * wp / 100,
            height: area.height * hp / 100,
        }
    }

    /// A dialog of the given kind, with the first button selected. The count
    /// of buttons is kept as a `u16`.
    pub fn new(popup_type: T, popup_content: String, buttons_content: Vec<String>) -> (r: Popup<T>)
        ensures
            r.cursor_position == 0,
            r.number_of_buttons == buttons_content.len() as u16,
            r.buttons_content == buttons_content,
            r.popup_content == popup_content,
            r.popup_type == popup_type,
    {
        Popup {
            cursor_position: 0,
            number_of_buttons: buttons_content.len() as u16,
            buttons_content,
            popup_content,
            popup_type,
        }
    }

    fn mv_left(&mut self)
        ensures
            *final(self) == (Popup { cursor_position: old(self).cursor_after_left(), ..*old(self) }),
    {
        if self.cursor_position > 0 && self.number_of_buttons != 0 {
            self.cursor_position = self.cursor_position - 1;
        }
    }

    fn mv_right(&mut self)
        ensures
            *final(self) == (Popup { cursor_position: old(self).cursor_after_right(), ..*old(self) }),
    {
        if self.number_of_buttons != 0 && self.cursor_position < self.number_of_buttons - 1 {
            self.cursor_position = self.cursor_position + 1;
        }
    }

    /// Moves the selection for `key` and answers as `answer_to_key` says.
    pub fn handle_key_press(&mut self, key: Key) -> (r: u16)
        ensures
            r == old(self).answer_to_key(key),
            *final(self) == (Popup { cursor_position: old(self).cursor_after_key(key), ..*old(self) }),
    {
        match key {
            Key::Char('e') | Key::Enter => return self.cursor_position,
            Key::Char('h') | Key::Left => self.mv_left(),
            Key::Char('l') | Key::Right => self.mv_right(),
            Key::Char('k') | Key::Up => self.mv_right(),
            Key::Char('j') | Key::Down => self.mv_left(),
            _ => {},
        }
        self.number_of_buttons
    }
}

} // verus!
