//! The selection screen: a grid of items with a cursor, and a dialog that
//! confirms deleting the item under the cursor.

use vstd::prelude::*;
use vstd::string::StringExecFns;
use crate::app::{
    Key, Message, Mode, is_confirm_key, is_delete_key, is_down_key, is_left_key, is_quit_key,
    is_right_key, is_up_key,
};
use crate::popup::Popup;

verus! {

/// The question a dialog of the selection screen asks.
#[derive(Debug, Clone, Copy, PartialEq, Eq, Structural)]
pub enum SelectionPopupTypes {
    DeleteItem,
}

pub struct SelectionApp {
    pub cursor_position: u32,
    pub number_of_elements: u32,
    /// Columns of the grid; it only changes how the grid is drawn and moved in.
    pub n_columns: u32,
    /// Rows of the grid that are shown at once.
    pub n_lines: u32,
    pub elements: Vec<String>,
    pub current_popup: Option<Popup<SelectionPopupTypes>>,
}

/// The text of one decimal digit.
pub open spec fn digit_text(d: nat) -> Seq<char> {
    if d == 0 {
        "0"@
    } else if d == 1 {
        "1"@
    } else if d == 2 {
        "2"@
    } else if d == 3 {
        "3"@
    } else if d == 4 {
        "4"@
    } else if d == 5 {
        "5"@
    } else if d == 6 {
        "6"@
    } else if d == 7 {
        "7"@
    } else if d == 8 {
        "8"@
    } else {
        "9"@
    }
}

/// `n` written in decimal.
pub open spec fn decimal(n: nat) -> Seq<char>
    decreases n,
{
    if n < 10 {
        digit_text(n)
    } else {
        decimal(n / 10) + digit_text(n % 10)
    }
}

/// The label of the item at position `i`.
pub open spec fn item_label(i: nat) -> Seq<char> {
    "number : "@ + decimal(i)
}

/// The dialog that asks whether to delete the selected item.
pub open spec fn is_delete_prompt(p: Popup<SelectionPopupTypes>) -> bool {
    &&& p.popup_type == SelectionPopupTypes::DeleteItem
    &&& p.popup_content@ == "Do you really want to delete this item"@
    &&& p.cursor_position == 0
    &&& p.number_of_buttons == 2
    &&& p.buttons_content@.len() == 2
    &&& p.buttons_content@[0]@ == "YES"@
    &&& p.buttons_content@[1]@ == "NO"@
}

fn digit(d: u32) -> (r: &'static str)
    requires
        d < 10,
    ensures
        r@ == digit_text(d as nat),
{
    if d == 0 {
        "0"
    } else if d == 1 {
        "1"
    } else if d == 2 {
        "2"
    } else if d == 3 {
        "3"
    } else if d == 4 {
        "4"
    } else if d == 5 {
        "5"
    } else if d == 6 {
        "6"
    } else if d == 7 {
        "7"
    } else if d == 8 {
        "8"
    } else {
        "9"
    }
}

fn push_decimal(s: &mut String, n: u32)
    ensures
        final(s)@ == old(s)@ + decimal(n as nat),
    decreases n,
{
    if n >= 10 {
        push_decimal(s, n / 10);
    }
    s.append(digit(n % 10));
    assert(final(s)@ =~= old(s)@ + decimal(n as nat));
}

fn label(i: u32) -> (r: String)
    ensures
        r@ == item_label(i as nat),
{
    let mut s = "number : ".to_owned();
    push_decimal(&mut s, i);
    s
}

impl SelectionApp {
    /// The cursor after a step left, to the previous item.
    pub open spec fn cursor_after_left(self) -> u32 {
        if self.cursor_position > 0 && self.number_of_elements != 0 {
            (self.cursor_position - 1) as u32
        } else {
            self.cursor_position
        }
    }

    /// The cursor after a step right, to the next item.
    pub open spec fn cursor_after_right(self) -> u32 {
        if self.number_of_elements != 0 && self.cursor_position < self.number_of_elements - 1 {
            (self.cursor_position + 1) as u32
        } else {
            self.cursor_position
        }
    }

    /// The cursor after a step up, a row back.
    pub open spec fn cursor_after_up(self) -> u32 {
        if self.number_of_elements != 0 && self.cursor_position >= self.n_columns {
            (self.cursor_position - self.n_columns) as u32
        } else {
            self.cursor_position
        }
    }

    /// The cursor after a step down, a row on, where the grid has an item there.
    pub open spec fn cursor_after_down(self) -> u32 {
        if self.cursor_position + self.n_columns < self.number_of_elements {
            (self.cursor_position + self.n_columns) as u32
        } else {
            self.cursor_position
        }
    }

    /// A grid of thirteen numbered items, three columns wide and three rows
    /// high, with the cursor on the first item and no dialog open.
    pub fn new() -> (r: SelectionApp)
        ensures
            r.cursor_position == 0,
            r.number_of_elements == 13,
            r.n_columns == 3,
            r.n_lines == 3,
            r.elements@.len() == 13,
            forall|i: int| 0 <= i < 13 ==> #[trigger] r.elements@[i]@ == item_label(i as nat),
            r.current_popup is None,
    {
        let mut elements: Vec<String> = Vec::new();
        let mut i: u32 = 0;
        while i < 13
            invariant
                i <= 13,
                elements@.len() == i,
                forall|j: int| 0 <= j < i ==> #[trigger] elements@[j]@ == item_label(j as nat),
            decreases 13 - i,
        {
            elements.push(label(i));
            i = i + 1;
        }
        SelectionApp {
            cursor_position: 0,
            number_of_elements: 13,
            n_columns: 3,
            n_lines: 3,
            elements,
            current_popup: None,
        }
    }

    fn mv_left(&mut self)
        ensures
            *final(self) == (SelectionApp { cursor_position: old(self).cursor_after_left(), ..*old(self) }),
    {
        if self.cursor_position > 0 && self.number_of_elements != 0 {
            self.cursor_position = self.cursor_position - 1;
        }
    }

    fn mv_right(&mut self)
        ensures
            *final(self) == (SelectionApp { cursor_position: old(self).cursor_after_right(), ..*old(self) }),
    {
        if self.number_of_elements != 0 && self.cursor_position < self.number_of_elements - 1 {
            self.cursor_position = self.cursor_position + 1;
        }
    }

    fn mv_up(&mut self)
        ensures
            *final(self) == (SelectionApp { cursor_position: old(self).cursor_after_up(), ..*old(self) }),
    {
        if self.number_of_elements != 0 && self.cursor_position >= self.n_columns {
            self.cursor_position = self.cursor_position - self.n_columns;
        }
    }

    fn mv_down(&mut self)
        ensures
            *final(self) == (SelectionApp { cursor_position: old(self).cursor_after_down(), ..*old(self) }),
    {
        if self.number_of_elements >= self.n_columns
            && self.cursor_position < self.number_of_elements - self.n_columns {
            self.cursor_position = self.cursor_position + self.n_columns;
        }
    }

    /// Without a dialog open, a key changes the mode, moves the cursor, or
    /// opens the dialog that asks to delete the selected item. With the dialog
    /// open, the key goes to it: confirming the first button asks to delete
    /// the selected item, confirming another closes the dialog.
    pub fn handle_key_press(&mut self, key: Key, current_mode: Mode) -> (r: Message)
        ensures
            old(self).current_popup is None ==> {
                if is_confirm_key(key) {
                    &&& *final(self) == *old(self)
                    &&& r == (if current_mode == Mode::SelectionDeck {
                        Message::ChangeMode(Mode::SelectionCard)
                    } else if current_mode == Mode::SelectionCard {
                        Message::ChangeMode(Mode::Edit)
                    } else {
                        Message::Nothing
                    })
                } else if key == Key::Char('t') {
                    &&& *final(self) == *old(self)
                    &&& r == (if current_mode == Mode::SelectionDeck {
                        Message::ChangeMode(Mode::Testing)
                    } else {
                        Message::Nothing
                    })
                } else if is_quit_key(key) {
                    &&& *final(self) == *old(self)
                    &&& r == Message::ChangeMode(Mode::Quit)
                } else if is_delete_key(key) {
                    &&& r == Message::Nothing
                    &&& final(self).cursor_position == old(self).cursor_position
                    &&& final(self).number_of_elements == old(self).number_of_elements
                    &&& final(self).n_columns == old(self).n_columns
                    &&& final(self).n_lines == old(self).n_lines
                    &&& final(self).elements == old(self).elements
                    &&& if old(self).number_of_elements != 0 {
                        &&& final(self).current_popup is Some
                        &&& is_delete_prompt(final(self).current_popup.unwrap())
                    } else {
                        final(self).current_popup is None
                    }
                } else {
                    &&& r == Message::Nothing
                    &&& *final(self) == (SelectionApp {
                        cursor_position: if is_left_key(key) {
                            old(self).cursor_after_left()
                        } else if is_right_key(key) {
                            old(self).cursor_after_right()
                        } else if is_up_key(key) {
                            old(self).cursor_after_up()
                        } else if is_down_key(key) {
                            old(self).cursor_after_down()
                        } else {
                            old(self).cursor_position
                        },
                        ..*old(self)
                    })
                }
            },
            old(self).current_popup is Some ==> {
                let p = old(self).current_popup.unwrap();
                let answer = p.answer_to_key(key);
                let moved = Popup { cursor_position: p.cursor_after_key(key), ..p };
                if answer == p.number_of_buttons {
                    &&& r == Message::Nothing
                    &&& *final(self) == (SelectionApp { current_popup: Some(moved), ..*old(self) })
                } else if answer == 0 {
                    &&& r == Message::Delete(old(self).cursor_position)
                    &&& *final(self) == (SelectionApp { current_popup: Some(moved), ..*old(self) })
                } else {
                    &&& r == Message::Nothing
                    &&& *final(self) == (SelectionApp { current_popup: None, ..*old(self) })
                }
            },
    {
        if self.current_popup.is_none() {
            match key {
                Key::Char('e') | Key::Enter => {
                    if current_mode == Mode::SelectionDeck {
                        return Message::ChangeMode(Mode::SelectionCard);
                    } else if current_mode == Mode::SelectionCard {
                        return Message::ChangeMode(Mode::Edit);
                    }
                },
                Key::Char('t') => {
                    if current_mode == Mode::SelectionDeck {
                        return Message::ChangeMode(Mode::Testing);
                    }
                },
                Key::Char('q') | Key::Esc => return Message::ChangeMode(Mode::Quit),
                Key::Char('h') | Key::Left => self.mv_left(),
                Key::Char('l') | Key::Right => self.mv_right(),
                Key::Char('k') | Key::Up => self.mv_up(),
                Key::Char('j') | Key::Down => self.mv_down(),
                Key::Char('d') | Key::Delete => {
                    if self.number_of_elements != 0 {
                        let mut buttons: Vec<String> = Vec::new();
                        buttons.push("YES".to_owned());
                        buttons.push("NO".to_owned());
                        self.current_popup = Some(
                            Popup::new(
                                SelectionPopupTypes::DeleteItem,
                                "Do you really want to delete this item".to_owned(),
                                buttons,
                            ),
                        );
                    }
                },
                _ => {},
            }
        } else {
            match &mut self.current_popup {
                Some(popup) => {
                    let result = popup.handle_key_press(key);
                    if result == popup.number_of_buttons {
                    } else {
                        if result == 0 {
                            return Message::Delete(self.cursor_position);
                        }
                        self.current_popup = None;
                    }
                },
                None => {},
            }
        }
        Message::Nothing
    }
}

} // verus!
