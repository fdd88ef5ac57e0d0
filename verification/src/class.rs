//! Capabilities that some widgets have: a text, a boolean state, being
//! editable.

use vstd::prelude::*;
use crate::data::TkAction;

verus! {

/// A widget with a text that can be read and replaced.
pub trait HasText {
    /// The text of the widget.
    spec fn text(&self) -> Seq<char>;

    fn get_text(&self) -> (r: &str)
        ensures
            r@ == self.text(),
    ;

    /// Replaces the text. The result says what the toolkit has to do.
    fn set_cow_string(&mut self, text: String) -> (r: TkAction)
        ensures
            final(self).text() == text@,
            r == TkAction::Redraw,
    ;
}

/// A widget with a boolean state, such as a checkbox.
pub trait HasBool {
    /// The state of the widget.
    spec fn state(&self) -> bool;

    fn get_bool(&self) -> (r: bool)
        ensures
            r == self.state(),
    ;

    /// Sets the state. The result says what the toolkit has to do.
    fn set_bool(&mut self, state: bool) -> (r: TkAction)
        ensures
            final(self).state() == state,
    ;
}

/// A widget whose content the user may or may not edit.
pub trait Editable {
    /// Whether the content can be edited.
    spec fn editable(&self) -> bool;

    fn is_editable(&self) -> (r: bool)
        ensures
            r == self.editable(),
    ;

    fn set_editable(&mut self, editable: bool)
        ensures
            final(self).editable() == editable,
    ;
}

} // verus!
