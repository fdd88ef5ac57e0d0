//! The interface between widgets and a theme.
//!
//! A theme decides sizes and appearance. Widgets ask a [`SizeHandle`] for
//! dimensions while sizes are negotiated and hand a [`DrawHandle`] what is
//! to be drawn, with the highlights that apply. Both are described here by
//! models: the answers of a size handle are a mathematical value, and a draw
//! handle keeps a record of what it was asked to draw.

use vstd::prelude::*;
use crate::data::{Align, Direction};
use crate::event::HighlightState;
use crate::geom::{clamp_i32, Coord, Margins, Rect, Size};
use crate::layout::{AxisInfo, SizeRules};

verus! {

/// Identifies a font. `FontId(0)` is the default font: the first one that
/// the first theme loaded.
#[derive(Clone, Copy, Debug, Default, PartialEq, Eq, Hash)]
pub struct FontId(pub usize);

/// How the surface of a shape is shaded. `N` is the type of a pair of
/// normals `(outer, inner)`, each the horizontal part of the direction that
/// points out of the shape, between -1 and 1.
pub enum Style<N> {
    /// Flat shading.
    Flat,
    /// Square corners, shaded according to the normals.
    Square(N),
    /// Round corners, shaded according to the normals.
    Round(N),
}

impl<N> Style<N> {
    /// The normals, unless the shading is flat.
    pub fn normals(self) -> (r: Option<N>)
        ensures
            r == match self {
                Style::Flat => None,
                Style::Square(n) => Some(n),
                Style::Round(n) => Some(n),
            },
    {
        match self {
            Style::Flat => None,
            Style::Square(n) => Some(n),
            Style::Round(n) => Some(n),
        }
    }
}

/// The kind of text that is drawn.
#[derive(Clone, Copy, Debug, PartialEq, Eq, PartialOrd, Ord, Hash, Structural)]
pub enum TextClass {
    /// Text of a label, drawn over the background.
    Label,
    /// Text drawn on a button.
    Button,
    /// Text in a single-line edit box.
    Edit,
    /// Text in a multi-line edit box.
    EditMulti,
}

/// Class and alignment of a piece of text.
#[derive(Clone, Copy, Debug, PartialEq, Eq, Hash, Structural)]
pub struct TextProperties {
    pub class: TextClass,
    pub horiz: Align,
    pub vert: Align,
}

/// What the toolkit has to do after a theme was adjusted.
#[derive(Clone, Copy, Debug, PartialEq, Eq, PartialOrd, Ord, Structural)]
pub enum ThemeAction {
    /// No action needed.
    Nothing,
    /// All windows need drawing again.
    RedrawAll,
    /// Sizes have changed: windows must be updated and resized.
    ThemeResize,
}

impl ThemeAction {
    pub open spec fn spec_rank(self) -> u8 {
        match self {
            ThemeAction::Nothing => 0u8,
            ThemeAction::RedrawAll => 1u8,
            ThemeAction::ThemeResize => 2u8,
        }
    }

    /// The action that includes the other.
    pub open spec fn spec_stronger(self, rhs: ThemeAction) -> ThemeAction {
        if self.spec_rank() >= rhs.spec_rank() {
            self
        } else {
            rhs
        }
    }

    #[verifier::when_used_as_spec(spec_rank)]
    pub fn rank(self) -> (r: u8)
        ensures
            r == self.spec_rank(),
    {
        match self {
            ThemeAction::Nothing => 0,
            ThemeAction::RedrawAll => 1,
            ThemeAction::ThemeResize => 2,
        }
    }

    #[verifier::when_used_as_spec(spec_stronger)]
    pub fn stronger(self, rhs: ThemeAction) -> (r: ThemeAction)
        ensures
            r == self.spec_stronger(rhs),
    {
        if self.rank() >= rhs.rank() {
            self
        } else {
            rhs
        }
    }
}

/// The answers of a size handle.
pub struct SizeModel {
    /// The frame around child widgets: `(top_left, bottom_right)`.
    pub outer_frame: (Size, Size),
    /// Thickness of a plain frame on each side.
    pub frame: Size,
    /// The margin around content within a widget.
    pub inner_margin: Size,
    /// The margin between widgets, as one size for both sides.
    pub outer_margin: Size,
    /// The margin between widgets, per side.
    pub outer_margins: Margins,
    /// The height of a line of text of each class.
    pub line_height: spec_fn(TextClass) -> u32,
    /// The rules for a piece of text along an axis.
    pub text_bound: spec_fn(Seq<char>, TextClass, AxisInfo) -> SizeRules,
    /// The sides of a button: `(top_left, bottom_right)`.
    pub button_surround: (Size, Size),
    /// The sides of an edit box: `(top_left, bottom_right)`.
    pub edit_surround: (Size, Size),
    pub checkbox: Size,
    pub radiobox: Size,
    /// Of a scrollbar: thickness, least length of the handle, least length
    /// of the bar.
    pub scrollbar: (u32, u32, u32),
}

/// A source of dimensions during size negotiation. Asking changes none of
/// the answers.
pub trait SizeHandle {
    /// All the answers that the handle gives.
    spec fn answers(&self) -> SizeModel;

    /// Size of a frame around child widgets, as `(top_left, bottom_right)`.
    fn outer_frame(&self) -> (r: (Size, Size))
        ensures
            r == self.answers().outer_frame,
    ;

    /// Thickness of a plain frame, per axis.
    fn frame(&self) -> (r: Size)
        ensures
            r == self.answers().frame,
    ;

    /// The margin around content within a widget.
    fn inner_margin(&self) -> (r: Size)
        ensures
            r == self.answers().inner_margin,
    ;

    /// The margin between widgets.
    fn outer_margin(&self) -> (r: Size)
        ensures
            r == self.answers().outer_margin,
    ;

    /// The margin between widgets, per side.
    fn outer_margins(&self) -> (r: Margins)
        ensures
            r == self.answers().outer_margins,
    ;

    /// The height of a line of text.
    fn line_height(&self, class: TextClass) -> (r: u32)
        ensures
            r == (self.answers().line_height)(class),
    ;

    /// The rules for `text` along `axis`.
    fn text_bound(&mut self, text: &str, class: TextClass, axis: AxisInfo) -> (r: SizeRules)
        ensures
            r == (old(self).answers().text_bound)(text@, class, axis),
            final(self).answers() == old(self).answers(),
    ;

    /// Size of the sides of a button, without the content.
    fn button_surround(&self) -> (r: (Size, Size))
        ensures
            r == self.answers().button_surround,
    ;

    /// Size of the sides of an edit box, without the content.
    fn edit_surround(&self) -> (r: (Size, Size))
        ensures
            r == self.answers().edit_surround,
    ;

    /// Size of a checkbox.
    fn checkbox(&self) -> (r: Size)
        ensures
            r == self.answers().checkbox,
    ;

    /// Size of a radiobox.
    fn radiobox(&self) -> (r: Size)
        ensures
            r == self.answers().radiobox,
    ;

    /// Dimensions of a scrollbar: thickness, least length of the handle,
    /// least length of the whole bar.
    fn scrollbar(&self) -> (r: (u32, u32, u32))
        ensures
            r == self.answers().scrollbar,
    ;
}

/// Something that a draw handle was asked to draw.
pub enum DrawCmd {
    OuterFrame { rect: Rect },
    MenuFrame { rect: Rect },
    Text { rect: Rect, text: Seq<char>, props: TextProperties },
    Button { rect: Rect, highlights: HighlightState },
    EditBox { rect: Rect, highlights: HighlightState },
    Checkbox { rect: Rect, checked: bool, highlights: HighlightState },
    Radiobox { rect: Rect, checked: bool, highlights: HighlightState },
    Scrollbar { rect: Rect, h_rect: Rect, dir: Direction, highlights: HighlightState },
    /// What follows, up to the matching end, is drawn in a clip region.
    ClipBegin { rect: Rect, offset: Coord },
    /// The end of a clip region.
    ClipEnd,
}

/// The area that is drawn on within a clip region: `rect`, in coordinates
/// that are moved by `offset`.
pub open spec fn spec_region(rect: Rect, offset: Coord) -> Rect {
    Rect { pos: Coord(clamp_i32(rect.pos.0 - offset.0), clamp_i32(rect.pos.1 - offset.1)), size: rect.size }
}

/// A record of what a draw handle was asked to draw.
pub type DrawLog = Seq<DrawCmd>;

/// The areas around the one that a draw handle draws on.
pub type DrawAreas = Seq<Rect>;

/// A surface that widgets draw themselves on. The widgets say what is to be
/// drawn where and with which highlights; colours and exact shapes are the
/// theme's.
pub trait DrawHandle {
    /// What the handle has been asked to draw so far, in order.
    spec fn drawn(&self) -> DrawLog;

    /// The area that is drawn on.
    spec fn target(&self) -> Rect;

    /// The areas that were drawn on when the clip regions began that have
    /// not ended yet, the outermost first.
    spec fn outer(&self) -> DrawAreas;

    /// The area that is drawn on.
    fn target_rect(&self) -> (r: Rect)
        ensures
            r == self.target(),
    ;

    /// Begins a clip region. What is drawn until the region ends is clipped
    /// to `rect`, and its coordinates are relative to `offset`: the area
    /// that is drawn on is `rect` moved back by `offset`. Regions may lie
    /// within regions.
    fn clip_region(&mut self, rect: Rect, offset: Coord)
        ensures
            final(self).drawn() == old(self).drawn().push(DrawCmd::ClipBegin { rect, offset }),
            final(self).target() == spec_region(rect, offset),
            final(self).outer() == old(self).outer().push(old(self).target()),
    ;

    /// Ends the clip region that began last. What was drawn on before it
    /// began is drawn on again.
    fn end_clip_region(&mut self)
        requires
            old(self).outer().len() > 0,
        ensures
            final(self).drawn() == old(self).drawn().push(DrawCmd::ClipEnd),
            final(self).target() == old(self).outer().last(),
            final(self).outer() == old(self).outer().drop_last(),
    ;

    /// Draws a frame in `rect`.
    fn outer_frame(&mut self, rect: Rect)
        ensures
            final(self).drawn() == old(self).drawn().push(DrawCmd::OuterFrame { rect }),
            final(self).target() == old(self).target(),
            final(self).outer() == old(self).outer(),
    ;

    /// Draws the frame and background of a menu in `rect`.
    fn menu_frame(&mut self, rect: Rect)
        ensures
            final(self).drawn() == old(self).drawn().push(DrawCmd::MenuFrame { rect }),
            final(self).target() == old(self).target(),
            final(self).outer() == old(self).outer(),
    ;

    /// Draws `text` in `rect`.
    fn text(&mut self, rect: Rect, text: &str, props: TextProperties)
        ensures
            final(self).drawn() == old(self).drawn().push(DrawCmd::Text { rect, text: text@, props }),
            final(self).target() == old(self).target(),
            final(self).outer() == old(self).outer(),
    ;

    /// Draws the sides and background of a button.
    fn button(&mut self, rect: Rect, highlights: HighlightState)
        ensures
            final(self).drawn() == old(self).drawn().push(DrawCmd::Button { rect, highlights }),
            final(self).target() == old(self).target(),
            final(self).outer() == old(self).outer(),
    ;

    /// Draws the sides and background of an edit box.
    fn edit_box(&mut self, rect: Rect, highlights: HighlightState)
        ensures
            final(self).drawn() == old(self).drawn().push(DrawCmd::EditBox { rect, highlights }),
            final(self).target() == old(self).target(),
            final(self).outer() == old(self).outer(),
    ;

    /// Draws a checkbox, without its label.
    fn checkbox(&mut self, rect: Rect, checked: bool, highlights: HighlightState)
        ensures
            final(self).drawn() == old(self).drawn().push(DrawCmd::Checkbox { rect, checked, highlights }),
            final(self).target() == old(self).target(),
            final(self).outer() == old(self).outer(),
    ;

    /// Draws a radiobox, without its label.
    fn radiobox(&mut self, rect: Rect, checked: bool, highlights: HighlightState)
        ensures
            final(self).drawn() == old(self).drawn().push(DrawCmd::Radiobox { rect, checked, highlights }),
            final(self).target() == old(self).target(),
            final(self).outer() == old(self).outer(),
    ;

    /// Draws a scrollbar: `rect` is the track, `h_rect` the handle.
    fn scrollbar(&mut self, rect: Rect, h_rect: Rect, dir: Direction, highlights: HighlightState)
        ensures
            final(self).drawn() == old(self).drawn().push(
                DrawCmd::Scrollbar { rect, h_rect, dir, highlights },
            ),
            final(self).target() == old(self).target(),
            final(self).outer() == old(self).outer(),
    ;
}

/// The colours of a theme. `C` is the type of a colour.
#[derive(Clone, Debug)]
pub struct ThemeColours<C> {
    pub background: C,
    pub frame: C,
    pub text_area: C,
    pub text: C,
    pub label_text: C,
    pub button_text: C,
    pub key_nav_focus: C,
    pub button: C,
    pub button_highlighted: C,
    pub button_depressed: C,
}

impl<C: Copy> ThemeColours<C> {
    /// The colour of the region that shows the keyboard focus, where there
    /// is one.
    pub open spec fn spec_nav_region(&self, highlights: HighlightState) -> Option<C> {
        if highlights.key_focus {
            Some(self.key_nav_focus)
        } else {
            None
        }
    }

    /// The colour of a button: pressed comes before hovered.
    pub open spec fn spec_button_state(&self, highlights: HighlightState) -> C {
        if highlights.depress {
            self.button_depressed
        } else if highlights.hover {
            self.button_highlighted
        } else {
            self.button
        }
    }

    /// The colour of the mark in a checkbox, if one is drawn: always while
    /// pressed, else only when checked.
    pub open spec fn spec_check_mark_state(&self, highlights: HighlightState, checked: bool) -> Option<C> {
        if highlights.depress {
            Some(self.button_depressed)
        } else if checked && highlights.hover {
            Some(self.button_highlighted)
        } else if checked {
            Some(self.button)
        } else {
            None
        }
    }

    #[verifier::when_used_as_spec(spec_nav_region)]
    pub fn nav_region(&self, highlights: HighlightState) -> (r: Option<C>)
        ensures
            r == self.spec_nav_region(highlights),
    {
        if highlights.key_focus {
            Some(self.key_nav_focus)
        } else {
            None
        }
    }

    #[verifier::when_used_as_spec(spec_button_state)]
    pub fn button_state(&self, highlights: HighlightState) -> (r: C)
        ensures
            r == self.spec_button_state(highlights),
    {
        if highlights.depress {
            self.button_depressed
        } else if highlights.hover {
            self.button_highlighted
        } else {
            self.button
        }
    }

    #[verifier::when_used_as_spec(spec_check_mark_state)]
    pub fn check_mark_state(&self, highlights: HighlightState, checked: bool) -> (r: Option<C>)
        ensures
            r == self.spec_check_mark_state(highlights, checked),
    {
        if highlights.depress {
            Some(self.button_depressed)
        } else if checked && highlights.hover {
            Some(self.button_highlighted)
        } else if checked {
            Some(self.button)
        } else {
            None
        }
    }

    /// The colour of a scrollbar: that of a button in the same state.
    pub fn scrollbar_state(&self, highlights: HighlightState) -> (r: C)
        ensures
            r == self.spec_button_state(highlights),
    {
        self.button_state(highlights)
    }
}

impl<S: SizeHandle> SizeHandle for Box<S> {
    open spec fn answers(&self) -> SizeModel {
        (**self).answers()
    }

    fn outer_frame(&self) -> (r: (Size, Size)) {
        (**self).outer_frame()
    }

    fn frame(&self) -> (r: Size) {
        (**self).frame()
    }

    fn inner_margin(&self) -> (r: Size) {
        (**self).inner_margin()
    }

    fn outer_margin(&self) -> (r: Size) {
        (**self).outer_margin()
    }

    fn outer_margins(&self) -> (r: Margins) {
        (**self).outer_margins()
    }

    fn line_height(&self, class: TextClass) -> (r: u32) {
        (**self).line_height(class)
    }

    fn text_bound(&mut self, text: &str, class: TextClass, axis: AxisInfo) -> (r: SizeRules) {
        (**self).text_bound(text, class, axis)
    }

    fn button_surround(&self) -> (r: (Size, Size)) {
        (**self).button_surround()
    }

    fn edit_surround(&self) -> (r: (Size, Size)) {
        (**self).edit_surround()
    }

    fn checkbox(&self) -> (r: Size) {
        (**self).checkbox()
    }

    fn radiobox(&self) -> (r: Size) {
        (**self).radiobox()
    }

    fn scrollbar(&self) -> (r: (u32, u32, u32)) {
        (**self).scrollbar()
    }
}

impl<H: DrawHandle> DrawHandle for Box<H> {
    open spec fn drawn(&self) -> DrawLog {
        (**self).drawn()
    }

    open spec fn target(&self) -> Rect {
        (**self).target()
    }

    open spec fn outer(&self) -> DrawAreas {
        (**self).outer()
    }

    fn clip_region(&mut self, rect: Rect, offset: Coord) {
        (**self).clip_region(rect, offset);
    }

    fn end_clip_region(&mut self) {
        (**self).end_clip_region();
    }

    fn target_rect(&self) -> (r: Rect) {
        (**self).target_rect()
    }

    fn outer_frame(&mut self, rect: Rect) {
        (**self).outer_frame(rect);
    }

    fn menu_frame(&mut self, rect: Rect) {
        (**self).menu_frame(rect);
    }

    fn text(&mut self, rect: Rect, text: &str, props: TextProperties) {
        (**self).text(rect, text, props);
    }

    fn button(&mut self, rect: Rect, highlights: HighlightState) {
        (**self).button(rect, highlights);
    }

    fn edit_box(&mut self, rect: Rect, highlights: HighlightState) {
        (**self).edit_box(rect, highlights);
    }

    fn checkbox(&mut self, rect: Rect, checked: bool, highlights: HighlightState) {
        (**self).checkbox(rect, checked, highlights);
    }

    fn radiobox(&mut self, rect: Rect, checked: bool, highlights: HighlightState) {
        (**self).radiobox(rect, checked, highlights);
    }

    fn scrollbar(&mut self, rect: Rect, h_rect: Rect, dir: Direction, highlights: HighlightState) {
        (**self).scrollbar(rect, h_rect, dir, highlights);
    }
}

} // verus!
