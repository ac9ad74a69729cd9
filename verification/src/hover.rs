//! The hover state of one label marker.
//!
//! Every label marker is bound to its source character and is either hovered
//! or not. Pointer-enter makes it hovered and shown in the high-lightness
//! variant of its character's color; pointer-exit restores the normal color.
//! This is the only state transition of the whole viewer.

use vstd::prelude::*;

use crate::color::HslColor;
use crate::color::base_color_of;
use crate::color::char_to_color;
use crate::color::hover_color;
use crate::color::hover_color_of;

verus! {

/// A pointer event delivered to a label marker.
#[derive(Clone, Copy, Debug, PartialEq, Eq, Structural)]
pub enum PointerEvent {
    /// The pointer moved onto the marker.
    Enter,
    /// The pointer left the marker.
    Exit,
}

/// One label marker of the scene: the character it is bound to and whether
/// the pointer is over it.
#[derive(Clone, Copy, Debug, PartialEq, Eq, Structural)]
pub struct LabelMarker {
    /// The character this marker displays.
    pub ch: char,
    /// Whether the pointer is over the marker.
    pub hovered: bool,
}

/// The color a marker is shown in: the hover variant while hovered, else the
/// normal color of its character.
pub open spec fn display_color_of(m: LabelMarker) -> HslColor {
    if m.hovered {
        hover_color_of(m.ch)
    } else {
        base_color_of(m.ch)
    }
}

/// The marker state after one pointer event.
pub open spec fn step(m: LabelMarker, e: PointerEvent) -> LabelMarker {
    match e {
        PointerEvent::Enter => LabelMarker { ch: m.ch, hovered: true },
        PointerEvent::Exit => LabelMarker { ch: m.ch, hovered: false },
    }
}

/// The marker state after a whole sequence of pointer events, applied in
/// order.
pub open spec fn run_events(m: LabelMarker, events: Seq<PointerEvent>) -> LabelMarker
    decreases events.len(),
{
    if events.len() == 0 {
        m
    } else {
        step(run_events(m, events.drop_last()), events.last())
    }
}

impl LabelMarker {
    /// A fresh marker for a character, not hovered.
    pub fn new(ch: char) -> (m: LabelMarker)
        ensures
            m == (LabelMarker { ch, hovered: false }),
    {
        LabelMarker { ch, hovered: false }
    }

    /// Applies one pointer event to the marker.
    pub fn apply(&mut self, e: PointerEvent)
        ensures
            *final(self) == step(*old(self), e),
    {
        match e {
            PointerEvent::Enter => {
                self.hovered = true;
            },
            PointerEvent::Exit => {
                self.hovered = false;
            },
        }
    }

    /// The color the marker is currently shown in.
    pub fn current_color(&self) -> (col: HslColor)
        ensures
            col == display_color_of(*self),
    {
        if self.hovered {
            hover_color(self.ch)
        } else {
            char_to_color(self.ch)
        }
    }
}

/// Law: whatever happened before, a pointer-enter shows the high-lightness
/// variant of the character's color, and a pointer-exit restores the normal
/// color — independent of the order or repetition of earlier events.
pub proof fn lemma_hover_transition(m: LabelMarker, events: Seq<PointerEvent>)
    requires
        events.len() > 0,
    ensures
        run_events(m, events).ch == m.ch,
        events.last() == PointerEvent::Enter ==> display_color_of(run_events(m, events))
            == hover_color_of(m.ch),
        events.last() == PointerEvent::Exit ==> display_color_of(run_events(m, events))
            == base_color_of(m.ch),
    decreases events.len(),
{
    if events.len() == 1 {
        assert(events.drop_last().len() == 0);
        assert(run_events(m, events.drop_last()) == m);
        assert(run_events(m, events) == step(m, events.last()));
    } else {
        lemma_hover_transition(m, events.drop_last());
        assert(run_events(m, events) == step(run_events(m, events.drop_last()), events.last()));
    }
}

} // verus!
