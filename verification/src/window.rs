//! What a window decides between the events that it receives and the
//! frames that it draws.

use vstd::prelude::*;

verus! {

/// Stores whether the window contents need to be rendered again.
///
/// Widgets call `invalidate` whenever they go through a change that
/// requires them to be drawn again.
#[derive(Debug, Clone, Default)]
pub struct RenderValidity {
    validity: bool,
}

impl RenderValidity {
    /// Whether the contents on screen are up to date.
    pub closed spec fn is_valid(&self) -> bool {
        self.validity
    }

    /// Contents that were never drawn are not valid.
    pub fn new() -> (validity: RenderValidity)
        ensures
            !validity.is_valid(),
    {
        RenderValidity { validity: false }
    }

    pub fn invalidate(&mut self)
        ensures
            !final(self).is_valid(),
    {
        self.validity = false;
    }

    pub fn get(&self) -> (valid: bool)
        ensures
            valid == self.is_valid(),
    {
        self.validity
    }

    /// Only the window marks its contents as valid, once it has drawn them.
    pub fn make_valid(&mut self)
        ensures
            final(self).is_valid(),
    {
        self.validity = true;
    }
}

/// Mouse moves that follow each other faster than this, in nanoseconds,
/// are not handled one by one.
pub const EVENT_UPDATE_DELTA_NANOS: u128 = 2_000_000;

/// What a window decides between the events that it receives and the
/// frames that it draws: which mouse moves are handled at once, whether
/// the event loop may sleep, and what is due at the next redraw.
///
/// `E` is the event as the widgets see it.
#[derive(Debug)]
pub struct WindowState<E> {
    fullscreen: bool,
    unprocessed_move_event: Option<E>,
    last_event_invalidated: bool,
    should_sleep: bool,
    new_title: Option<String>,
}

/// The mathematical content of a [`WindowState`].
pub struct WindowView<E> {
    pub fullscreen: bool,
    /// The mouse move that was held back, and is handled before the next
    /// frame is drawn.
    pub unprocessed_move_event: Option<E>,
    /// Whether an event has made the contents invalid since they were
    /// drawn last.
    pub last_event_invalidated: bool,
    pub should_sleep: bool,
    /// The title that the window takes at the next redraw.
    pub new_title: Option<Seq<char>>,
}

impl<E> WindowView<E> {
    /// Whether a mouse move that comes `elapsed_nanos` after the last one
    /// that was handled is handled at once: it is if an event has made the
    /// contents invalid, or if enough time has passed.
    pub open spec fn handles_move_now(self, elapsed_nanos: u128) -> bool {
        self.last_event_invalidated || elapsed_nanos > EVENT_UPDATE_DELTA_NANOS
    }
}

impl<E> View for WindowState<E> {
    type V = WindowView<E>;

    closed spec fn view(&self) -> WindowView<E> {
        WindowView {
            fullscreen: self.fullscreen,
            unprocessed_move_event: self.unprocessed_move_event,
            last_event_invalidated: self.last_event_invalidated,
            should_sleep: self.should_sleep,
            new_title: match self.new_title {
                Some(title) => Some(title@),
                None => None,
            },
        }
    }
}

impl<E> WindowState<E> {
    /// The state of a window that was just opened: nothing is drawn yet.
    pub fn new() -> (state: WindowState<E>)
        ensures
            state@ == (WindowView::<E> {
                fullscreen: false,
                unprocessed_move_event: None,
                last_event_invalidated: true,
                should_sleep: false,
                new_title: None,
            }),
    {
        WindowState {
            fullscreen: false,
            unprocessed_move_event: None,
            last_event_invalidated: true,
            should_sleep: false,
            new_title: None,
        }
    }

    /// The mouse has moved, `elapsed_nanos` after the last move that was
    /// handled. The move is returned if it is to be handled at once; else
    /// it is held back, in the place of any move that was held back
    /// before.
    pub fn cursor_moved(&mut self, move_event: E, elapsed_nanos: u128) -> (now: Option<E>)
        ensures
            old(self)@.handles_move_now(elapsed_nanos) ==> now == Some(move_event) && final(self)@
                == old(self)@,
            !old(self)@.handles_move_now(elapsed_nanos) ==> now is None && final(self)@ == (
            WindowView { unprocessed_move_event: Some(move_event), ..old(self)@ }),
    {
        if self.last_event_invalidated || elapsed_nanos > EVENT_UPDATE_DELTA_NANOS {
            Some(move_event)
        } else {
            self.unprocessed_move_event = Some(move_event);
            None
        }
    }

    /// The widgets have handled an event. The event loop may sleep after a
    /// mouse move that has left the contents valid, and after nothing
    /// else.
    pub fn event_handled(&mut self, mouse_move: bool, validity: &RenderValidity)
        ensures
            final(self)@ == (WindowView {
                should_sleep: validity.is_valid() && mouse_move,
                last_event_invalidated: old(self)@.last_event_invalidated || !validity.is_valid(),
                ..old(self)@
            }),
    {
        self.should_sleep = false;
        if validity.get() {
            if mouse_move {
                self.should_sleep = true;
            }
        } else {
            self.last_event_invalidated = true;
        }
    }

    pub fn should_sleep(&self) -> (sleep: bool)
        ensures
            sleep == self@.should_sleep,
    {
        self.should_sleep
    }

    /// The window takes the title at its next redraw, which is due now.
    pub fn set_title(&mut self, title: String, validity: &mut RenderValidity)
        ensures
            final(self)@ == (WindowView { new_title: Some(title@), ..old(self)@ }),
            !final(validity).is_valid(),
    {
        self.new_title = Some(title);
        validity.invalidate();
    }

    /// All events that had arrived were handed out. The mouse move that
    /// was held back, if there is one, is to be handled now.
    pub fn main_events_cleared(&mut self) -> (held_back: Option<E>)
        ensures
            held_back == old(self)@.unprocessed_move_event,
            final(self)@ == (WindowView { unprocessed_move_event: None, ..old(self)@ }),
    {
        self.unprocessed_move_event.take()
    }

    pub fn redraw_needed(validity: &RenderValidity) -> (needed: bool)
        ensures
            needed == !validity.is_valid(),
    {
        !validity.get()
    }

    /// A redraw begins. The title that the window was to take, if there is
    /// one, is returned.
    pub fn begin_redraw(&mut self) -> (title: Option<String>)
        ensures
            match title {
                Some(t) => old(self)@.new_title == Some(t@),
                None => old(self)@.new_title is None,
            },
            final(self)@ == (WindowView {
                new_title: None,
                last_event_invalidated: false,
                ..old(self)@
            }),
    {
        self.last_event_invalidated = false;
        self.new_title.take()
    }

    /// The contents were drawn.
    pub fn finish_redraw(&self, validity: &mut RenderValidity)
        ensures
            final(validity).is_valid(),
    {
        validity.make_valid();
    }

    pub fn fullscreen(&self) -> (fullscreen: bool)
        ensures
            fullscreen == self@.fullscreen,
    {
        self.fullscreen
    }

    pub fn set_fullscreen(&mut self, fullscreen: bool)
        ensures
            final(self)@ == (WindowView { fullscreen, ..old(self)@ }),
    {
        self.fullscreen = fullscreen;
    }
}

} // verus!
