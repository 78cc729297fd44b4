//! What the windows around the picture remember.
use crate::desktop::theme::Rgb;
use crate::number::Real32;
use vstd::prelude::*;

verus! {

/// A section of a panel: its title, and whether it starts open.
#[derive(Clone, Copy, Debug)]
pub struct Section<'a> {
    pub title: &'a str,
    pub open: bool,
}

impl<'a> Section<'a> {
    pub fn new(title: &'a str) -> (r: Self)
        ensures
            r == (Section { title, open: false }),
    {
        Section { title, open: false }
    }

    pub fn default_open(self, open: bool) -> (r: Self)
        ensures
            r == (Section { title: self.title, open }),
    {
        Section { title: self.title, open }
    }
}

/// The color of the status light: red once something failed, amber while something runs.
pub fn status_light(busy: bool, error: bool) -> (r: Rgb)
    ensures
        r == if error {
            Rgb { r: 235, g: 105, b: 120 }
        } else if busy {
            Rgb { r: 234, g: 189, b: 96 }
        } else {
            Rgb { r: 90, g: 216, b: 153 }
        },
{
    if error {
        Rgb { r: 235, g: 105, b: 120 }
    } else if busy {
        Rgb { r: 234, g: 189, b: 96 }
    } else {
        Rgb { r: 90, g: 216, b: 153 }
    }
}

/// Where a tool window sits on screen, remembered between runs.
#[derive(Clone, Copy, Debug, PartialEq, Eq)]
pub struct Placement {
    /// Outer position, including decorations.
    pub position: [Real32; 2],
    /// Inner size, excluding decorations.
    pub size: [Real32; 2],
}

/// Remembered geometry and behavior for one tool window.
#[derive(Clone, Copy, Debug, PartialEq, Eq)]
pub struct ToolWindow {
    /// Applied when the window opens, then left alone: rewriting it every frame would fight the
    /// user dragging or resizing the window.
    pub placement: Option<Placement>,
    /// Keep the window above the main one.
    pub on_top: bool,
    /// Where the window actually is now; folded into `placement` only when saving.
    pub live: Option<Placement>,
}

impl Default for ToolWindow {
    fn default() -> (r: Self)
        ensures
            r == (ToolWindow { placement: None, on_top: false, live: None }),
    {
        ToolWindow { placement: None, on_top: false, live: None }
    }
}

impl ToolWindow {
    /// A window as it is saved.
    pub open spec fn saved(self) -> ToolWindow {
        ToolWindow {
            placement: if self.live is Some {
                self.live
            } else {
                self.placement
            },
            on_top: self.on_top,
            live: None,
        }
    }

    /// The state worth writing to disk: where the window ended up, not where it opened.
    pub fn to_save(self) -> (r: Self)
        ensures
            r == self.saved(),
    {
        ToolWindow {
            placement: match self.live {
                Some(live) => Some(live),
                None => self.placement,
            },
            on_top: self.on_top,
            live: None,
        }
    }

    /// A window after a frame: whether it is kept on top, where it is if that is known, and, once
    /// it closes, where it reopens in this same session.
    pub fn after_frame(self, on_top: bool, live: Option<Placement>, open: bool) -> (r: Self)
        ensures
            ({
                let now = ToolWindow {
                    placement: self.placement,
                    on_top,
                    live: if live is Some {
                        live
                    } else {
                        self.live
                    },
                };
                r == if open {
                    now
                } else {
                    now.saved()
                }
            }),
    {
        let now: ToolWindow = ToolWindow {
            placement: self.placement,
            on_top,
            live: match live {
                Some(live) => Some(live),
                None => self.live,
            },
        };
        if open {
            now
        } else {
            now.to_save()
        }
    }
}

/// Saving a window that was saved changes nothing.
pub proof fn saving_twice_is_saving_once(window: ToolWindow)
    ensures
        window.saved().saved() == window.saved(),
{
}

} // verus!
