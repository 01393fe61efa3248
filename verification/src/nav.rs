//! The keyboard navigation state machine of the interactive table.
//!
//! The machine holds the view mode, the scroll offset and the selection,
//! and consumes one input at a time together with the viewport height of
//! that moment. All arithmetic saturates or clamps: no input can move the
//! scroll offset past the window bound or the selection past the
//! collection, and on an empty collection every input is a no-op.

use vstd::prelude::*;
use crate::scan::ModuleInfo;

verus! {

/// Which view the inspector shows.
#[derive(PartialEq, Eq, Structural, Clone, Copy, Debug)]
pub enum AppMode {
    List,
    Detail,
}

/// One keyboard input, already mapped from the terminal event.
#[derive(PartialEq, Eq, Structural, Clone, Copy, Debug)]
pub enum NavKey {
    Up,
    Down,
    PageUp,
    PageDown,
    Home,
    End,
    Enter,
    Escape,
    Quit,
    Other,
}

/// The interactive session: the scanned records and the navigation state.
pub struct AppState {
    pub modules: Vec<ModuleInfo>,
    pub scroll_offset: usize,
    pub selected_index: Option<usize>,
    pub mode: AppMode,
}

/// How many table rows a viewport of `height` rows can show, after the
/// header and borders are reserved.
pub open spec fn visible_rows(height: int) -> int {
    if height >= 4 {
        height - 4
    } else {
        0
    }
}

/// The largest scroll offset that still fills the window: zero when the
/// whole collection fits.
pub open spec fn max_scroll_of(n: int, vis: int) -> int {
    if n > vis {
        n - vis
    } else {
        0
    }
}

/// The scroll offset the renderer uses: held below the window bound.
pub open spec fn clamped_scroll(v: int, n: int, vis: int) -> int {
    if v > max_scroll_of(n, vis) {
        max_scroll_of(n, vis)
    } else {
        v
    }
}

/// The view of an optional index.
pub open spec fn sel_view(s: Option<usize>) -> Option<int> {
    match s {
        Some(i) => Some(i as int),
        None => None,
    }
}

/// `v` held within `[0, n-1]`.
pub open spec fn clamp_sel_val(v: int, n: int) -> int {
    if v < 0 {
        0
    } else if v > n - 1 {
        n - 1
    } else {
        v
    }
}

/// The state after one input: mode, scroll offset and selection. `n` is the
/// collection length, `vis` the rows the viewport can show. On an empty
/// collection every input leaves the state as it is.
pub open spec fn nav_step(
    mode: AppMode,
    scroll: int,
    sel: Option<int>,
    n: int,
    vis: int,
    key: NavKey,
) -> (AppMode, int, Option<int>) {
    if n == 0 {
        (mode, scroll, sel)
    } else if mode is List {
        match key {
            NavKey::Up => match sel {
                None => (mode, scroll, Some(clamp_sel_val(scroll, n))),
                Some(s) => if s > 0 {
                    (mode, if s - 1 < scroll { scroll - 1 } else { scroll }, Some(s - 1))
                } else {
                    (mode, scroll, sel)
                },
            },
            NavKey::Down => match sel {
                None => (mode, scroll, Some(clamp_sel_val(scroll, n))),
                Some(s) => if s < n - 1 {
                    (mode, if s + 1 >= scroll + vis { scroll + 1 } else { scroll }, Some(s + 1))
                } else {
                    (mode, scroll, sel)
                },
            },
            NavKey::PageUp => (
                mode,
                clamped_scroll(if scroll >= vis { scroll - vis } else { 0 }, n, vis),
                match sel {
                    Some(s) => Some(clamp_sel_val(s - vis, n)),
                    None => None,
                },
            ),
            NavKey::PageDown => (
                mode,
                clamped_scroll(scroll + vis, n, vis),
                match sel {
                    Some(s) => Some(clamp_sel_val(s + vis, n)),
                    None => None,
                },
            ),
            NavKey::Home => (
                mode,
                0,
                match sel {
                    Some(_) => Some(0int),
                    None => None,
                },
            ),
            NavKey::End => (
                mode,
                max_scroll_of(n, vis),
                match sel {
                    Some(_) => Some(n - 1),
                    None => None,
                },
            ),
            NavKey::Enter => if sel is Some {
                (AppMode::Detail, scroll, sel)
            } else {
                (mode, scroll, sel)
            },
            _ => (mode, scroll, sel),
        }
    } else {
        match key {
            NavKey::Escape => (AppMode::List, scroll, sel),
            _ => (mode, scroll, sel),
        }
    }
}

impl AppState {
    /// The navigation state is consistent with the collection: a selection
    /// points into it, and the detail view always has one.
    pub open spec fn nav_wf(self) -> bool {
        &&& match self.selected_index {
            Some(i) => i < self.modules@.len(),
            None => true,
        }
        &&& (self.mode is Detail ==> self.selected_index is Some)
    }

    /// A fresh session over `modules`: list view, top of the list, nothing
    /// selected.
    pub fn new(modules: Vec<ModuleInfo>) -> (s: AppState)
        ensures
            s.modules == modules,
            s.scroll_offset == 0,
            s.selected_index is None,
            s.mode is List,
            s.nav_wf(),
    {
        AppState { modules, scroll_offset: 0, selected_index: None, mode: AppMode::List }
    }

    /// Handles one input against the viewport of this frame, as `nav_step`
    /// describes, and says whether the session is over.
    pub fn handle_key(&mut self, key: NavKey, height: usize) -> (quit: bool)
        requires
            old(self).nav_wf(),
        ensures
            final(self).nav_wf(),
            final(self).modules == old(self).modules,
            quit == (key is Quit),
            ({
                let (m2, sc2, se2) = nav_step(
                    old(self).mode,
                    old(self).scroll_offset as int,
                    sel_view(old(self).selected_index),
                    old(self).modules@.len() as int,
                    visible_rows(height as int),
                    key,
                );
                final(self).mode == m2 && final(self).scroll_offset == sc2 && sel_view(
                    final(self).selected_index,
                ) == se2
            }),
    {
        let n = self.modules.len();
        let vis: usize = if height >= 4 {
            height - 4
        } else {
            0
        };
        let quit = match key {
            NavKey::Quit => true,
            _ => false,
        };
        if n == 0 {
            return quit;
        }
        match self.mode {
            AppMode::List => {
                match key {
                    NavKey::Up => {
                        match self.selected_index {
                            None => {
                                let s0 = if self.scroll_offset <= n - 1 {
                                    self.scroll_offset
                                } else {
                                    n - 1
                                };
                                self.selected_index = Some(s0);
                            },
                            Some(s) => {
                                if s > 0 {
                                    let ns = s - 1;
                                    if ns < self.scroll_offset {
                                        self.scroll_offset = self.scroll_offset - 1;
                                    }
                                    self.selected_index = Some(ns);
                                }
                            },
                        }
                    },
                    NavKey::Down => {
                        match self.selected_index {
                            None => {
                                let s0 = if self.scroll_offset <= n - 1 {
                                    self.scroll_offset
                                } else {
                                    n - 1
                                };
                                self.selected_index = Some(s0);
                            },
                            Some(s) => {
                                if s < n - 1 {
                                    let ns = s + 1;
                                    let at_bottom = match self.scroll_offset.checked_add(vis) {
                                        Some(t) => ns >= t,
                                        None => false,
                                    };
                                    if at_bottom {
                                        self.scroll_offset = self.scroll_offset + 1;
                                    }
                                    self.selected_index = Some(ns);
                                }
                            },
                        }
                    },
                    NavKey::PageUp => {
                        let maxs: usize = if n > vis {
                            n - vis
                        } else {
                            0
                        };
                        let dec: usize = if self.scroll_offset >= vis {
                            self.scroll_offset - vis
                        } else {
                            0
                        };
                        self.scroll_offset = if dec <= maxs {
                            dec
                        } else {
                            maxs
                        };
                        match self.selected_index {
                            Some(s) => {
                                let down: usize = if s >= vis {
                                    s - vis
                                } else {
                                    0
                                };
                                self.selected_index = Some(
                                    if down <= n - 1 {
                                        down
                                    } else {
                                        n - 1
                                    },
                                );
                            },
                            None => {},
                        }
                    },
                    NavKey::PageDown => {
                        let maxs: usize = if n > vis {
                            n - vis
                        } else {
                            0
                        };
                        let inc: usize = match self.scroll_offset.checked_add(vis) {
                            Some(t) => if t <= maxs {
                                t
                            } else {
                                maxs
                            },
                            None => maxs,
                        };
                        self.scroll_offset = inc;
                        match self.selected_index {
                            Some(s) => {
                                let up: usize = match s.checked_add(vis) {
                                    Some(t) => if t <= n - 1 {
                                        t
                                    } else {
                                        n - 1
                                    },
                                    None => n - 1,
                                };
                                self.selected_index = Some(up);
                            },
                            None => {},
                        }
                    },
                    NavKey::Home => {
                        self.scroll_offset = 0;
                        match self.selected_index {
                            Some(_) => {
                                self.selected_index = Some(0);
                            },
                            None => {},
                        }
                    },
                    NavKey::End => {
                        self.scroll_offset = if n > vis {
                            n - vis
                        } else {
                            0
                        };
                        match self.selected_index {
                            Some(_) => {
                                self.selected_index = Some(n - 1);
                            },
                            None => {},
                        }
                    },
                    NavKey::Enter => {
                        match self.selected_index {
                            Some(_) => {
                                self.mode = AppMode::Detail;
                            },
                            None => {},
                        }
                    },
                    _ => {},
                }
            },
            AppMode::Detail => {
                match key {
                    NavKey::Escape => {
                        self.mode = AppMode::List;
                    },
                    _ => {},
                }
            },
        }
        quit
    }

    /// Re-clamps the scroll offset to the viewport of this frame, as the
    /// renderer does before every draw; the selection and the mode are
    /// untouched, and clamping again changes nothing more.
    pub fn clamp_scroll(&mut self, height: usize)
        ensures
            final(self).modules == old(self).modules,
            final(self).selected_index == old(self).selected_index,
            final(self).mode == old(self).mode,
            final(self).scroll_offset as int == clamped_scroll(
                old(self).scroll_offset as int,
                old(self).modules@.len() as int,
                visible_rows(height as int),
            ),
            final(self).nav_wf() == old(self).nav_wf(),
    {
        let n = self.modules.len();
        let vis: usize = if height >= 4 {
            height - 4
        } else {
            0
        };
        let maxs: usize = if n > vis {
            n - vis
        } else {
            0
        };
        if self.scroll_offset > maxs {
            self.scroll_offset = maxs;
        }
    }
}

/// Whatever sequence of inputs arrives, the scroll offset stays within
/// `[0, max(N - visible, 0)]` and the selection within `[0, N-1]`, for the
/// viewport each input was handled with: one step preserves the bounds, so
/// by induction any sequence does.
pub proof fn lemma_nav_step_in_bounds(
    mode: AppMode,
    scroll: int,
    sel: Option<int>,
    n: int,
    vis: int,
    key: NavKey,
)
    requires
        0 <= n,
        0 <= vis,
        0 <= scroll <= max_scroll_of(n, vis),
        match sel {
            Some(s) => 0 <= s < n,
            None => true,
        },
    ensures
        ({
            let (m2, sc2, se2) = nav_step(mode, scroll, sel, n, vis, key);
            &&& 0 <= sc2 <= max_scroll_of(n, vis)
            &&& match se2 {
                Some(s) => 0 <= s < n,
                None => true,
            }
        }),
{
}

/// The clamp the renderer applies every frame is idempotent.
pub proof fn lemma_clamp_scroll_idempotent(v: int, n: int, vis: int)
    ensures
        clamped_scroll(clamped_scroll(v, n, vis), n, vis) == clamped_scroll(v, n, vis),
{
}

/// Entering the detail view and leaving it again restores the scroll offset
/// and the selection exactly: the detail view mutates nothing.
pub proof fn lemma_detail_round_trip(scroll: int, sel: Option<int>, n: int, vis: int)
    requires
        match sel {
            Some(s) => 0 <= s < n,
            None => false,
        },
    ensures
        ({
            let (m1, sc1, se1) = nav_step(AppMode::List, scroll, sel, n, vis, NavKey::Enter);
            let (m2, sc2, se2) = nav_step(m1, sc1, se1, n, vis, NavKey::Escape);
            &&& m1 is Detail
            &&& m2 is List
            &&& sc1 == scroll && se1 == sel
            &&& sc2 == scroll && se2 == sel
        }),
{
}

/// On an empty collection every input is a no-op: the state is unchanged,
/// and in particular no selection ever appears, so the detail view stays
/// unreachable.
pub proof fn lemma_empty_collection_no_op(
    mode: AppMode,
    scroll: int,
    sel: Option<int>,
    vis: int,
    key: NavKey,
)
    ensures
        nav_step(mode, scroll, sel, 0, vis, key) == (mode, scroll, sel),
{
}

} // verus!

