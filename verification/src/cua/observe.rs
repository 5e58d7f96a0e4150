//! What the box looks at around a recipe step. A step result carries what
//! the box saw; an absent field means the box did not look, never that
//! nothing was there.
use vstd::prelude::*;

use crate::cua::recipe::RecipeStep;

verus! {

/// How much of the desktop a receipt reports.
#[derive(Debug, Clone, Copy, PartialEq, Eq, Structural)]
pub enum RecipeObserve {
    Off,
    /// The window under a pointer step's target, and the keyboard focus
    /// before `type` or `key`.
    Input,
    /// Everything `Input` reports, plus the page URL either side of the
    /// steps that can change it.
    Page,
}

impl Default for RecipeObserve {
    fn default() -> (m: Self)
        ensures
            m == RecipeObserve::Off,
    {
        RecipeObserve::Off
    }
}

/// One window, named the way the rest of the box names windows.
#[derive(Debug, Clone)]
pub struct WindowRef {
    pub id: String,
    pub class: Option<String>,
    pub title: Option<String>,
}

/// Where the X server would deliver a keystroke now.
#[derive(Debug, Clone, Copy, PartialEq, Eq, Structural)]
pub enum FocusState {
    Nowhere,
    PointerRoot,
    Root,
    Window,
}

/// The keyboard focus as read just before sending keys.
#[derive(Debug, Clone)]
pub struct Focus {
    pub state: FocusState,
    pub window: Option<WindowRef>,
}

/// What the box saw around one step.
#[derive(Debug, Clone)]
pub struct StepObservation {
    pub target: Option<WindowRef>,
    pub focus: Option<Focus>,
    pub url_before: Option<String>,
    pub url_after: Option<String>,
    pub observe_ms: u64,
}

impl Default for StepObservation {
    fn default() -> (o: Self)
        ensures
            o.target is None,
            o.focus is None,
            o.url_before is None,
            o.url_after is None,
            o.observe_ms == 0,
    {
        StepObservation { target: None, focus: None, url_before: None, url_after: None, observe_ms: 0 }
    }
}

/// What to look at for one step, decided from the step alone.
#[derive(Debug, Clone, Copy)]
pub struct StepWatch {
    /// The coordinate whose window is read before the step.
    pub target: Option<(i32, i32)>,
    /// Read the keyboard focus before the step.
    pub focus: bool,
    /// Read the page URL before and after the step.
    pub page: bool,
}

/// The plan of observation: nothing when observing is off or the step has
/// nothing to look at; clicks watch their coordinate (and the page in page
/// mode); moves, presses, scrolls and drags their coordinate (a drag where
/// it grabs); a release only when it names a coordinate; typing and keys
/// the focus (and the page in page mode).
pub open spec fn watch_plan(mode: RecipeObserve, step: RecipeStep) -> Option<
    (Option<(i32, i32)>, bool, bool),
> {
    if mode == RecipeObserve::Off {
        None
    } else {
        let page = mode == RecipeObserve::Page;
        match step {
            RecipeStep::Click { x, y, .. } => Some((Some((x, y)), false, page)),
            RecipeStep::DoubleClick { x, y, .. } => Some((Some((x, y)), false, page)),
            RecipeStep::Move { x, y } => Some((Some((x, y)), false, false)),
            RecipeStep::Press { x, y, .. } => Some((Some((x, y)), false, false)),
            RecipeStep::Scroll { x, y, .. } => Some((Some((x, y)), false, false)),
            RecipeStep::Drag { x1, y1, .. } => Some((Some((x1, y1)), false, false)),
            RecipeStep::Release { x, y, .. } => match (x, y) {
                (Some(px), Some(py)) => Some((Some((px, py)), false, false)),
                _ => None,
            },
            RecipeStep::Type { .. } => Some((None, true, page)),
            RecipeStep::Key { .. } => Some((None, true, page)),
            _ => None,
        }
    }
}

pub fn watch(mode: RecipeObserve, step: &RecipeStep) -> (w: Option<StepWatch>)
    ensures
        match watch_plan(mode, *step) {
            Some((t, f, p)) => w matches Some(sw) && sw.target == t && sw.focus == f && sw.page
                == p,
            None => w is None,
        },
{
    if mode == RecipeObserve::Off {
        return None;
    }
    let page = mode == RecipeObserve::Page;
    match step {
        RecipeStep::Click { x, y, .. } => Some(
            StepWatch { target: Some((*x, *y)), focus: false, page },
        ),
        RecipeStep::DoubleClick { x, y, .. } => Some(
            StepWatch { target: Some((*x, *y)), focus: false, page },
        ),
        RecipeStep::Move { x, y } => Some(
            StepWatch { target: Some((*x, *y)), focus: false, page: false },
        ),
        RecipeStep::Press { x, y, .. } => Some(
            StepWatch { target: Some((*x, *y)), focus: false, page: false },
        ),
        RecipeStep::Scroll { x, y, .. } => Some(
            StepWatch { target: Some((*x, *y)), focus: false, page: false },
        ),
        RecipeStep::Drag { x1, y1, .. } => Some(
            StepWatch { target: Some((*x1, *y1)), focus: false, page: false },
        ),
        RecipeStep::Release { x, y, .. } => match (x, y) {
            (Some(px), Some(py)) => Some(
                StepWatch { target: Some((*px, *py)), focus: false, page: false },
            ),
            _ => None,
        },
        RecipeStep::Type { .. } => Some(StepWatch { target: None, focus: true, page }),
        RecipeStep::Key { .. } => Some(StepWatch { target: None, focus: true, page }),
        _ => None,
    }
}

/// Time spent reading the page after the step adds to the observation's
/// cost, saturating.
pub fn add_observe_ms(obs: &mut StepObservation, ms: u64)
    ensures
        final(obs).observe_ms == (if old(obs).observe_ms + ms > u64::MAX {
            u64::MAX
        } else {
            (old(obs).observe_ms + ms) as u64
        }),
        final(obs).target == old(obs).target,
        final(obs).url_before == old(obs).url_before,
        final(obs).url_after == old(obs).url_after,
{
    obs.observe_ms = obs.observe_ms.saturating_add(ms);
}

} // verus!
