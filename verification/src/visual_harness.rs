//! The reference metrics of the visual contract.

use vstd::prelude::*;

use crate::theme::TRANSITION_MS;

verus! {

/// The metrics a visual check records.
#[derive(Debug, PartialEq)]
pub struct VisualMetrics {
    pub viewport: [u32; 2],
    pub theme: &'static str,
    pub transition_budget_ms: u64,
    pub idle_repaint_requested: bool,
}

/// The reference metrics of a `width` × `height` viewport in the dark or
/// light theme: the theme's transition budget, and no repaint while idle.
pub fn reference_metrics(width: u32, height: u32, dark: bool) -> (r: VisualMetrics)
    ensures
        r.viewport@ == seq![width, height],
        r.theme@ == (if dark {
            "dark"@
        } else {
            "light"@
        }),
        r.transition_budget_ms == TRANSITION_MS,
        !r.idle_repaint_requested,
{
    VisualMetrics {
        viewport: [width, height],
        theme: if dark {
            "dark"
        } else {
            "light"
        },
        transition_budget_ms: TRANSITION_MS,
        idle_repaint_requested: false,
    }
}

} // verus!
