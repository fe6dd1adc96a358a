pub mod app;
pub mod pomodoro;
pub mod scripts;
pub mod stats;
pub mod time;
pub mod widgets;

use vstd::prelude::*;

use crate::app::AppState;

verus! {

/// The state that the update loop starts from.
pub fn create_process() -> (r: AppState)
    ensures
        r.well_formed(),
        r.sessions@.len() == 0,
        r.active_session.is_none(),
{
    AppState::new()
}

/// The state that a view starts from before the first snapshot arrives.
pub fn create_appstate() -> (r: AppState)
    ensures
        r.well_formed(),
        r.sessions@.len() == 0,
        r.active_session.is_none(),
{
    AppState::new()
}

} // verus!
