use vstd::prelude::*;

verus! {

/// Where the game stands: playing, tearing the board down, or building a new one.
#[derive(Clone, Copy, Debug, PartialEq, Eq, Structural, Hash)]
pub enum AppState {
    InGame,
    Unloading,
    Loading,
}

impl AppState {
    pub fn is_in_game(&self) -> (r: bool)
        ensures
            r == (*self is InGame),
    {
        matches!(*self, AppState::InGame)
    }

    pub fn is_unloading(&self) -> (r: bool)
        ensures
            r == (*self is Unloading),
    {
        matches!(*self, AppState::Unloading)
    }

    pub fn is_loading(&self) -> (r: bool)
        ensures
            r == (*self is Loading),
    {
        matches!(*self, AppState::Loading)
    }
}

/// The state to move to from `current` in one frame, if any: a board being
/// torn down is rebuilt, a board being built is played, and a game in play is
/// torn down when the reload key was pressed.
pub fn state_handling(current: AppState, reload_pressed: bool) -> (r: Option<AppState>)
    ensures
        r == match current {
            AppState::Unloading => Some(AppState::Loading),
            AppState::Loading => Some(AppState::InGame),
            AppState::InGame => if reload_pressed {
                Some(AppState::Unloading)
            } else {
                None
            },
        },
{
    if current.is_unloading() {
        return Some(AppState::Loading);
    }
    if current.is_loading() {
        return Some(AppState::InGame);
    }
    if reload_pressed && current.is_in_game() {
        return Some(AppState::Unloading);
    }
    None
}

} // verus!
