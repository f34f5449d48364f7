use vstd::prelude::*;

use crate::board::Board;
use crate::cell::BoardState;

verus! {

/// Which screen the terminal viewer shows.
#[derive(Copy, Clone, Debug, PartialEq, Eq, Structural)]
pub enum CurrentScreen {
    Menu,
    Gameplay,
}

/// A key pressed in the terminal viewer.
#[derive(Copy, Clone, Debug, PartialEq, Eq, Structural)]
pub enum KeyInput {
    Char(char),
    Esc,
    Other,
}

/// State of the terminal viewer: the screen shown and the board drawn.
pub struct App {
    pub current_screen: CurrentScreen,
    pub board: Board,
}

/// The screen after `key` is pressed on `screen`: `e` enters the game from
/// the menu; `q` or escape leave the game for the menu.
pub open spec fn screen_after(screen: CurrentScreen, key: KeyInput) -> CurrentScreen {
    match screen {
        CurrentScreen::Menu => if key == KeyInput::Char('e') {
            CurrentScreen::Gameplay
        } else {
            CurrentScreen::Menu
        },
        CurrentScreen::Gameplay => if key == KeyInput::Char('q') || key == KeyInput::Esc {
            CurrentScreen::Menu
        } else {
            CurrentScreen::Gameplay
        },
    }
}

impl App {
    /// The viewer on its menu, with the example board.
    pub fn new() -> (a: App)
        ensures
            a.current_screen == CurrentScreen::Menu,
            a.board.wf(),
            a.board.grid_size == [8u32, 9u32],
            a.board.state == BoardState::Unsolved,
    {
        App { current_screen: CurrentScreen::Menu, board: Board::new_example() }
    }

    /// Reacts to a pressed key; returns whether the viewer should quit, which
    /// `q` on the menu asks for.
    pub fn handle_key(&mut self, key: KeyInput) -> (quit: bool)
        ensures
            quit == (old(self).current_screen == CurrentScreen::Menu && key == KeyInput::Char('q')),
            final(self).current_screen == screen_after(old(self).current_screen, key),
            final(self).board == old(self).board,
    {
        match self.current_screen {
            CurrentScreen::Menu => match key {
                KeyInput::Char('e') => {
                    self.current_screen = CurrentScreen::Gameplay;
                    false
                },
                KeyInput::Char('q') => true,
                _ => false,
            },
            CurrentScreen::Gameplay => match key {
                KeyInput::Char('q') | KeyInput::Esc => {
                    self.current_screen = CurrentScreen::Menu;
                    false
                },
                _ => false,
            },
        }
    }
}

} // verus!
