//! The menu-side decision logic of a client: splash screen, connecting,
//! and main-menu navigation.
//!
//! These are the pure decisions of the client's menu flow: which option is
//! selected next, when the party is submitted, and when the client leaves
//! the menu for combat. The windowing, rendering and socket plumbing around
//! them live outside this crate; they feed plain inputs in and perform the
//! returned commands.

use vstd::prelude::*;

verus! {

/// A semantic key press: cycle down, cycle up, confirm, or back out.
#[derive(Clone, Copy, Debug, Eq, PartialEq, Structural)]
pub enum MenuKey {
    Down,
    Up,
    Confirm,
    Back,
}

/// The main menu's entries.
#[derive(Clone, Copy, Debug, Eq, PartialEq, Structural)]
pub enum MenuOption {
    Play,
    Quit,
}

impl MenuOption {
    /// The entry below the current one, wrapping around.
    pub fn next(self) -> (r: MenuOption)
        ensures
            self == MenuOption::Play ==> r == MenuOption::Quit,
            self == MenuOption::Quit ==> r == MenuOption::Play,
    {
        match self {
            MenuOption::Play => MenuOption::Quit,
            MenuOption::Quit => MenuOption::Play,
        }
    }

    /// The entry above the current one, wrapping around.
    pub fn prev(self) -> (r: MenuOption)
        ensures
            self == MenuOption::Play ==> r == MenuOption::Quit,
            self == MenuOption::Quit ==> r == MenuOption::Play,
    {
        match self {
            MenuOption::Play => MenuOption::Quit,
            MenuOption::Quit => MenuOption::Play,
        }
    }
}

/// What the shell must do after a navigation decision.
#[derive(Clone, Copy, Debug, Eq, PartialEq, Structural)]
pub enum NavigationCommand {
    /// Nothing to perform.
    Idle,
    /// Send the configured party to the server and wait for the state.
    SubmitParty,
    /// Terminate the program.
    Terminate,
}

/// The navigation screen: the selected entry and whether the client has
/// already submitted its party and waits for the combat state.
#[derive(Clone, Copy, Debug, Eq, PartialEq, Structural)]
pub struct NavigationState {
    pub option: MenuOption,
    pub waiting_for_state: bool,
}

impl NavigationState {
    /// The navigation screen entered from the connecting screen: the first
    /// entry selected, not yet waiting.
    pub fn from_connecting_state() -> (r: NavigationState)
        ensures
            r.option == MenuOption::Play,
            !r.waiting_for_state,
    {
        NavigationState { option: MenuOption::Play, waiting_for_state: false }
    }

    /// One key press on the navigation screen. While a party submission is
    /// pending, every key is ignored. Confirming `Play` submits the party;
    /// confirming `Quit` terminates; backing out returns to the previous
    /// screen (signalled by the second component).
    pub fn handle_key(&mut self, key: MenuKey) -> (r: (NavigationCommand, bool))
        ensures
            old(self).waiting_for_state ==> *final(self) == *old(self) && r.0
                == NavigationCommand::Idle && !r.1,
            !old(self).waiting_for_state ==> match key {
                MenuKey::Down => *final(self) == (NavigationState {
                    option: if old(self).option == MenuOption::Play {
                        MenuOption::Quit
                    } else {
                        MenuOption::Play
                    },
                    ..*old(self)
                }) && r.0 == NavigationCommand::Idle && !r.1,
                MenuKey::Up => *final(self) == (NavigationState {
                    option: if old(self).option == MenuOption::Play {
                        MenuOption::Quit
                    } else {
                        MenuOption::Play
                    },
                    ..*old(self)
                }) && r.0 == NavigationCommand::Idle && !r.1,
                MenuKey::Confirm => if old(self).option == MenuOption::Play {
                    *final(self) == (NavigationState { waiting_for_state: true, ..*old(self) })
                        && r.0 == NavigationCommand::SubmitParty && !r.1
                } else {
                    *final(self) == *old(self) && r.0 == NavigationCommand::Terminate && !r.1
                },
                MenuKey::Back => *final(self) == *old(self) && r.0 == NavigationCommand::Idle
                    && r.1,
            },
    {
        if self.waiting_for_state {
            return (NavigationCommand::Idle, false);
        }
        match key {
            MenuKey::Down => {
                self.option = self.option.next();
                (NavigationCommand::Idle, false)
            },
            MenuKey::Up => {
                self.option = self.option.prev();
                (NavigationCommand::Idle, false)
            },
            MenuKey::Confirm => match self.option {
                MenuOption::Play => {
                    self.waiting_for_state = true;
                    (NavigationCommand::SubmitParty, false)
                },
                MenuOption::Quit => (NavigationCommand::Terminate, false),
            },
            MenuKey::Back => (NavigationCommand::Idle, true),
        }
    }

    /// A combat state arrived from the server: the client enters combat
    /// exactly when it was waiting for one.
    pub fn handle_combat_state(&self) -> (r: bool)
        ensures
            r == self.waiting_for_state,
    {
        self.waiting_for_state
    }
}

/// The splash screen: any key press moves on to connecting.
#[derive(Clone, Copy, Debug, Eq, PartialEq, Structural)]
pub struct SplashState {
}

impl SplashState {
    pub fn new() -> (r: SplashState)
    {
        SplashState {  }
    }

    /// Any key press starts connecting to the server.
    pub fn handle_key(&self, key: MenuKey) -> (r: bool)
        ensures
            r,
    {
        let _ = key;
        true
    }
}

/// The connecting screen: a handshake reply moves on to navigation, and
/// backing out returns to the splash screen.
#[derive(Clone, Copy, Debug, Eq, PartialEq, Structural)]
pub enum ConnectingDecision {
    Stay,
    BackToSplash,
    EnterNavigation,
}

#[derive(Clone, Copy, Debug, Eq, PartialEq, Structural)]
pub struct ConnectingState {
}

impl ConnectingState {
    /// Entered from the splash screen; the shell binds the socket and sends
    /// the handshake.
    pub fn from_splash_state() -> (r: ConnectingState)
    {
        ConnectingState {  }
    }

    pub fn handle_key(&self, key: MenuKey) -> (r: ConnectingDecision)
        ensures
            key == MenuKey::Back ==> r == ConnectingDecision::BackToSplash,
            key != MenuKey::Back ==> r == ConnectingDecision::Stay,
    {
        match key {
            MenuKey::Back => ConnectingDecision::BackToSplash,
            _ => ConnectingDecision::Stay,
        }
    }

    /// A protocol version reply from the server completes the handshake.
    pub fn handle_protocol_version(&self) -> (r: ConnectingDecision)
        ensures
            r == ConnectingDecision::EnterNavigation,
    {
        ConnectingDecision::EnterNavigation
    }
}

} // verus!
