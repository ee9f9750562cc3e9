//! The game's phases, its configuration, the patient queue, and the marks
//! that tag scene entities.
use vstd::prelude::*;

verus! {

/// The phase the game is in.
#[derive(PartialEq, Eq, Structural, Clone, Copy, Debug, Hash)]
pub enum GameState {
    StartMenu,
    Treatment,
    DeckShop,
}

impl Default for GameState {
    /// The game opens on the start menu.
    fn default() -> (r: GameState)
        ensures
            r == GameState::StartMenu,
    {
        GameState::StartMenu
    }
}

/// The phase a press of the play button leads to: the treatment phase when
/// the button was pressed, no change otherwise.
pub fn update_play_button(pressed: bool) -> (r: Option<GameState>)
    ensures
        r == (if pressed { Some(GameState::Treatment) } else { None::<GameState> }),
{
    if pressed {
        Some(GameState::Treatment)
    } else {
        None
    }
}

/// The number of patients the queue is kept filled to, when nothing else is
/// configured.
pub const DEFAULT_MAX_PATIENTS: usize = 3;

/// Game settings.
pub struct Config {
    max_patients: usize,
}

impl Config {
    /// The number of patients the queue is kept filled to.
    pub closed spec fn spec_max_patients(&self) -> usize {
        self.max_patients
    }

    /// Settings with the given queue size.
    pub fn new(max_patients: usize) -> (r: Config)
        ensures
            r.spec_max_patients() == max_patients,
    {
        Config { max_patients }
    }

    /// The number of patients the queue is kept filled to.
    pub fn max_patients(&self) -> (r: usize)
        ensures
            r == self.spec_max_patients(),
    {
        self.max_patients
    }
}

impl Default for Config {
    fn default() -> (r: Config)
        ensures
            r.spec_max_patients() == DEFAULT_MAX_PATIENTS,
    {
        Config { max_patients: DEFAULT_MAX_PATIENTS }
    }
}

/// The queue of waiting patients, by entity identity, first in line first.
pub struct PatientList {
    pub queue: Vec<u64>,
}

impl PatientList {
    /// An empty queue.
    pub fn new() -> (r: PatientList)
        ensures
            r.queue@ == Seq::<u64>::empty(),
    {
        PatientList { queue: Vec::new() }
    }

    /// How many patients must join the queue to fill it up to the
    /// configured size.
    pub fn shortfall(&self, config: &Config) -> (r: usize)
        ensures
            r == (if self.queue@.len() < config.spec_max_patients() {
                config.spec_max_patients() - self.queue@.len()
            } else {
                0
            }),
    {
        let max = config.max_patients();
        if self.queue.len() < max {
            max - self.queue.len()
        } else {
            0
        }
    }

    /// Puts a patient at the end of the queue.
    pub fn push_back(&mut self, patient: u64)
        ensures
            final(self).queue@ == old(self).queue@.push(patient),
    {
        self.queue.push(patient);
    }
}

impl Default for PatientList {
    fn default() -> (r: PatientList)
        ensures
            r.queue@ == Seq::<u64>::empty(),
    {
        PatientList::new()
    }
}

/// Marks an entity as a card.
#[derive(PartialEq, Eq, Structural, Clone, Copy, Debug, Default)]
pub struct Card;

/// Marks the card held by the pointer.
#[derive(PartialEq, Eq, Structural, Clone, Copy, Debug, Default)]
pub struct Held;

/// Marks an entity as a patient.
#[derive(PartialEq, Eq, Structural, Clone, Copy, Debug, Default)]
pub struct Patient;

/// Marks an entity to be removed when the start menu closes.
#[derive(PartialEq, Eq, Structural, Clone, Copy, Debug, Default)]
pub struct Delete;

} // verus!
