//! Player-facing game options.

use vstd::prelude::*;

verus! {

/// Gear change handling for one player.
#[derive(Clone, Copy, PartialEq, Eq, Structural, Debug)]
pub enum Transmission {
    Manual,
    Automatic,
}

/// Throttle control for one player.
#[derive(Clone, Copy, PartialEq, Eq, Structural, Debug)]
pub enum Acceleration {
    Button,
    Joystick,
}

/// Race mode.
#[derive(Clone, Copy, PartialEq, Eq, Structural, Debug)]
pub enum Race {
    TimeLimit,
    Competition,
}

/// Course selection.
#[derive(Clone, Copy, PartialEq, Eq, Structural, Debug)]
pub enum Course {
    T1,
    T2,
    T3,
    Circular,
    Unknown,
}

/// Car model selection.
#[derive(Clone, Copy, PartialEq, Eq, Structural, Debug)]
pub enum Model {
    Esprit,
    Elan,
    M200,
}

impl Model {
    /// The next model in display order, cycling.
    pub fn next(&self) -> (r: Model)
        ensures
            self is Esprit ==> r is Elan,
            self is Elan ==> r is M200,
            self is M200 ==> r is Esprit,
    {
        match self {
            Model::Esprit => Model::Elan,
            Model::Elan => Model::M200,
            Model::M200 => Model::Esprit,
        }
    }

    /// The previous model in display order, cycling.
    pub fn prev(&self) -> (r: Model)
        ensures
            self is Esprit ==> r is M200,
            self is Elan ==> r is Esprit,
            self is M200 ==> r is Elan,
    {
        match self {
            Model::Esprit => Model::M200,
            Model::Elan => Model::Esprit,
            Model::M200 => Model::Elan,
        }
    }
}

impl Default for Model {
    /// The model offered first.
    fn default() -> (r: Model)
        ensures
            r is Esprit,
    {
        Model::Esprit
    }
}

/// The whole option screen's state.
#[derive(Clone, PartialEq, Eq)]
pub struct Config {
    pub p1_name: String,
    pub p1_trans: Transmission,
    pub p1_accel: Acceleration,
    pub p2_name: String,
    pub p2_trans: Transmission,
    pub p2_accel: Acceleration,
    pub race: Race,
    pub course: Course,
    pub players_num: u8,
    pub code: String,
}

impl Config {
    /// The defaults the game starts with.
    pub fn new() -> (c: Config)
        ensures
            c.p1_name@ == "PLAYER 1"@,
            c.p1_trans is Automatic,
            c.p1_accel is Button,
            c.p2_name@ == "PLAYER 2"@,
            c.p2_trans is Automatic,
            c.p2_accel is Button,
            c.race is TimeLimit,
            c.course is T1,
            c.players_num == 1,
            c.code@ == "VBJD D   -99"@,
    {
        Config {
            p1_name: "PLAYER 1".to_owned(),
            p1_trans: Transmission::Automatic,
            p1_accel: Acceleration::Button,
            p2_name: "PLAYER 2".to_owned(),
            p2_trans: Transmission::Automatic,
            p2_accel: Acceleration::Button,
            race: Race::TimeLimit,
            course: Course::T1,
            players_num: 1,
            code: "VBJD D   -99".to_owned(),
        }
    }
}

} // verus!
