//! The record store: at most one list of powers, held for an editing session.
use vstd::prelude::*;
use crate::codec::{copy_powers, load_records, parse_power_file, powers_view};
use crate::power::{Cell, Power};

verus! {

/// Message of the error a store reports before any list was loaded.
pub const NOT_LOADED: &'static str = "Power list not loaded. Please load a file first.";

/// Holds the list of powers loaded last, or nothing before the first load.
pub struct PowerStore {
    list: Option<Vec<Power>>,
}

impl View for PowerStore {
    type V = Option<Seq<Seq<Cell>>>;

    closed spec fn view(&self) -> Option<Seq<Seq<Cell>>> {
        match self.list {
            Some(l) => Some(powers_view(l@)),
            None => None,
        }
    }
}

impl PowerStore {
    /// An empty store.
    pub fn new() -> (r: PowerStore)
        ensures
            r@ is None,
    {
        PowerStore { list: None }
    }

    /// A copy of the held list, or the "not loaded" error before any load.
    pub fn get_power_list(&self) -> (r: Result<Vec<Power>, String>)
        ensures
            match self@ {
                Some(l) => r matches Ok(v) && powers_view(v@) == l,
                None => r matches Err(e) && e@ == NOT_LOADED@,
            },
    {
        match &self.list {
            Some(l) => Ok(copy_powers(l)),
            None => Err(String::from_str(NOT_LOADED)),
        }
    }

    /// Replaces the held list with `list`.
    pub fn replace(&mut self, list: Vec<Power>)
        ensures
            final(self)@ == Some(powers_view(list@)),
    {
        self.list = Some(list);
    }

    /// Parses the text of a power file, holds its records, and returns them.
    pub fn load_powers_from_text(&mut self, text: &str) -> (r: Vec<Power>)
        ensures
            powers_view(r@) == load_records(text@),
            final(self)@ == Some(load_records(text@)),
    {
        let (list, _skipped) = parse_power_file(text);
        self.replace(copy_powers(&list));
        list
    }
}

} // verus!
