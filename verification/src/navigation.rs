//! Navigation state of the interactive calendar view: the selected date
//! is the reference date shifted by a running day counter, and abstract
//! input events move the counter or end the session.

use crate::date::{spec_add_days, spec_valid_date, Date};
use vstd::prelude::*;

verus! {

/// Descriptors for possible input events of the interactive view.
#[derive(Clone, Copy, Debug, PartialEq, Eq, Structural)]
pub enum KeyEvents {
    NoEvent,
    Quit,
    Next,
    Previous,
}

/// The state of the interactive view: the reference date the session
/// started from, and the running day shift. The selected date is always
/// recomputed from the reference and the counter, so repeated advance and
/// retreat steps compose additively and cannot drift.
pub struct NavigationState {
    pub reference: Date,
    pub day_shift: i32,
}

impl NavigationState {
    /// A fresh session, with nothing shifted: the selected date is the
    /// reference date itself.
    pub fn new(reference: Date) -> (r: Self)
        ensures
            r.reference == reference,
            r.day_shift == 0,
    {
        NavigationState { reference, day_shift: 0 }
    }

    /// Apply one input event: `Next` moves the selection one day forward,
    /// `Previous` one day back, `Quit` ends the session, and any other
    /// input changes nothing. Returns whether the view keeps running.
    pub fn handle_event(&mut self, event: &KeyEvents) -> (keep_running: bool)
        requires
            *event == KeyEvents::Next ==> old(self).day_shift < i32::MAX,
            *event == KeyEvents::Previous ==> old(self).day_shift > i32::MIN,
        ensures
            final(self).reference == old(self).reference,
            match *event {
                KeyEvents::Next => final(self).day_shift == old(self).day_shift + 1
                    && keep_running,
                KeyEvents::Previous => final(self).day_shift == old(self).day_shift - 1
                    && keep_running,
                KeyEvents::Quit => final(self).day_shift == old(self).day_shift && !keep_running,
                KeyEvents::NoEvent => final(self).day_shift == old(self).day_shift
                    && keep_running,
            },
    {
        match event {
            KeyEvents::Quit => false,
            KeyEvents::Next => {
                self.day_shift += 1;
                true
            },
            KeyEvents::Previous => {
                self.day_shift -= 1;
                true
            },
            KeyEvents::NoEvent => true,
        }
    }

    /// The selected date: the reference date shifted by the running day
    /// counter.
    pub fn current_date(&self) -> (r: Date)
        requires
            spec_valid_date(self.reference@),
            self.reference@.year + self.day_shift as int <= i32::MAX as int,
            self.day_shift < 0 ==> spec_add_days(self.reference@, self.day_shift as int).year
                >= 1,
        ensures
            r@ == spec_add_days(self.reference@, self.day_shift as int),
            spec_valid_date(r@),
    {
        let mut date = self.reference;
        date.add_days(self.day_shift);
        date
    }
}

} // verus!
