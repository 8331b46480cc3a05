//! The structured request handed to the library once the command line has
//! been read: a date, the option flags, and the text of a new entry.

use crate::date::Date;
use vstd::prelude::*;

verus! {

/// Optional flags passed to the program.
#[derive(Clone, Copy, Debug)]
pub struct ProgramFlags {
    pub open_calendar: bool,
    pub full_day: bool,
    pub edit: bool,
    pub remove: bool,
}

impl Default for ProgramFlags {
    /// Default values for `ProgramFlags`: all flags off.
    fn default() -> (r: Self)
        ensures
            !r.open_calendar && !r.full_day && !r.edit && !r.remove,
    {
        ProgramFlags { open_calendar: false, full_day: false, edit: false, remove: false }
    }
}

/// The arguments of one run: the date acted on, the flags, the start and
/// end times of a timed entry (by convention `HH:MM`, not validated), and
/// the entry text.
#[derive(Clone, Debug)]
pub struct ProgramArguments {
    pub date: Date,
    pub flags: ProgramFlags,
    pub start: String,
    pub end: String,
    pub entry: String,
}

impl ProgramArguments {
    /// Arguments acting on `date` with all flags off and empty texts. The
    /// date is a plain parameter: what "today" is gets decided at the
    /// entry point, never inside the library.
    pub fn new(date: Date) -> (r: Self)
        ensures
            r.date == date,
            !r.flags.open_calendar && !r.flags.full_day && !r.flags.edit && !r.flags.remove,
            r.start@ == Seq::<char>::empty(),
            r.end@ == Seq::<char>::empty(),
            r.entry@ == Seq::<char>::empty(),
    {
        ProgramArguments {
            date,
            flags: ProgramFlags::default(),
            start: String::new(),
            end: String::new(),
            entry: String::new(),
        }
    }
}

} // verus!
