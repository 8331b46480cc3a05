//! The agenda record kept for one date: full-day and timed events, the
//! sentinel default record, the sort order of timed events, the emptiness
//! filter used when the record is shown, and the append-only entry block
//! written into an entry file.

use crate::arguments::ProgramArguments;
use crate::text::{
    lemma_str_le_antisym, lemma_str_le_refl, lemma_str_le_total, lemma_str_le_trans, spec_str_le,
    str_le,
};
use vstd::prelude::*;
use vstd::relations::{sorted_by, total_ordering};
use vstd::seq_lib::{lemma_multiset_commutative, lemma_sorted_unique};

verus! {

/// An event lasting a whole day.
#[derive(Debug)]
pub struct DayEvent {
    pub event: String,
}

impl View for DayEvent {
    type V = Seq<char>;

    open spec fn view(&self) -> Seq<char> {
        self.event@
    }
}

/// An event between two time stamps, by convention of the form `HH:MM`.
#[derive(Debug)]
pub struct TimedEvent {
    pub start: String,
    pub end: String,
    pub event: String,
}

/// Mathematical model of a timed event: its three texts.
pub ghost struct TimedEventModel {
    pub start: Seq<char>,
    pub end: Seq<char>,
    pub event: Seq<char>,
}

impl View for TimedEvent {
    type V = TimedEventModel;

    open spec fn view(&self) -> TimedEventModel {
        TimedEventModel { start: self.start@, end: self.end@, event: self.event@ }
    }
}

/// The agenda of one date: its full-day events and its timed events, as
/// read from or written to the entry file of that date.
#[derive(Debug)]
pub struct Agenda {
    pub day: Vec<DayEvent>,
    pub timestamp: Vec<TimedEvent>,
}

/// The texts of a sequence of full-day events.
pub open spec fn spec_day_views(s: Seq<DayEvent>) -> Seq<Seq<char>> {
    s.map_values(|e: DayEvent| e@)
}

/// The models of a sequence of timed events.
pub open spec fn spec_timed_views(s: Seq<TimedEvent>) -> Seq<TimedEventModel> {
    s.map_values(|e: TimedEvent| e@)
}

impl Default for Agenda {
    /// The sentinel record meaning "nothing": one full-day event and one
    /// timed event, all their texts empty. It stands in for any part of an
    /// entry file that is absent, and is filtered out when shown.
    fn default() -> (r: Self)
        ensures
            r.day@.len() == 1,
            r.day@[0]@ == Seq::<char>::empty(),
            r.timestamp@.len() == 1,
            r.timestamp@[0]@.start == Seq::<char>::empty(),
            r.timestamp@[0]@.end == Seq::<char>::empty(),
            r.timestamp@[0]@.event == Seq::<char>::empty(),
    {
        Agenda {
            day: vec![DayEvent { event: String::new() }],
            timestamp: vec![
                TimedEvent { start: String::new(), end: String::new(), event: String::new() },
            ],
        }
    }
}

/// Order on timed events: lexicographic by start, then end, then text.
pub open spec fn spec_timed_le(a: TimedEventModel, b: TimedEventModel) -> bool {
    if a.start != b.start {
        spec_str_le(a.start, b.start)
    } else if a.end != b.end {
        spec_str_le(a.end, b.end)
    } else {
        spec_str_le(a.event, b.event)
    }
}

/// The order on timed events as a relation value.
pub open spec fn spec_timed_le_fn() -> spec_fn(TimedEventModel, TimedEventModel) -> bool {
    |a: TimedEventModel, b: TimedEventModel| spec_timed_le(a, b)
}

/// The order on timed events is a total ordering.
pub proof fn lemma_timed_le_total_ordering()
    ensures
        total_ordering(spec_timed_le_fn()),
{
    let r = spec_timed_le_fn();
    assert forall|x: TimedEventModel| #[trigger] r(x, x) by {
        lemma_str_le_refl(x.event);
    }
    assert forall|x: TimedEventModel, y: TimedEventModel|
        #[trigger] r(x, y) && #[trigger] r(y, x) implies x == y by {
        if x.start != y.start {
            lemma_str_le_antisym(x.start, y.start);
        } else if x.end != y.end {
            lemma_str_le_antisym(x.end, y.end);
        } else {
            lemma_str_le_antisym(x.event, y.event);
        }
    }
    assert forall|x: TimedEventModel, y: TimedEventModel, z: TimedEventModel|
        #[trigger] r(x, y) && #[trigger] r(y, z) implies r(x, z) by {
        lemma_timed_le_trans(x, y, z);
    }
    assert forall|x: TimedEventModel, y: TimedEventModel| #[trigger] r(x, y) || #[trigger] r(
        y,
        x,
    ) by {
        if x.start != y.start {
            lemma_str_le_total(x.start, y.start);
        } else if x.end != y.end {
            lemma_str_le_total(x.end, y.end);
        } else {
            lemma_str_le_total(x.event, y.event);
        }
    }
}

/// The order on timed events is transitive.
proof fn lemma_timed_le_trans(x: TimedEventModel, y: TimedEventModel, z: TimedEventModel)
    requires
        spec_timed_le(x, y),
        spec_timed_le(y, z),
    ensures
        spec_timed_le(x, z),
{
    if x.start != y.start && y.start != z.start {
        lemma_str_le_trans(x.start, y.start, z.start);
        if x.start == z.start {
            lemma_str_le_antisym(x.start, y.start);
        }
    } else if x.start == y.start && y.start != z.start {
        // the start comparison of x and z coincides with that of y and z
    } else if x.start != y.start && y.start == z.start {
        // the start comparison of x and z coincides with that of x and y
    } else {
        if x.end != y.end && y.end != z.end {
            lemma_str_le_trans(x.end, y.end, z.end);
            if x.end == z.end {
                lemma_str_le_antisym(x.end, y.end);
            }
        } else if x.end == y.end && y.end == z.end {
            lemma_str_le_trans(x.event, y.event, z.event);
        }
    }
}

/// Compare two timed events in their sort order.
fn timed_le(a: &TimedEvent, b: &TimedEvent) -> (r: bool)
    ensures
        r == spec_timed_le(a@, b@),
{
    if a.start == b.start {
        if a.end == b.end {
            str_le(a.event.as_str(), b.event.as_str())
        } else {
            str_le(a.end.as_str(), b.end.as_str())
        }
    } else {
        str_le(a.start.as_str(), b.start.as_str())
    }
}

/// Insert a timed event into a vector sorted by the event order, keeping
/// it sorted.
fn insert_timed_sorted(v: &mut Vec<TimedEvent>, x: TimedEvent)
    requires
        sorted_by(spec_timed_views(old(v)@), spec_timed_le_fn()),
    ensures
        sorted_by(spec_timed_views(final(v)@), spec_timed_le_fn()),
        spec_timed_views(final(v)@).to_multiset() == spec_timed_views(
            old(v)@,
        ).to_multiset().insert(x@),
{
    broadcast use vstd::seq_lib::group_to_multiset_ensures;
    broadcast use vstd::multiset::group_multiset_axioms;

    let ghost xv = x@;
    let mut j: usize = 0;
    while j < v.len() && timed_le(&v[j], &x)
        invariant
            0 <= j <= v.len(),
            v == old(v),
            x@ == xv,
            forall|k: int|
                0 <= k < j ==> #[trigger] spec_timed_le_fn()(spec_timed_views(v@)[k], xv),
        decreases v.len() - j,
    {
        proof {
            assert(spec_timed_le_fn()(spec_timed_views(v@)[j as int], xv));
        }
        j += 1;
    }
    let ghost s = spec_timed_views(v@);
    let ghost sv = v@;
    v.insert(j, x);
    proof {
        let t = spec_timed_views(v@);
        assert(v@ == sv.insert(j as int, x));
        sv.insert_ensures(j as int, x);
        assert(t =~= s.insert(j as int, xv));
        s.insert_ensures(j as int, xv);
        let leq = spec_timed_le_fn();
        assert forall|i1: int, i2: int| 0 <= i1 < i2 < t.len() implies #[trigger] leq(
            t[i1],
            t[i2],
        ) by {
            if i1 < j && i2 < j {
                assert(t[i1] == s[i1] && t[i2] == s[i2]);
            } else if i1 < j && i2 == j {
                assert(t[i1] == s[i1] && t[i2] == xv);
            } else if i1 < j && i2 > j {
                assert(t[i1] == s[i1] && t[i2] == s[i2 - 1]);
            } else if i1 == j && i2 > j {
                assert(t[i1] == xv && t[i2] == s[i2 - 1]);
                assert((j as int) < s.len());
                assert(!spec_timed_le(s[j as int], xv));
                assert(leq(xv, s[j as int])) by {
                    if s[j as int].start != xv.start {
                        lemma_str_le_total(s[j as int].start, xv.start);
                    } else if s[j as int].end != xv.end {
                        lemma_str_le_total(s[j as int].end, xv.end);
                    } else {
                        lemma_str_le_total(s[j as int].event, xv.event);
                    }
                }
                if i2 - 1 > j {
                    assert(leq(s[j as int], s[i2 - 1]));
                    lemma_timed_le_trans(xv, s[j as int], s[i2 - 1]);
                }
            } else {
                assert(t[i1] == s[i1 - 1] && t[i2] == s[i2 - 1]);
            }
        }
        assert(t =~= s.take(j as int).push(xv) + s.skip(j as int));
        assert(s =~= s.take(j as int) + s.skip(j as int));
        lemma_multiset_commutative(s.take(j as int).push(xv), s.skip(j as int));
        lemma_multiset_commutative(s.take(j as int), s.skip(j as int));
        assert(s.take(j as int).push(xv).to_multiset() =~= s.take(j as int).to_multiset().insert(
            xv,
        ));
        assert(t.to_multiset() =~= s.to_multiset().insert(xv));
    }
}

impl Agenda {
    /// Sort the timed events lexicographically by start, then end, then
    /// text, as done after every load of an entry file. Zero-padded
    /// `HH:MM` stamps thereby come out in chronological order. The
    /// full-day events are untouched.
    pub fn sort_timestamps(&mut self)
        ensures
            final(self).day == old(self).day,
            spec_timed_views(final(self).timestamp@) == spec_timed_views(
                old(self).timestamp@,
            ).sort_by(spec_timed_le_fn()),
    {
        broadcast use vstd::seq_lib::group_to_multiset_ensures;

        let ghost orig = self.timestamp@;
        let mut sorted_events: Vec<TimedEvent> = Vec::new();
        proof {
            assert(orig.take(0) =~= Seq::<TimedEvent>::empty());
            assert(spec_timed_views(Seq::<TimedEvent>::empty())
                =~= Seq::<TimedEventModel>::empty());
            assert(spec_timed_views(orig.take(0)).to_multiset() =~= spec_timed_views(
                sorted_events@,
            ).to_multiset());
        }
        let timestamp_count = self.timestamp.len();
        proof {
            assert(orig.len() == timestamp_count as int);
        }
        let mut i: usize = 0;
        while self.timestamp.len() > 0
            invariant
                orig.len() <= usize::MAX as int,
                0 <= i <= orig.len(),
                i as int + self.timestamp@.len() == orig.len(),
                self.timestamp@ == orig.skip(i as int),
                self.day == old(self).day,
                sorted_by(spec_timed_views(sorted_events@), spec_timed_le_fn()),
                spec_timed_views(sorted_events@).to_multiset() == spec_timed_views(
                    orig.take(i as int),
                ).to_multiset(),
            decreases self.timestamp@.len(),
        {
            let x = self.timestamp.remove(0);
            insert_timed_sorted(&mut sorted_events, x);
            proof {
                broadcast use vstd::seq_lib::group_to_multiset_ensures;

                assert(x == orig[i as int]);
                assert(orig.skip(i as int).remove(0) =~= orig.skip(i as int + 1));
                assert(orig.take(i as int + 1) =~= orig.take(i as int).push(orig[i as int]));
                assert(spec_timed_views(orig.take(i as int + 1)) =~= spec_timed_views(
                    orig.take(i as int),
                ).push(x@));
                assert(spec_timed_views(orig.take(i as int)).push(x@).to_multiset()
                    =~= spec_timed_views(orig.take(i as int)).to_multiset().insert(x@));
            }
            i += 1;
        }
        proof {
            assert(orig.take(orig.len() as int) =~= orig);
            lemma_timed_le_total_ordering();
            spec_timed_views(orig).lemma_sort_by_ensures(spec_timed_le_fn());
            lemma_sorted_unique(
                spec_timed_views(sorted_events@),
                spec_timed_views(orig).sort_by(spec_timed_le_fn()),
                spec_timed_le_fn(),
            );
        }
        self.timestamp = sorted_events;
    }
}

/// Keeping the event texts that are non-empty.
pub open spec fn spec_nonempty_text() -> spec_fn(Seq<char>) -> bool {
    |s: Seq<char>| s.len() != 0
}

/// Keeping the timed events whose text is non-empty.
pub open spec fn spec_timed_visible() -> spec_fn(TimedEventModel) -> bool {
    |m: TimedEventModel| m.event.len() != 0
}

impl Agenda {
    /// The full-day events to show, in order: those whose text is not
    /// empty. The empty-text sentinel events stand for "nothing" and are
    /// filtered out.
    pub fn visible_day_events(&self) -> (r: Vec<DayEvent>)
        ensures
            spec_day_views(r@) == spec_day_views(self.day@).filter(spec_nonempty_text()),
    {
        let mut shown: Vec<DayEvent> = Vec::new();
        let mut i: usize = 0;
        proof {
            reveal(Seq::filter);
            assert(spec_day_views(self.day@.take(0)) =~= Seq::<Seq<char>>::empty());
            assert(spec_day_views(shown@) =~= Seq::<Seq<char>>::empty().filter(
                spec_nonempty_text(),
            ));
        }
        while i < self.day.len()
            invariant
                0 <= i <= self.day.len(),
                spec_day_views(shown@) == spec_day_views(self.day@.take(i as int)).filter(
                    spec_nonempty_text(),
                ),
            decreases self.day.len() - i,
        {
            let ghost before = spec_day_views(shown@);
            if !self.day[i].event.as_str().is_empty() {
                let text = self.day[i].event.clone();
                shown.push(DayEvent { event: text });
            }
            proof {
                reveal(Seq::filter);
                let dv = spec_day_views(self.day@.take(i as int + 1));
                assert(dv.drop_last() =~= spec_day_views(self.day@.take(i as int)));
                assert(dv.last() == self.day@[i as int]@);
                if self.day@[i as int]@.len() != 0 {
                    assert(spec_day_views(shown@) =~= before.push(self.day@[i as int]@));
                }
            }
            i += 1;
        }
        proof {
            assert(self.day@.take(self.day@.len() as int) =~= self.day@);
        }
        shown
    }

    /// The timed events to show, in order: those whose text is not empty.
    pub fn visible_timed_events(&self) -> (r: Vec<TimedEvent>)
        ensures
            spec_timed_views(r@) == spec_timed_views(self.timestamp@).filter(spec_timed_visible()),
    {
        let mut shown: Vec<TimedEvent> = Vec::new();
        let mut i: usize = 0;
        proof {
            reveal(Seq::filter);
            assert(spec_timed_views(self.timestamp@.take(0)) =~= Seq::<TimedEventModel>::empty());
            assert(spec_timed_views(shown@) =~= Seq::<TimedEventModel>::empty().filter(
                spec_timed_visible(),
            ));
        }
        while i < self.timestamp.len()
            invariant
                0 <= i <= self.timestamp.len(),
                spec_timed_views(shown@) == spec_timed_views(self.timestamp@.take(i as int)).filter(
                    spec_timed_visible(),
                ),
            decreases self.timestamp.len() - i,
        {
            let ghost before = spec_timed_views(shown@);
            if !self.timestamp[i].event.as_str().is_empty() {
                let copy = TimedEvent {
                    start: self.timestamp[i].start.clone(),
                    end: self.timestamp[i].end.clone(),
                    event: self.timestamp[i].event.clone(),
                };
                shown.push(copy);
            }
            proof {
                reveal(Seq::filter);
                let tv = spec_timed_views(self.timestamp@.take(i as int + 1));
                assert(tv.drop_last() =~= spec_timed_views(self.timestamp@.take(i as int)));
                assert(tv.last() == self.timestamp@[i as int]@);
                if self.timestamp@[i as int]@.event.len() != 0 {
                    assert(spec_timed_views(shown@) =~= before.push(self.timestamp@[i as int]@));
                }
            }
            i += 1;
        }
        proof {
            assert(self.timestamp@.take(self.timestamp@.len() as int) =~= self.timestamp@);
        }
        shown
    }
}

/// The block of structured text appended to an entry file for one new
/// entry: a full-day block with one `event` field when the full-day flag
/// is set, else a timed block with `start`, `end` and `event` fields.
pub open spec fn spec_entry_block(
    full_day: bool,
    start: Seq<char>,
    end: Seq<char>,
    entry: Seq<char>,
) -> Seq<char> {
    if full_day {
        "[[day]]\nevent = '"@ + entry + "'\n"@
    } else {
        "[[timestamp]]\nstart = '"@ + start + "'\nend = '"@ + end + "'\nevent = '"@ + entry
            + "'\n"@
    }
}

/// Produce the block of text that records one new agenda entry. Exactly
/// one block comes out of each call; appending it to the entry file of
/// the date never rewrites what the file already holds.
pub fn entry_block(program_args: &ProgramArguments) -> (r: String)
    ensures
        r@ == spec_entry_block(
            program_args.flags.full_day,
            program_args.start@,
            program_args.end@,
            program_args.entry@,
        ),
{
    if program_args.flags.full_day {
        let mut s = String::from_str("[[day]]\nevent = '");
        s.append(program_args.entry.as_str());
        s.append("'\n");
        assert(s@ =~= spec_entry_block(
            true,
            program_args.start@,
            program_args.end@,
            program_args.entry@,
        ));
        s
    } else {
        let mut s = String::from_str("[[timestamp]]\nstart = '");
        s.append(program_args.start.as_str());
        s.append("'\nend = '");
        s.append(program_args.end.as_str());
        s.append("'\nevent = '");
        s.append(program_args.entry.as_str());
        s.append("'\n");
        assert(s@ =~= spec_entry_block(
            false,
            program_args.start@,
            program_args.end@,
            program_args.entry@,
        ));
        s
    }
}

} // verus!
