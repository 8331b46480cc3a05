//! Discovery of agenda entries: recognising date-named entry files,
//! turning a directory listing into the valid dates it holds, and the
//! queries the calendar view asks of those dates.

use crate::date::{
    spec_date_le, spec_date_lt, spec_next_date, spec_prev_date, spec_valid_date, spec_wf_date,
    Date, DateModel,
};
use crate::date_conversions::month_to_days_in_month;
use vstd::prelude::*;
use vstd::relations::{sorted_by, total_ordering};
use vstd::seq_lib::{lemma_multiset_commutative, lemma_sorted_unique};

verus! {

/// Check that `check_date` lies strictly between `lower_date` and
/// `upper_date` in the calendar ordering.
pub fn is_between_dates(check_date: &Date, lower_date: &Date, upper_date: &Date) -> (r: bool)
    ensures
        r == (spec_date_lt(lower_date@, check_date@) && spec_date_lt(check_date@, upper_date@)),
{
    if check_date > lower_date && check_date < upper_date {
        return true;
    } else {
        return false;
    }
}

/// Move `date` one day forward, wrapping into the next month or year.
pub fn increment_date_by_one(date: &mut Date)
    requires
        spec_valid_date(old(date)@),
        old(date)@.year < i32::MAX as int,
    ensures
        final(date)@ == spec_next_date(old(date)@),
        spec_valid_date(final(date)@),
{
    let max_day = month_to_days_in_month(date.month, date.year);
    if date.day + 1 > max_day {
        if date.month + 1 > 12 {
            date.day = 1;
            date.month = 1;
            date.year += 1;
        } else {
            date.day = 1;
            date.month += 1;
        }
    } else {
        date.day += 1;
    }
    proof {
        crate::date::lemma_days_in_month_range(date@.month, date@.year);
    }
}

/// Move `date` one day backward, wrapping into the previous month or
/// year. The length of the previous month is taken for the updated month,
/// so the first of March lands on the right February day.
pub fn decrement_date_by_one(date: &mut Date)
    requires
        spec_valid_date(old(date)@),
    ensures
        final(date)@ == spec_prev_date(old(date)@),
        spec_wf_date(final(date)@),
        final(date)@.year >= old(date)@.year - 1,
{
    if date.day - 1 <= 0 {
        if date.month - 1 <= 0 {
            date.day = 31;
            date.month = 12;
            date.year -= 1;
        } else {
            let max_day = month_to_days_in_month(date.month - 1, date.year);
            date.day = max_day;
            date.month -= 1;
        }
    } else {
        date.day -= 1;
    }
    proof {
        crate::date::lemma_days_in_month_range(date@.month, date@.year);
    }
}

/// Shift `date` by `days` whole days, forward or backward.
pub fn add_days_to_date(date: &mut Date, days: i32)
    requires
        spec_valid_date(old(date)@),
        old(date)@.year + days as int <= i32::MAX as int,
        days < 0 ==> crate::date::spec_add_days(old(date)@, days as int).year >= 1,
    ensures
        final(date)@ == crate::date::spec_add_days(old(date)@, days as int),
        spec_valid_date(final(date)@),
{
    date.add_days(days);
}

/// A decimal digit character.
pub open spec fn spec_is_digit(c: char) -> bool {
    '0' as int <= c as int && c as int <= '9' as int
}

/// The numeric value of a decimal digit character.
pub open spec fn spec_digit_value(c: char) -> int {
    c as int - '0' as int
}

/// The syntactic shape of an entry file name: `DD-MM-YYYY.toml`, where the
/// day group lexically matches `[0-3][0-9]`, the month group `[0-1][0-9]`,
/// and the year group is any four digits. This filter is looser than
/// calendar validity; validity is checked on the parsed date.
pub open spec fn spec_entry_filename(s: Seq<char>) -> bool {
    &&& s.len() == 15
    &&& spec_is_digit(s[0]) && s[0] as int <= '3' as int
    &&& spec_is_digit(s[1])
    &&& s[2] == '-'
    &&& spec_is_digit(s[3]) && s[3] as int <= '1' as int
    &&& spec_is_digit(s[4])
    &&& s[5] == '-'
    &&& spec_is_digit(s[6]) && spec_is_digit(s[7]) && spec_is_digit(s[8]) && spec_is_digit(s[9])
    &&& s[10] == '.' && s[11] == 't' && s[12] == 'o' && s[13] == 'm' && s[14] == 'l'
}

/// The date the three digit groups of an entry file name spell.
pub open spec fn spec_filename_date(s: Seq<char>) -> DateModel {
    DateModel {
        day: 10 * spec_digit_value(s[0]) + spec_digit_value(s[1]),
        month: 10 * spec_digit_value(s[3]) + spec_digit_value(s[4]),
        year: 1000 * spec_digit_value(s[6]) + 100 * spec_digit_value(s[7]) + 10
            * spec_digit_value(s[8]) + spec_digit_value(s[9]),
    }
}

/// The date the digit groups of an entry file name spell, as a value.
pub open spec fn spec_filename_to_date(s: Seq<char>) -> Date {
    Date {
        day: spec_filename_date(s).day as i32,
        month: spec_filename_date(s).month as i32,
        year: spec_filename_date(s).year as i32,
    }
}

/// Check one character for being a decimal digit.
fn is_digit_char(c: char) -> (r: bool)
    ensures
        r == spec_is_digit(c),
{
    ('0' as u32) <= (c as u32) && (c as u32) <= ('9' as u32)
}

/// Parse a file name of the shape `DD-MM-YYYY.toml` into the date its
/// digit groups spell. Names of any other shape yield `None`; the parsed
/// date is not yet checked for calendar validity.
pub fn parse_entry_filename(name: &str) -> (r: Option<Date>)
    ensures
        r.is_some() == spec_entry_filename(name@),
        r matches Some(d) ==> d == spec_filename_to_date(name@),
{
    let len = name.unicode_len();
    if len != 15 {
        return None;
    }
    let c0 = name.get_char(0);
    let c1 = name.get_char(1);
    let c2 = name.get_char(2);
    let c3 = name.get_char(3);
    let c4 = name.get_char(4);
    let c5 = name.get_char(5);
    let c6 = name.get_char(6);
    let c7 = name.get_char(7);
    let c8 = name.get_char(8);
    let c9 = name.get_char(9);
    let c10 = name.get_char(10);
    let c11 = name.get_char(11);
    let c12 = name.get_char(12);
    let c13 = name.get_char(13);
    let c14 = name.get_char(14);
    let shape_ok = is_digit_char(c0) && (c0 as u32) <= ('3' as u32) && is_digit_char(c1) && c2
        == '-' && is_digit_char(c3) && (c3 as u32) <= ('1' as u32) && is_digit_char(c4) && c5
        == '-' && is_digit_char(c6) && is_digit_char(c7) && is_digit_char(c8) && is_digit_char(c9)
        && c10 == '.' && c11 == 't' && c12 == 'o' && c13 == 'm' && c14 == 'l';
    if !shape_ok {
        return None;
    }
    let zero = '0' as u32;
    let day = (10 * ((c0 as u32) - zero) + ((c1 as u32) - zero)) as i32;
    let month = (10 * ((c3 as u32) - zero) + ((c4 as u32) - zero)) as i32;
    let year = (1000 * ((c6 as u32) - zero) + 100 * ((c7 as u32) - zero) + 10 * ((c8 as u32)
        - zero) + ((c9 as u32) - zero)) as i32;
    Some(Date { day, month, year })
}

/// The dates of the entry files among a directory listing: every name of
/// the `DD-MM-YYYY.toml` shape whose date is a possible calendar date, in
/// listing order. All other names are ignored.
pub open spec fn spec_scan_dates(names: Seq<Seq<char>>) -> Seq<Date>
    decreases names.len(),
{
    if names.len() == 0 {
        Seq::empty()
    } else {
        let prefix = spec_scan_dates(names.drop_last());
        let s = names.last();
        if spec_entry_filename(s) && spec_valid_date(spec_filename_to_date(s)@) {
            prefix.push(spec_filename_to_date(s))
        } else {
            prefix
        }
    }
}

/// Get the dates with an agenda entry out of a directory listing. Only
/// file names of the form `DD-MM-YYYY.toml` are converted into a `Date`,
/// and only dates that pass `validate` are kept; every other name is
/// skipped without failing the whole listing.
pub fn get_agenda_entries(names: &Vec<String>) -> (r: Vec<Date>)
    ensures
        r@ == spec_scan_dates(names@.map_values(|s: String| s@)),
        forall|k: int| 0 <= k < r@.len() ==> spec_valid_date((#[trigger] r@[k])@),
{
    let ghost mapped = names@.map_values(|s: String| s@);
    let mut valid_entries: Vec<Date> = Vec::new();
    let mut i: usize = 0;
    proof {
        assert(mapped.take(0) =~= Seq::<Seq<char>>::empty());
    }
    while i < names.len()
        invariant
            0 <= i <= names.len(),
            mapped == names@.map_values(|s: String| s@),
            mapped.len() == names@.len(),
            valid_entries@ == spec_scan_dates(mapped.take(i as int)),
        decreases names.len() - i,
    {
        let file_date = parse_entry_filename(names[i].as_str());
        match file_date {
            Some(d) => {
                if d.validate() {
                    valid_entries.push(d);
                }
            },
            None => {},
        }
        proof {
            assert(mapped.take(i as int + 1).drop_last() =~= mapped.take(i as int));
            assert(mapped.take(i as int + 1).last() == mapped[i as int]);
        }
        i += 1;
    }
    proof {
        assert(mapped.take(names@.len() as int) =~= mapped);
        lemma_scan_dates_valid(mapped);
    }
    valid_entries
}

/// Every date the scan yields is a possible calendar date: whatever
/// passed the syntactic name filter was also held to `validate`.
pub proof fn lemma_scan_dates_valid(names: Seq<Seq<char>>)
    ensures
        forall|k: int|
            0 <= k < spec_scan_dates(names).len() ==> spec_valid_date(
                (#[trigger] spec_scan_dates(names)[k])@,
            ),
    decreases names.len(),
{
    if names.len() > 0 {
        lemma_scan_dates_valid(names.drop_last());
        let prefix = spec_scan_dates(names.drop_last());
        let whole = spec_scan_dates(names);
        assert forall|k: int| 0 <= k < whole.len() implies spec_valid_date(
            (#[trigger] whole[k])@,
        ) by {
            if k < prefix.len() {
                assert(whole[k] == prefix[k]);
            }
        }
    }
}

/// Check whether `date` is one of the entry dates: the membership test
/// behind the calendar-grid highlighting.
pub fn has_entry(entries: &Vec<Date>, date: &Date) -> (r: bool)
    ensures
        r == entries@.contains(*date),
{
    let mut i: usize = 0;
    while i < entries.len()
        invariant
            0 <= i <= entries.len(),
            forall|k: int| 0 <= k < i ==> entries@[k] != *date,
        decreases entries.len() - i,
    {
        if entries[i] == *date {
            return true;
        }
        i += 1;
    }
    false
}

/// The calendar ordering as a relation on `Date` values.
pub open spec fn spec_date_le_fn() -> spec_fn(Date, Date) -> bool {
    |a: Date, b: Date| spec_date_le(a@, b@)
}

/// Keeping the dates on or after `rf`.
pub open spec fn spec_on_or_after(rf: Date) -> spec_fn(Date) -> bool {
    |d: Date| spec_date_le(rf@, d@)
}

/// The calendar ordering is a total ordering on `Date` values.
pub proof fn lemma_date_le_total_ordering()
    ensures
        total_ordering(spec_date_le_fn()),
{
    let r = spec_date_le_fn();
    assert forall|x: Date| #[trigger] r(x, x) by {}
    assert forall|x: Date, y: Date| #[trigger] r(x, y) && #[trigger] r(y, x) implies x == y by {
        assert(x.day == y.day && x.month == y.month && x.year == y.year);
    }
    assert forall|x: Date, y: Date, z: Date| #[trigger] r(x, y) && #[trigger] r(y, z) implies r(
        x,
        z,
    ) by {}
    assert forall|x: Date, y: Date| #[trigger] r(x, y) || #[trigger] r(y, x) by {}
}

/// Compare two dates in the calendar ordering.
fn date_le(a: &Date, b: &Date) -> (r: bool)
    ensures
        r == spec_date_le(a@, b@),
{
    if a.year != b.year {
        a.year < b.year
    } else if a.month != b.month {
        a.month < b.month
    } else {
        a.day <= b.day
    }
}

/// Insert a date into a vector sorted by the calendar ordering, keeping
/// it sorted.
fn insert_date_sorted(v: &mut Vec<Date>, x: Date)
    requires
        sorted_by(old(v)@, spec_date_le_fn()),
    ensures
        sorted_by(final(v)@, spec_date_le_fn()),
        final(v)@.to_multiset() == old(v)@.to_multiset().insert(x),
{
    broadcast use vstd::seq_lib::group_to_multiset_ensures;
    broadcast use vstd::multiset::group_multiset_axioms;

    let ghost leq = spec_date_le_fn();
    let mut j: usize = 0;
    while j < v.len() && date_le(&v[j], &x)
        invariant
            0 <= j <= v.len(),
            v == old(v),
            forall|k: int| 0 <= k < j ==> #[trigger] spec_date_le_fn()(v@[k], x),
        decreases v.len() - j,
    {
        proof {
            assert(spec_date_le_fn()(v@[j as int], x));
        }
        j += 1;
    }
    let ghost s = v@;
    v.insert(j, x);
    proof {
        let t = v@;
        assert(t == s.insert(j as int, x));
        // sortedness of the new sequence
        assert forall|i1: int, i2: int| 0 <= i1 < i2 < t.len() implies #[trigger] leq(
            t[i1],
            t[i2],
        ) by {
            if i1 < j && i2 < j {
                assert(t[i1] == s[i1] && t[i2] == s[i2]);
            } else if i1 < j && i2 == j {
                assert(t[i1] == s[i1] && t[i2] == x);
            } else if i1 < j && i2 > j {
                assert(t[i1] == s[i1] && t[i2] == s[i2 - 1]);
            } else if i1 == j && i2 > j {
                assert(t[i1] == x && t[i2] == s[i2 - 1]);
                assert((j as int) < s.len());
                assert(!spec_date_le(s[j as int]@, x@));
                assert(leq(x, s[j as int]));
                if i2 - 1 > j {
                    assert(leq(s[j as int], s[i2 - 1]));
                }
            } else {
                assert(t[i1] == s[i1 - 1] && t[i2] == s[i2 - 1]);
            }
        }
        // the new sequence holds the old dates and the new one
        assert(t =~= s.take(j as int).push(x) + s.skip(j as int));
        assert(s =~= s.take(j as int) + s.skip(j as int));
        lemma_multiset_commutative(s.take(j as int).push(x), s.skip(j as int));
        lemma_multiset_commutative(s.take(j as int), s.skip(j as int));
        assert(s.take(j as int).push(x).to_multiset() =~= s.take(j as int).to_multiset().insert(
            x,
        ));
        assert(t.to_multiset() =~= s.to_multiset().insert(x));
    }
}

/// Sort a vector of dates ascending in the calendar ordering.
pub fn sort_dates(v: &mut Vec<Date>)
    ensures
        final(v)@ == old(v)@.sort_by(spec_date_le_fn()),
{
    broadcast use vstd::seq_lib::group_to_multiset_ensures;

    let mut sorted_vec: Vec<Date> = Vec::new();
    let mut i: usize = 0;
    proof {
        assert(v@.take(0) =~= Seq::<Date>::empty());
        assert(Seq::<Date>::empty().to_multiset() =~= sorted_vec@.to_multiset());
    }
    while i < v.len()
        invariant
            0 <= i <= v.len(),
            sorted_by(sorted_vec@, spec_date_le_fn()),
            sorted_vec@.to_multiset() == v@.take(i as int).to_multiset(),
        decreases v.len() - i,
    {
        let x = v[i];
        insert_date_sorted(&mut sorted_vec, x);
        proof {
            broadcast use vstd::seq_lib::group_to_multiset_ensures;

            assert(v@.take(i as int + 1) =~= v@.take(i as int).push(v@[i as int]));
            assert(v@.take(i as int).push(v@[i as int]).to_multiset() =~= v@.take(
                i as int,
            ).to_multiset().insert(v@[i as int]));
        }
        i += 1;
    }
    proof {
        assert(v@.take(v@.len() as int) =~= v@);
        lemma_date_le_total_ordering();
        v@.lemma_sort_by_ensures(spec_date_le_fn());
        lemma_sorted_unique(sorted_vec@, v@.sort_by(spec_date_le_fn()), spec_date_le_fn());
    }
    *v = sorted_vec;
}

/// The earliest entry date on or after `rf`, skipping `rf` itself when a
/// later entry exists: among the entry dates at or past `rf`, in sorted
/// order, the second when the first is `rf` itself and a second exists,
/// else the first, else `rf` when no entry date lies at or past `rf`.
pub open spec fn spec_next_nonempty_on_or_after(entries: Seq<Date>, rf: Date) -> Date {
    let f = entries.filter(spec_on_or_after(rf)).sort_by(spec_date_le_fn());
    if f.len() >= 2 && f[0] == rf {
        f[1]
    } else if f.len() >= 1 {
        f[0]
    } else {
        rf
    }
}

/// Whatever a sequence of dates keeps after filtering was in it before.
proof fn lemma_date_filter_subset(s: Seq<Date>, pred: spec_fn(Date) -> bool, x: Date)
    requires
        s.filter(pred).contains(x),
    ensures
        s.contains(x),
    decreases s.len(),
{
    reveal(Seq::filter);
    if s.len() > 0 {
        let dl = s.drop_last();
        if pred(s.last()) && x == s.last() {
            assert(s[s.len() - 1] == x);
        } else {
            if pred(s.last()) {
                let f = s.filter(pred);
                let i = choose|i: int| 0 <= i < f.len() && f[i] == x;
                assert(f[i] == dl.filter(pred)[i]);
                assert(dl.filter(pred).contains(x));
            }
            lemma_date_filter_subset(dl, pred, x);
            let j = choose|j: int| 0 <= j < dl.len() && dl[j] == x;
            assert(s[j] == x);
        }
    }
}

/// Every element of the sorted, filtered candidate list is one of the
/// entry dates it was drawn from.
proof fn lemma_candidate_in_entries(entries: Seq<Date>, pred: spec_fn(Date) -> bool, i: int)
    requires
        0 <= i < entries.filter(pred).sort_by(spec_date_le_fn()).len(),
    ensures
        entries.contains(entries.filter(pred).sort_by(spec_date_le_fn())[i]),
{
    broadcast use vstd::seq_lib::to_multiset_contains;

    let f = entries.filter(pred);
    let fs = f.sort_by(spec_date_le_fn());
    lemma_date_le_total_ordering();
    f.lemma_sort_by_ensures(spec_date_le_fn());
    assert(fs.contains(fs[i]));
    assert(f.to_multiset().count(fs[i]) > 0);
    assert(f.contains(fs[i]));
    lemma_date_filter_subset(entries, pred, fs[i]);
}

/// Find the date whose agenda to show next to `reference`: the earliest
/// entry date on or after `reference`, excluding `reference` itself when
/// a later entry exists, and `reference` itself when there is none.
/// Selection goes by which dates have an entry file, not by the text
/// stored in them. The result is one of the given dates, or `reference`.
pub fn next_nonempty_on_or_after(entries: &Vec<Date>, reference: &Date) -> (r: Date)
    ensures
        r == spec_next_nonempty_on_or_after(entries@, *reference),
        entries@.contains(r) || r == *reference,
{
    let ghost pred = spec_on_or_after(*reference);
    let mut filtered_entries: Vec<Date> = Vec::new();
    let mut i: usize = 0;
    proof {
        reveal(Seq::filter);
        assert(entries@.take(0) =~= Seq::<Date>::empty());
    }
    while i < entries.len()
        invariant
            0 <= i <= entries.len(),
            filtered_entries@ == entries@.take(i as int).filter(pred),
            pred == spec_on_or_after(*reference),
        decreases entries.len() - i,
    {
        let e = entries[i];
        if date_le(reference, &e) {
            filtered_entries.push(e);
        }
        proof {
            reveal(Seq::filter);
            assert(entries@.take(i as int + 1).drop_last() =~= entries@.take(i as int));
            assert(entries@.take(i as int + 1).last() == entries@[i as int]);
        }
        i += 1;
    }
    proof {
        assert(entries@.take(entries@.len() as int) =~= entries@);
    }
    sort_dates(&mut filtered_entries);
    if filtered_entries.len() >= 2 {
        if filtered_entries[0] == *reference {
            proof {
                lemma_candidate_in_entries(entries@, pred, 1);
            }
            filtered_entries[1]
        } else {
            proof {
                lemma_candidate_in_entries(entries@, pred, 0);
            }
            filtered_entries[0]
        }
    } else if filtered_entries.len() >= 1 {
        proof {
            lemma_candidate_in_entries(entries@, pred, 0);
        }
        filtered_entries[0]
    } else {
        *reference
    }
}

} // verus!
