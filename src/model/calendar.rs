use vstd::prelude::*;

use crate::model::bus::{service_dates, service_dates_of, Bus};
use crate::model::clock::Date;

verus! {

/// A service calendar: the dates on which one schedule variant runs.
#[derive(Clone, Debug)]
pub struct Calendar {
    pub title: Option<String>,
    pub days: Vec<Date>,
    pub same_as: String,
    pub duration: String,
    pub operator: String,
}

/// Some date of `days` is in `dates`.
pub open spec fn covers_any(days: Seq<Date>, dates: Set<Date>) -> bool {
    exists|i: int| 0 <= i < days.len() && dates.contains(#[trigger] days[i])
}

impl Calendar {
    /// Whether this calendar runs on one of the dates of `date_list`.
    pub fn contains_date(&self, date_list: &[Date]) -> (r: bool)
        ensures
            r == covers_any(self.days@, date_list@.to_set()),
    {
        let mut i: usize = 0;
        while i < self.days.len()
            invariant
                0 <= i <= self.days@.len(),
                forall|k: int| 0 <= k < i ==> !date_list@.contains(#[trigger] self.days@[k]),
            decreases self.days@.len() - i,
        {
            let mut j: usize = 0;
            while j < date_list.len()
                invariant
                    0 <= i < self.days@.len(),
                    0 <= j <= date_list@.len(),
                    forall|m: int| 0 <= m < j ==> date_list@[m] != self.days@[i as int],
                decreases date_list@.len() - j,
            {
                if date_list[j] == self.days[i] {
                    proof {
                        assert(date_list@.to_set().contains(self.days@[i as int]));
                    }
                    return true;
                }
                j += 1;
            }
            i += 1;
        }
        false
    }
}

/// The calendars that run on the service date of at least one bus of `bus_list`,
/// in their given order.
pub fn active_calendars<'a>(bus_list: &[Bus], calendars: &'a [Calendar]) -> (r: Vec<&'a Calendar>)
    ensures
        r@.map_values(|c: &Calendar| *c) == calendars@.filter(
            |c: Calendar| covers_any(c.days@, service_dates(bus_list@)),
        ),
        bus_list@.len() == 0 ==> r@.len() == 0,
{
    let dates = service_dates_of(bus_list);
    let ghost keep = |c: Calendar| covers_any(c.days@, service_dates(bus_list@));
    let mut out: Vec<&'a Calendar> = Vec::new();
    let mut i: usize = 0;
    while i < calendars.len()
        invariant
            0 <= i <= calendars@.len(),
            dates@.to_set() == service_dates(bus_list@),
            keep == (|c: Calendar| covers_any(c.days@, service_dates(bus_list@))),
            out@.map_values(|c: &Calendar| *c) == calendars@.subrange(0, i as int).filter(keep),
        decreases calendars@.len() - i,
    {
        let calendar = &calendars[i];
        let ghost before = out@.map_values(|c: &Calendar| *c);
        if calendar.contains_date(dates.as_slice()) {
            out.push(calendar);
            proof {
                assert(out@.map_values(|c: &Calendar| *c) =~= before.push(*calendar));
            }
        }
        proof {
            let s = calendars@.subrange(0, i + 1);
            assert(s.drop_last() == calendars@.subrange(0, i as int));
            assert(s.last() == calendars@[i as int]);
            reveal(Seq::filter);
        }
        i += 1;
    }
    proof {
        assert(calendars@.subrange(0, calendars@.len() as int) == calendars@);
        if bus_list@.len() == 0 {
            assert(service_dates(bus_list@) =~= Set::empty());
            if calendars@.filter(keep).len() > 0 {
                calendars@.lemma_filter_pred(keep, 0);
                let c = calendars@.filter(keep)[0];
                assert(keep(c));
                let k = choose|k: int| 0 <= k < c.days@.len() && service_dates(bus_list@).contains(c.days@[k]);
                assert(!service_dates(bus_list@).contains(c.days@[k]));
            }
        }
    }
    out
}

} // verus!
