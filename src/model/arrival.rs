use vstd::prelude::*;

use crate::model::bus::{serves_pattern, Bus};
use crate::model::timetable::{timetable_match, Timetable, TimetableObject};
use crate::search::{first_index, is_first, lemma_first_index_at, lemma_first_index_none};
use crate::Pole;

verus! {

/// A timetable kept at the stop `id`.
pub open spec fn kept_at(id: Seq<char>) -> spec_fn(Timetable) -> bool {
    |t: Timetable| t.pole@ == id
}

/// The pair of scheduled entries a bus is correlated with: its matched entry in the
/// timetable of the stop it last left, and the entry at the same position in the
/// timetable of the first stop of `stops` that its route pattern serves. Absent when
/// the bus has no match, no such stop or timetable exists, or that timetable has no
/// entry at that position.
pub open spec fn arrival_of(b: Bus, stops: Seq<Pole>, ts: Seq<Timetable>) -> Option<
    (TimetableObject, TimetableObject),
> {
    match (timetable_match(b, ts), first_index(stops, serves_pattern(b.route_pattern@))) {
        (Some((k, i)), Some(p)) => match first_index(ts, kept_at(stops[p].same_as@)) {
            Some(q) => if i < ts[q].timetable_object@.len() {
                Some((ts[k].timetable_object@[i], ts[q].timetable_object@[i]))
            } else {
                None
            },
            None => None,
        },
        _ => None,
    }
}

/// The buses of `buses` that correlate, in order, each with its pair of entries.
pub open spec fn arrivals(buses: Seq<Bus>, stops: Seq<Pole>, ts: Seq<Timetable>) -> Seq<
    (Bus, TimetableObject, TimetableObject),
>
    decreases buses.len(),
{
    if buses.len() == 0 {
        Seq::empty()
    } else {
        let b = buses.last();
        let rest = arrivals(buses.drop_last(), stops, ts);
        match arrival_of(b, stops, ts) {
            Some((e, f)) => rest.push((b, e, f)),
            None => rest,
        }
    }
}

fn find_kept_at<'a>(ts: &'a [Timetable], id: &String) -> (r: Option<&'a Timetable>)
    ensures
        match (r, first_index(ts@, kept_at(id@))) {
            (Some(t), Some(q)) => *t == ts@[q],
            (None, None) => true,
            _ => false,
        },
{
    let ghost f = kept_at(id@);
    let mut i: usize = 0;
    while i < ts.len()
        invariant
            0 <= i <= ts@.len(),
            f == kept_at(id@),
            forall|j: int| 0 <= j < i ==> !f(#[trigger] ts@[j]),
        decreases ts@.len() - i,
    {
        if ts[i].pole == *id {
            proof {
                assert(is_first(ts@, f, i as int));
                lemma_first_index_at(ts@, f, i as int);
            }
            return Some(&ts[i]);
        }
        i += 1;
    }
    proof {
        lemma_first_index_none(ts@, f);
    }
    None
}

impl Bus {
    /// This bus's pair of scheduled entries, as `arrival_of` describes it.
    pub fn get_arrival<'a>(&self, stops: &[Pole], timetables: &'a [Timetable]) -> (r: Option<
        (&'a TimetableObject, &'a TimetableObject),
    >)
        ensures
            match (r, arrival_of(*self, stops@, timetables@)) {
                (Some((e, f)), Some((x, y))) => *e == x && *f == y,
                (None, None) => true,
                _ => false,
            },
    {
        let (current, i) = match self.get_timetable_and_index(timetables) {
            Some(m) => m,
            None => return None,
        };
        let target_pole = match self.get_pole(stops) {
            Some(p) => p,
            None => return None,
        };
        let target = match find_kept_at(timetables, &target_pole.same_as) {
            Some(t) => t,
            None => return None,
        };
        if i < target.timetable_object.len() && i < current.timetable_object.len() {
            Some((&current.timetable_object[i], &target.timetable_object[i]))
        } else {
            None
        }
    }
}

/// Each bus of `buses` with its pair of scheduled entries, leaving out the buses
/// that do not correlate.
pub fn correlate<'a>(buses: &[&'a Bus], stops: &[Pole], timetables: &'a [Timetable]) -> (r: Vec<
    (&'a Bus, &'a TimetableObject, &'a TimetableObject),
>)
    ensures
        r@.map_values(
            |a: (&Bus, &TimetableObject, &TimetableObject)| (*a.0, *a.1, *a.2),
        ) == arrivals(buses@.map_values(|b: &Bus| *b), stops@, timetables@),
{
    let ghost all = buses@.map_values(|b: &Bus| *b);
    let mut out: Vec<(&'a Bus, &'a TimetableObject, &'a TimetableObject)> = Vec::new();
    let mut i: usize = 0;
    while i < buses.len()
        invariant
            0 <= i <= buses@.len(),
            all == buses@.map_values(|b: &Bus| *b),
            out@.map_values(|a: (&Bus, &TimetableObject, &TimetableObject)| (*a.0, *a.1, *a.2))
                == arrivals(all.subrange(0, i as int), stops@, timetables@),
        decreases buses@.len() - i,
    {
        let b: &'a Bus = buses[i];
        let ghost before = out@;
        match b.get_arrival(stops, timetables) {
            Some((e, f)) => {
                out.push((b, e, f));
                proof {
                    assert(out@ == before.push((b, e, f)));
                    assert(out@.map_values(
                        |a: (&Bus, &TimetableObject, &TimetableObject)| (*a.0, *a.1, *a.2),
                    ) =~= before.map_values(
                        |a: (&Bus, &TimetableObject, &TimetableObject)| (*a.0, *a.1, *a.2),
                    ).push((*b, *e, *f)));
                }
            },
            None => {},
        }
        proof {
            let s = all.subrange(0, i + 1);
            assert(s.drop_last() =~= all.subrange(0, i as int));
            assert(s.last() == *b);
        }
        i += 1;
    }
    proof {
        assert(all.subrange(0, buses@.len() as int) =~= all);
    }
    out
}

} // verus!
