use vstd::prelude::*;

use crate::model::bus::Bus;
use crate::model::clock::{time_distance, TimeOfDay};
use crate::search::{first_index, is_first, lemma_first_index_at, lemma_first_index_none};

verus! {

/// One scheduled departure of a timetable.
#[derive(Clone, Debug)]
pub struct TimetableObject {
    pub route_pattern: String,
    pub route_pattern_order: i64,
    pub departure_time: TimeOfDay,
    pub destination_pole: String,
    pub destination_sign: String,
    pub is_midnight: bool,
    pub is_non_step_bus: bool,
}

/// The scheduled departures of one route at one stop, under one calendar.
#[derive(Clone, Debug)]
pub struct Timetable {
    pub title: String,
    pub bus_direction: String,
    pub route: String,
    pub pole: String,
    pub timetable_object: Vec<TimetableObject>,
    pub calendar: String,
    pub note: Option<String>,
    pub operator: String,
    pub same_as: String,
}

/// A timetable of the bus's route at the stop the bus last left.
pub open spec fn serves_leg(b: Bus) -> spec_fn(Timetable) -> bool {
    |t: Timetable| t.route@ == b.route@ && t.pole@ == b.from_pole@
}

/// Among the first `n` entries of `objs`, the entry at `i` goes to `dest` and is the
/// earliest of those closest in time of day to `at`.
pub open spec fn is_best_upto(
    objs: Seq<TimetableObject>,
    dest: Seq<char>,
    at: TimeOfDay,
    n: int,
    i: int,
) -> bool {
    &&& 0 <= i < n <= objs.len()
    &&& objs[i].destination_pole@ == dest
    &&& forall|j: int|
        0 <= j < n && (#[trigger] objs[j]).destination_pole@ == dest ==> time_distance(
            objs[i].departure_time,
            at,
        ) <= time_distance(objs[j].departure_time, at)
    &&& forall|j: int|
        0 <= j < i && (#[trigger] objs[j]).destination_pole@ == dest ==> time_distance(
            objs[i].departure_time,
            at,
        ) < time_distance(objs[j].departure_time, at)
}

/// The position of the entry of `objs` to `dest` closest in time of day to `at`,
/// the earliest one on a tie; absent when no entry goes to `dest`.
pub open spec fn best_entry(objs: Seq<TimetableObject>, dest: Seq<char>, at: TimeOfDay) -> Option<
    int,
> {
    if exists|i: int| is_best_upto(objs, dest, at, objs.len() as int, i) {
        Some(choose|i: int| is_best_upto(objs, dest, at, objs.len() as int, i))
    } else {
        None
    }
}

/// The timetable of `ts` that the bus's departure is matched in, and the position
/// of the matched entry in that timetable.
pub open spec fn timetable_match(b: Bus, ts: Seq<Timetable>) -> Option<(int, int)> {
    match first_index(ts, serves_leg(b)) {
        Some(k) => match best_entry(
            ts[k].timetable_object@,
            b.terminal_pole@,
            b.from_pole_time.time,
        ) {
            Some(i) => Some((k, i)),
            None => None,
        },
        None => None,
    }
}

/// At most one entry is the earliest closest one.
pub proof fn lemma_best_unique(
    objs: Seq<TimetableObject>,
    dest: Seq<char>,
    at: TimeOfDay,
    n: int,
    i: int,
    j: int,
)
    requires
        is_best_upto(objs, dest, at, n, i),
        is_best_upto(objs, dest, at, n, j),
    ensures
        i == j,
{
    if i < j {
        assert(objs[i].destination_pole@ == dest);
    } else if j < i {
        assert(objs[j].destination_pole@ == dest);
    }
}

/// Of two entries to the same stop, equally far in time of day from the report,
/// the later one is never the match.
pub proof fn lemma_tie_goes_to_earlier(
    objs: Seq<TimetableObject>,
    dest: Seq<char>,
    at: TimeOfDay,
    i: int,
    j: int,
)
    requires
        0 <= i < j < objs.len(),
        objs[i].destination_pole@ == dest,
        objs[j].destination_pole@ == dest,
        time_distance(objs[i].departure_time, at) == time_distance(objs[j].departure_time, at),
    ensures
        best_entry(objs, dest, at) != Some(j),
{
    if best_entry(objs, dest, at) == Some(j) {
        let e = choose|e: int| is_best_upto(objs, dest, at, objs.len() as int, e);
        assert(e == j);
        assert(objs[i].destination_pole@ == dest);
    }
}

/// The best entry of `objs` to `dest` around `at`.
fn best_entry_of(objs: &Vec<TimetableObject>, dest: &String, at: TimeOfDay) -> (r: Option<usize>)
    ensures
        match (r, best_entry(objs@, dest@, at)) {
            (Some(i), Some(e)) => i == e,
            (None, None) => true,
            _ => false,
        },
{
    let mut best: Option<usize> = None;
    let mut best_distance: u32 = 0;
    let mut i: usize = 0;
    while i < objs.len()
        invariant
            0 <= i <= objs@.len(),
            match best {
                Some(b) => is_best_upto(objs@, dest@, at, i as int, b as int) && best_distance
                    == time_distance(objs@[b as int].departure_time, at),
                None => forall|j: int|
                    0 <= j < i ==> (#[trigger] objs@[j]).destination_pole@ != dest@,
            },
        decreases objs@.len() - i,
    {
        if objs[i].destination_pole == *dest {
            let d = objs[i].departure_time.distance(&at);
            match best {
                Some(b) => {
                    if d < best_distance {
                        best = Some(i);
                        best_distance = d;
                    }
                },
                None => {
                    best = Some(i);
                    best_distance = d;
                },
            }
        }
        i += 1;
    }
    proof {
        match best {
            Some(b) => {
                lemma_best_some(objs@, dest@, at, b as int);
            },
            None => {
                if exists|e: int| is_best_upto(objs@, dest@, at, objs@.len() as int, e) {
                    let e = choose|e: int| is_best_upto(objs@, dest@, at, objs@.len() as int, e);
                    assert(objs@[e].destination_pole@ == dest@);
                }
            },
        }
    }
    best
}

proof fn lemma_best_some(objs: Seq<TimetableObject>, dest: Seq<char>, at: TimeOfDay, b: int)
    requires
        is_best_upto(objs, dest, at, objs.len() as int, b),
    ensures
        best_entry(objs, dest, at) == Some(b),
{
    let e = choose|e: int| is_best_upto(objs, dest, at, objs.len() as int, e);
    lemma_best_unique(objs, dest, at, objs.len() as int, b, e);
}

impl Bus {
    /// The timetable of this bus's route at the stop it last left, and the position
    /// of the entry, among those to the bus's terminal stop, whose departure time is
    /// closest to the bus's, the earliest on a tie.
    pub fn get_timetable_and_index<'a>(&self, timetables: &'a [Timetable]) -> (r: Option<
        (&'a Timetable, usize),
    >)
        ensures
            match (r, timetable_match(*self, timetables@)) {
                (Some((t, i)), Some((k, e))) => *t == timetables@[k] && i == e,
                (None, None) => true,
                _ => false,
            },
    {
        let ghost f = serves_leg(*self);
        let mut k: usize = 0;
        while k < timetables.len()
            invariant
                0 <= k <= timetables@.len(),
                f == serves_leg(*self),
                forall|j: int| 0 <= j < k ==> !f(#[trigger] timetables@[j]),
            decreases timetables@.len() - k,
        {
            let t = &timetables[k];
            if t.route == self.route && t.pole == self.from_pole {
                proof {
                    assert(is_first(timetables@, f, k as int));
                    lemma_first_index_at(timetables@, f, k as int);
                }
                return match best_entry_of(
                    &t.timetable_object,
                    &self.terminal_pole,
                    self.from_pole_time.time,
                ) {
                    Some(i) => Some((t, i)),
                    None => None,
                };
            }
            k += 1;
        }
        proof {
            lemma_first_index_none(timetables@, f);
        }
        None
    }
}

} // verus!
