use vstd::prelude::*;

use crate::model::clock::{Date, LocalDateTime};
use crate::model::route_pattern::{order_index, RoutePattern};
use crate::search::{first_index, is_first, lemma_first_index_at, lemma_first_index_none};
use crate::{contains_id, id_texts, Pole};

verus! {

/// A live report of one bus in service.
#[derive(Clone, Debug)]
pub struct Bus {
    pub valid: String,
    pub number: String,
    pub route: String,
    pub route_pattern: String,
    pub frequency: i64,
    /// The stop the bus last left.
    pub from_pole: String,
    /// When the bus left `from_pole`.
    pub from_pole_time: LocalDateTime,
    pub note: Option<String>,
    pub operator: Option<String>,
    pub starting_pole: String,
    pub terminal_pole: String,
    /// The next stop of the bus.
    pub to_pole: String,
    pub same_as: String,
}

/// The service date of a bus: the local date on which it left its last stop.
pub open spec fn service_date(b: Bus) -> Date {
    b.from_pole_time.date
}

/// The service dates of `buses`.
pub open spec fn service_dates(buses: Seq<Bus>) -> Set<Date> {
    buses.map_values(|b: Bus| service_date(b)).to_set()
}

/// A stop served by the route pattern `id`.
pub open spec fn serves_pattern(id: Seq<char>) -> spec_fn(Pole) -> bool {
    |p: Pole| id_texts(p.route_pattern@).contains(id)
}

/// A route pattern whose identifier is `id`.
pub open spec fn pattern_named(id: Seq<char>) -> spec_fn(RoutePattern) -> bool {
    |r: RoutePattern| r.same_as@ == id
}

/// The bus has not yet passed its target stop: the first stop of `poles` that its
/// pattern serves, and the pattern itself among `routes`, both exist; its next
/// stop and that target stop both resolve to an index along the pattern; and the
/// next stop's index is at most the target's.
pub open spec fn approaching(b: Bus, poles: Seq<Pole>, routes: Seq<RoutePattern>) -> bool {
    match (
        first_index(poles, serves_pattern(b.route_pattern@)),
        first_index(routes, pattern_named(b.route_pattern@)),
    ) {
        (Some(p), Some(k)) => match (
            order_index(routes[k].pole_order@, b.to_pole@),
            order_index(routes[k].pole_order@, poles[p].same_as@),
        ) {
            (Some(to_index), Some(target_index)) => to_index <= target_index,
            _ => false,
        },
        _ => false,
    }
}

impl Bus {
    /// The service date of this bus.
    pub fn get_date(&self) -> (r: Date)
        ensures
            r == service_date(*self),
    {
        self.from_pole_time.date
    }

    /// The first stop of `bus_stop` that this bus's route pattern serves.
    pub fn get_pole<'a>(&self, bus_stop: &'a [Pole]) -> (r: Option<&'a Pole>)
        ensures
            match (r, first_index(bus_stop@, serves_pattern(self.route_pattern@))) {
                (Some(p), Some(k)) => *p == bus_stop@[k],
                (None, None) => true,
                _ => false,
            },
    {
        let ghost f = serves_pattern(self.route_pattern@);
        let mut i: usize = 0;
        while i < bus_stop.len()
            invariant
                0 <= i <= bus_stop@.len(),
                f == serves_pattern(self.route_pattern@),
                forall|j: int| 0 <= j < i ==> !f(#[trigger] bus_stop@[j]),
            decreases bus_stop@.len() - i,
        {
            if contains_id(&bus_stop[i].route_pattern, &self.route_pattern) {
                proof {
                    assert(is_first(bus_stop@, f, i as int));
                    lemma_first_index_at(bus_stop@, f, i as int);
                }
                return Some(&bus_stop[i]);
            }
            i += 1;
        }
        proof {
            lemma_first_index_none(bus_stop@, f);
        }
        None
    }

    /// The first route of `routes` whose identifier is this bus's route pattern.
    fn find_route<'a>(&self, routes: &'a [RoutePattern]) -> (r: Option<&'a RoutePattern>)
        ensures
            match (r, first_index(routes@, pattern_named(self.route_pattern@))) {
                (Some(rp), Some(k)) => *rp == routes@[k],
                (None, None) => true,
                _ => false,
            },
    {
        let ghost f = pattern_named(self.route_pattern@);
        let mut i: usize = 0;
        while i < routes.len()
            invariant
                0 <= i <= routes@.len(),
                f == pattern_named(self.route_pattern@),
                forall|j: int| 0 <= j < i ==> !f(#[trigger] routes@[j]),
            decreases routes@.len() - i,
        {
            if routes[i].same_as == self.route_pattern {
                proof {
                    assert(is_first(routes@, f, i as int));
                    lemma_first_index_at(routes@, f, i as int);
                }
                return Some(&routes[i]);
            }
            i += 1;
        }
        proof {
            lemma_first_index_none(routes@, f);
        }
        None
    }

    /// Whether this bus has not yet passed its target stop among `poles`.
    pub fn is_approaching(&self, poles: &[Pole], routes: &[RoutePattern]) -> (r: bool)
        ensures
            r == approaching(*self, poles@, routes@),
    {
        let pole = match self.get_pole(poles) {
            Some(p) => p,
            None => return false,
        };
        let route = match self.find_route(routes) {
            Some(rp) => rp,
            None => return false,
        };
        let to_index = route.index_of(&self.to_pole);
        let target_index = route.index_of(&pole.same_as);
        match (to_index, target_index) {
            (Some(t), Some(g)) => t <= g,
            _ => false,
        }
    }
}

/// The buses of `bus` that have not yet passed their target stop, in their given
/// order.
pub fn get_approaching_bus<'a>(bus: &'a [Bus], poles: &[Pole], routes: &[RoutePattern]) -> (r: Vec<
    &'a Bus,
>)
    ensures
        r@.map_values(|b: &Bus| *b) == bus@.filter(|b: Bus| approaching(b, poles@, routes@)),
{
    let ghost keep = |b: Bus| approaching(b, poles@, routes@);
    let mut out: Vec<&'a Bus> = Vec::new();
    let mut i: usize = 0;
    while i < bus.len()
        invariant
            0 <= i <= bus@.len(),
            keep == (|b: Bus| approaching(b, poles@, routes@)),
            out@.map_values(|b: &Bus| *b) == bus@.subrange(0, i as int).filter(keep),
        decreases bus@.len() - i,
    {
        let b = &bus[i];
        let ghost before = out@.map_values(|b: &Bus| *b);
        if b.is_approaching(poles, routes) {
            out.push(b);
            proof {
                assert(out@.map_values(|b: &Bus| *b) =~= before.push(*b));
            }
        }
        proof {
            let s = bus@.subrange(0, i + 1);
            assert(s.drop_last() == bus@.subrange(0, i as int));
            assert(s.last() == bus@[i as int]);
            reveal(Seq::filter);
        }
        i += 1;
    }
    proof {
        assert(bus@.subrange(0, bus@.len() as int) == bus@);
    }
    out
}

/// A bus whose route pattern is not among `routes` is never reported as approaching.
pub proof fn lemma_unknown_pattern_excluded(
    buses: Seq<Bus>,
    poles: Seq<Pole>,
    routes: Seq<RoutePattern>,
    b: Bus,
)
    requires
        forall|k: int| 0 <= k < routes.len() ==> (#[trigger] routes[k]).same_as@ != b.route_pattern@,
    ensures
        !buses.filter(|x: Bus| approaching(x, poles, routes)).contains(b),
{
    lemma_first_index_none(routes, pattern_named(b.route_pattern@));
    let kept = buses.filter(|x: Bus| approaching(x, poles, routes));
    if kept.contains(b) {
        let i = choose|i: int| 0 <= i < kept.len() && kept[i] == b;
        buses.lemma_filter_pred(|x: Bus| approaching(x, poles, routes), i);
    }
}

/// The service dates of `buses`, each once, in order of first appearance.
pub(crate) fn service_dates_of(buses: &[Bus]) -> (r: Vec<Date>)
    ensures
        r@.to_set() == service_dates(buses@),
        r@.no_duplicates(),
{
    let mut out: Vec<Date> = Vec::new();
    let mut i: usize = 0;
    while i < buses.len()
        invariant
            0 <= i <= buses@.len(),
            out@.no_duplicates(),
            out@.to_set() == service_dates(buses@.subrange(0, i as int)),
        decreases buses@.len() - i,
    {
        let d = buses[i].get_date();
        let mut seen = false;
        let mut j: usize = 0;
        while j < out.len()
            invariant
                0 <= j <= out@.len(),
                seen == (exists|m: int| 0 <= m < j && out@[m] == d),
            decreases out@.len() - j,
        {
            if out[j] == d {
                seen = true;
            }
            j += 1;
        }
        let ghost before = out@;
        if !seen {
            out.push(d);
            proof {
                assert forall|a: int, b: int| 0 <= a < b < out@.len() implies out@[a] != out@[b] by {
                    if b == out@.len() - 1 {
                        assert(before[a] != d);
                    }
                }
            }
        }
        proof {
            let next = buses@.subrange(0, i + 1);
            assert(next.map_values(|b: Bus| service_date(b)) =~= buses@.subrange(
                0,
                i as int,
            ).map_values(|b: Bus| service_date(b)).push(d));
            let prev = buses@.subrange(0, i as int).map_values(|b: Bus| service_date(b));
            prev.lemma_push_to_set_commute(d);
            if seen {
                assert(before.contains(d));
                assert(before.to_set().insert(d) =~= before.to_set());
            } else {
                before.lemma_push_to_set_commute(d);
            }
            assert(out@.to_set() =~= before.to_set().insert(d));
        }
        i += 1;
    }
    proof {
        assert(buses@.subrange(0, buses@.len() as int) == buses@);
    }
    out
}

/// The service dates of `bus_list`, each once.
pub fn get_date_set(bus_list: Vec<Bus>) -> (r: Vec<Date>)
    ensures
        r@.to_set() == service_dates(bus_list@),
        r@.no_duplicates(),
{
    service_dates_of(bus_list.as_slice())
}

} // verus!
