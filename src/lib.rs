use vstd::prelude::*;

use crate::model::route_pattern::{pole_index, RoutePattern};

pub mod model;
pub mod query;
pub mod search;

verus! {

/// A bus stop sign, as the data source describes it.
#[derive(Clone, Debug)]
pub struct Pole {
    pub name: String,
    pub kana: String,
    /// Longitude in decimal text.
    pub longitude: Option<String>,
    /// Latitude in decimal text.
    pub latitude: Option<String>,
    /// The route patterns that serve this stop.
    pub route_pattern: Vec<String>,
    pub operator: Vec<String>,
    pub pole_number: String,
    pub timetable: Option<Vec<String>>,
    pub same_as: String,
    pub note: Option<String>,
    /// The title record, as JSON text.
    pub title: Option<String>,
}

/// One stop of a route pattern and its index along the route. The index is absent
/// when the source gave a value that is not an integer.
#[derive(Clone, Debug)]
pub struct PoleOrder {
    pub pole: String,
    pub index: Option<i64>,
    pub note: Option<String>,
}

/// Every route pattern that serves some stop of `poles`.
pub open spec fn routes_of(poles: Seq<Pole>) -> Set<Seq<char>> {
    Set::new(
        |r: Seq<char>|
            exists|i: int, j: int|
                #![trigger poles[i].route_pattern@[j]]
                0 <= i < poles.len() && 0 <= j < poles[i].route_pattern@.len()
                    && poles[i].route_pattern@[j]@ == r,
    )
}

/// The route patterns that serve both stop groups.
pub open spec fn common_routes(from: Seq<Pole>, to: Seq<Pole>) -> Set<Seq<char>> {
    routes_of(from).intersect(routes_of(to))
}

/// The text of each identifier of `ids`.
pub open spec fn id_texts(ids: Seq<String>) -> Seq<Seq<char>> {
    ids.map_values(|s: String| s@)
}

/// The route pattern `r` occurs among the first `i` stops of `poles`, or among the
/// first `j` patterns of the stop at position `i`.
spec fn seen_route(poles: Seq<Pole>, i: int, j: int, r: Seq<char>) -> bool {
    exists|a: int, b: int|
        #![trigger poles[a].route_pattern@[b]]
        0 <= a < poles.len() && 0 <= b < poles[a].route_pattern@.len() && (a < i || (a == i
            && b < j)) && poles[a].route_pattern@[b]@ == r
}

fn serves_route(poles: &Vec<Pole>, id: &String) -> (r: bool)
    ensures
        r == routes_of(poles@).contains(id@),
{
    let mut i: usize = 0;
    while i < poles.len()
        invariant
            0 <= i <= poles@.len(),
            forall|a: int, b: int|
                #![trigger poles@[a].route_pattern@[b]]
                0 <= a < i && 0 <= b < poles@[a].route_pattern@.len()
                    ==> poles@[a].route_pattern@[b]@ != id@,
        decreases poles@.len() - i,
    {
        let ids = &poles[i].route_pattern;
        let mut j: usize = 0;
        while j < ids.len()
            invariant
                0 <= i < poles@.len(),
                0 <= j <= ids@.len(),
                ids@ == poles@[i as int].route_pattern@,
                forall|a: int, b: int|
                    #![trigger poles@[a].route_pattern@[b]]
                    0 <= a < i && 0 <= b < poles@[a].route_pattern@.len()
                        ==> poles@[a].route_pattern@[b]@ != id@,
                forall|b: int| 0 <= b < j ==> (#[trigger] ids@[b])@ != id@,
            decreases ids@.len() - j,
        {
            if ids[j] == *id {
                proof {
                    assert(poles@[i as int].route_pattern@[j as int]@ == id@);
                }
                return true;
            }
            j += 1;
        }
        i += 1;
    }
    proof {
        if routes_of(poles@).contains(id@) {
            let (a, b) = choose|a: int, b: int|
                #![trigger poles@[a].route_pattern@[b]]
                0 <= a < poles@.len() && 0 <= b < poles@[a].route_pattern@.len()
                    && poles@[a].route_pattern@[b]@ == id@;
            assert(poles@[a].route_pattern@[b]@ != id@);
        }
    }
    false
}

pub(crate) fn contains_id(ids: &Vec<String>, id: &String) -> (r: bool)
    ensures
        r == id_texts(ids@).contains(id@),
{
    let mut i: usize = 0;
    while i < ids.len()
        invariant
            0 <= i <= ids@.len(),
            forall|j: int| 0 <= j < i ==> (#[trigger] ids@[j])@ != id@,
        decreases ids@.len() - i,
    {
        if ids[i] == *id {
            proof {
                assert(id_texts(ids@)[i as int] == id@);
            }
            return true;
        }
        i += 1;
    }
    proof {
        if id_texts(ids@).contains(id@) {
            let k = choose|k: int| 0 <= k < id_texts(ids@).len() && id_texts(ids@)[k] == id@;
            assert(ids@[k]@ == id@);
        }
    }
    false
}

/// The route patterns that serve some stop of `from` and some stop of `to`, each
/// once, in no particular order.
pub fn get_common_route(from: &Vec<Pole>, to: &Vec<Pole>) -> (r: Vec<String>)
    ensures
        id_texts(r@).to_set() == common_routes(from@, to@),
        id_texts(r@).no_duplicates(),
{
    let mut out: Vec<String> = Vec::new();
    let mut i: usize = 0;
    while i < from.len()
        invariant
            0 <= i <= from@.len(),
            id_texts(out@).no_duplicates(),
            forall|r: Seq<char>|
                id_texts(out@).contains(r) <==> (seen_route(from@, i as int, 0, r)
                    && routes_of(to@).contains(r)),
        decreases from@.len() - i,
    {
        let ids = &from[i].route_pattern;
        let mut j: usize = 0;
        while j < ids.len()
            invariant
                0 <= i < from@.len(),
                0 <= j <= ids@.len(),
                ids@ == from@[i as int].route_pattern@,
                id_texts(out@).no_duplicates(),
                forall|r: Seq<char>|
                    id_texts(out@).contains(r) <==> (seen_route(from@, i as int, j as int, r)
                        && routes_of(to@).contains(r)),
            decreases ids@.len() - j,
        {
            let id = &ids[j];
            let ghost before = id_texts(out@);
            if serves_route(to, id) && !contains_id(&out, id) {
                out.push(id.clone());
                proof {
                    assert(id_texts(out@) =~= before.push(id@));
                    assert forall|r: Seq<char>|
                        id_texts(out@).contains(r) <==> (before.contains(r) || r == id@) by {
                        if before.contains(r) {
                            let k = choose|k: int| 0 <= k < before.len() && before[k] == r;
                            assert(id_texts(out@)[k] == r);
                        }
                        if r == id@ {
                            assert(id_texts(out@)[before.len() as int] == r);
                        }
                    }
                }
            }
            proof {
                assert forall|r: Seq<char>|
                    id_texts(out@).contains(r) <==> (before.contains(r) || (r == id@
                        && routes_of(to@).contains(r))) by {}
            }
            proof {
                assert forall|r: Seq<char>|
                    seen_route(from@, i as int, j + 1, r) <==> (seen_route(
                        from@,
                        i as int,
                        j as int,
                        r,
                    ) || r == ids@[j as int]@) by {
                    if r == ids@[j as int]@ {
                        assert(from@[i as int].route_pattern@[j as int]@ == r);
                    }
                }
                assert forall|r: Seq<char>|
                    id_texts(out@).contains(r) <==> (seen_route(from@, i as int, j + 1, r)
                        && routes_of(to@).contains(r)) by {
                    assert(id_texts(out@).contains(r) <==> (before.contains(r) || (r == id@
                        && routes_of(to@).contains(r))));
                    assert(before.contains(r) <==> (seen_route(from@, i as int, j as int, r)
                        && routes_of(to@).contains(r)));
                }
            }
            j += 1;
        }
        proof {
            assert forall|r: Seq<char>|
                seen_route(from@, i + 1, 0, r) <==> seen_route(
                    from@,
                    i as int,
                    ids@.len() as int,
                    r,
                ) by {
                if seen_route(from@, i + 1, 0, r) {
                    let (a, b) = choose|a: int, b: int|
                        #![trigger from@[a].route_pattern@[b]]
                        0 <= a < from@.len() && 0 <= b < from@[a].route_pattern@.len() && (a
                            < i + 1 || (a == i + 1 && b < 0))
                            && from@[a].route_pattern@[b]@ == r;
                    assert(from@[a].route_pattern@[b]@ == r);
                }
            }
        }
        i += 1;
    }
    proof {
        assert forall|r: Seq<char>| routes_of(from@).contains(r) implies seen_route(
            from@,
            from@.len() as int,
            0,
            r,
        ) by {
            let (a, b) = choose|a: int, b: int|
                #![trigger from@[a].route_pattern@[b]]
                0 <= a < from@.len() && 0 <= b < from@[a].route_pattern@.len()
                    && from@[a].route_pattern@[b]@ == r;
            assert(from@[a].route_pattern@[b]@ == r);
        }
        assert(id_texts(out@).to_set() =~= common_routes(from@, to@));
    }
    out
}

/// Stop groups that no route pattern serves in common share no route.
pub proof fn lemma_disjoint_stops_share_no_route(from: Seq<Pole>, to: Seq<Pole>)
    requires
        routes_of(from).disjoint(routes_of(to)),
    ensures
        common_routes(from, to) == Set::<Seq<char>>::empty(),
{
    assert(common_routes(from, to) =~= Set::<Seq<char>>::empty());
}

/// The routes common to two stop groups do not depend on which group comes first.
pub proof fn lemma_common_routes_commute(a: Seq<Pole>, b: Seq<Pole>)
    ensures
        common_routes(a, b) == common_routes(b, a),
{
    assert(common_routes(a, b) =~= common_routes(b, a));
}

/// The route goes from a stop of `from` to a stop of `to`: both resolve on it, and
/// the origin's index is below the destination's.
pub open spec fn heads_toward(route: RoutePattern, from: Seq<Pole>, to: Seq<Pole>) -> bool {
    match (pole_index(route.pole_order@, from), pole_index(route.pole_order@, to)) {
        (Some(a), Some(b)) => a < b,
        _ => false,
    }
}

/// The routes that run from a stop of `from` to a stop of `to`, in their given order.
pub fn get_route_for_destination<'a>(
    routes: &'a Vec<RoutePattern>,
    from: &Vec<Pole>,
    to: &Vec<Pole>,
) -> (r: Vec<&'a RoutePattern>)
    ensures
        r@.map_values(|rp: &RoutePattern| *rp) == routes@.filter(
            |rp: RoutePattern| heads_toward(rp, from@, to@),
        ),
{
    let ghost keep = |rp: RoutePattern| heads_toward(rp, from@, to@);
    let mut out: Vec<&'a RoutePattern> = Vec::new();
    let mut i: usize = 0;
    while i < routes.len()
        invariant
            0 <= i <= routes@.len(),
            keep == (|rp: RoutePattern| heads_toward(rp, from@, to@)),
            out@.map_values(|rp: &RoutePattern| *rp) == routes@.subrange(0, i as int).filter(keep),
        decreases routes@.len() - i,
    {
        let route = &routes[i];
        let from_index = route.get_pole_index(from.as_slice());
        let to_index = route.get_pole_index(to.as_slice());
        let ahead = match (from_index, to_index) {
            (Some(a), Some(b)) => a < b,
            _ => false,
        };
        let ghost before = out@.map_values(|rp: &RoutePattern| *rp);
        if ahead {
            out.push(route);
            proof {
                assert(out@.map_values(|rp: &RoutePattern| *rp) =~= before.push(*route));
            }
        }
        proof {
            let s = routes@.subrange(0, i + 1);
            assert(s.drop_last() == routes@.subrange(0, i as int));
            assert(s.last() == routes@[i as int]);
            reveal(Seq::filter);
        }
        i += 1;
    }
    proof {
        assert(routes@.subrange(0, routes@.len() as int) == routes@);
    }
    out
}

/// Every route kept by the direction filter resolves both stop groups, and the
/// origin's index is below the destination's.
pub proof fn lemma_kept_routes_run_forward(
    routes: Seq<RoutePattern>,
    from: Seq<Pole>,
    to: Seq<Pole>,
    i: int,
)
    requires
        0 <= i < routes.filter(|rp: RoutePattern| heads_toward(rp, from, to)).len(),
    ensures
        ({
            let rp = routes.filter(|rp: RoutePattern| heads_toward(rp, from, to))[i];
            &&& pole_index(rp.pole_order@, from) is Some
            &&& pole_index(rp.pole_order@, to) is Some
            &&& pole_index(rp.pole_order@, from).unwrap() < pole_index(
                rp.pole_order@,
                to,
            ).unwrap()
        }),
{
    routes.lemma_filter_pred(|rp: RoutePattern| heads_toward(rp, from, to), i);
}

} // verus!
