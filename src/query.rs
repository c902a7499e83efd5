use vstd::prelude::*;

use crate::model::bus::Bus;
use crate::model::calendar::Calendar;
use crate::model::route_pattern::RoutePattern;
use crate::Pole;

verus! {

/// `parts` written one after another, with `sep` between each two.
pub open spec fn join_with(parts: Seq<Seq<char>>, sep: Seq<char>) -> Seq<char>
    decreases parts.len(),
{
    if parts.len() == 0 {
        Seq::empty()
    } else if parts.len() == 1 {
        parts[0]
    } else {
        join_with(parts.drop_last(), sep) + sep + parts.last()
    }
}

/// One `key=value` pair of a query string.
pub open spec fn query_pair(p: (String, String)) -> Seq<char> {
    p.0@ + seq!['='] + p.1@
}

/// Relies on String::push_str: the text of `t` is appended to `s`.
#[verifier::external_body]
fn append(s: &mut String, t: &str)
    ensures
        final(s)@ == old(s)@ + t@,
{
    s.push_str(t)
}

proof fn lemma_push_texts(before: Seq<String>, x: String)
    ensures
        before.push(x).map_values(|s: String| s@) == before.map_values(|s: String| s@).push(x@),
{
    assert(before.push(x).map_values(|s: String| s@) =~= before.map_values(|s: String| s@).push(
        x@,
    ));
}

/// `parts` joined with `sep` between each two.
fn join_texts(parts: &[String], sep: &str) -> (r: String)
    ensures
        r@ == join_with(parts@.map_values(|s: String| s@), sep@),
{
    let ghost texts = parts@.map_values(|s: String| s@);
    let mut out = String::new();
    let mut i: usize = 0;
    while i < parts.len()
        invariant
            0 <= i <= parts@.len(),
            texts == parts@.map_values(|s: String| s@),
            out@ == join_with(texts.subrange(0, i as int), sep@),
        decreases parts@.len() - i,
    {
        if i > 0 {
            append(&mut out, sep);
        }
        append(&mut out, parts[i].as_str());
        proof {
            let next = texts.subrange(0, i + 1);
            assert(next.drop_last() =~= texts.subrange(0, i as int));
            assert(next.last() == parts@[i as int]@);
            if i == 0 {
                assert(out@ =~= next[0]);
            }
        }
        i += 1;
    }
    proof {
        assert(texts.subrange(0, parts@.len() as int) =~= texts);
    }
    out
}

/// The identifiers of `ids`, separated by commas.
pub fn join_ids(ids: &[String]) -> (r: String)
    ensures
        r@ == join_with(ids@.map_values(|s: String| s@), seq![',']),
{
    proof {
        reveal_strlit(",");
        assert(","@ =~= seq![',']);
    }
    join_texts(ids, ",")
}

/// The pairs of `params` written `key=value`, separated by `&`.
pub fn query_string(params: &[(String, String)]) -> (r: String)
    ensures
        r@ == join_with(params@.map_values(|p: (String, String)| query_pair(p)), seq!['&']),
{
    let mut pairs: Vec<String> = Vec::new();
    let mut i: usize = 0;
    proof {
        reveal_strlit("=");
        reveal_strlit("&");
        assert("="@ =~= seq!['=']);
        assert("&"@ =~= seq!['&']);
    }
    while i < params.len()
        invariant
            0 <= i <= params@.len(),
            pairs@.len() == i,
            "="@ == seq!['='],
            pairs@.map_values(|s: String| s@) == params@.subrange(0, i as int).map_values(
                |p: (String, String)| query_pair(p),
            ),
        decreases params@.len() - i,
    {
        let mut pair = params[i].0.clone();
        append(&mut pair, "=");
        append(&mut pair, params[i].1.as_str());
        let ghost before = pairs@;
        pairs.push(pair);
        proof {
            assert forall|k: int| 0 <= k < i implies pairs@[k]@ == query_pair(params@[k]) by {
                assert(before.map_values(|s: String| s@)[k] == params@.subrange(
                    0,
                    i as int,
                ).map_values(|p: (String, String)| query_pair(p))[k]);
                assert(pairs@[k] == before[k]);
            }
            assert(pairs@[i as int]@ == query_pair(params@[i as int]));
            assert(pairs@.map_values(|s: String| s@) =~= params@.subrange(0, i + 1).map_values(
                |p: (String, String)| query_pair(p),
            ));
        }
        i += 1;
    }
    proof {
        assert(params@.subrange(0, params@.len() as int) =~= params@);
    }
    join_texts(pairs.as_slice(), "&")
}

/// The identifiers of `routes`, separated by commas: what the live bus reports are
/// asked for.
pub fn bus_list_param(routes: &[RoutePattern]) -> (r: String)
    ensures
        r@ == join_with(routes@.map_values(|rp: RoutePattern| rp.same_as@), seq![',']),
{
    let mut ids: Vec<String> = Vec::new();
    let mut i: usize = 0;
    while i < routes.len()
        invariant
            0 <= i <= routes@.len(),
            ids@.map_values(|s: String| s@) == routes@.subrange(0, i as int).map_values(
                |rp: RoutePattern| rp.same_as@,
            ),
        decreases routes@.len() - i,
    {
        let ghost old_ids = ids@;
        ids.push(routes[i].same_as.clone());
        proof {
            lemma_push_texts(old_ids, routes@[i as int].same_as);
            assert(routes@.subrange(0, i + 1) =~= routes@.subrange(0, i as int).push(
                routes@[i as int],
            ));
            assert(ids@.map_values(|s: String| s@) =~= routes@.subrange(0, i + 1).map_values(
                |rp: RoutePattern| rp.same_as@,
            ));
        }
        i += 1;
    }
    proof {
        assert(routes@.subrange(0, routes@.len() as int) =~= routes@);
    }
    join_ids(ids.as_slice())
}

/// The stops a timetable request asks for: the last stop of each bus, then each
/// stop of `pole_list`.
pub open spec fn timetable_poles(bus_list: Seq<Bus>, pole_list: Seq<&Pole>) -> Seq<Seq<char>> {
    bus_list.map_values(|b: Bus| b.from_pole@) + pole_list.map_values(|p: &Pole| p.same_as@)
}

/// The three lists, each separated by commas, that a timetable request asks for:
/// the stops, the routes of the buses, and the calendars.
pub fn timetable_params(bus_list: &[Bus], pole_list: &[&Pole], calendars: &[&Calendar]) -> (r: (
    String,
    String,
    String,
))
    ensures
        r.0@ == join_with(timetable_poles(bus_list@, pole_list@), seq![',']),
        r.1@ == join_with(bus_list@.map_values(|b: Bus| b.route@), seq![',']),
        r.2@ == join_with(calendars@.map_values(|c: &Calendar| c.same_as@), seq![',']),
{
    let mut poles: Vec<String> = Vec::new();
    let mut routes: Vec<String> = Vec::new();
    let mut i: usize = 0;
    while i < bus_list.len()
        invariant
            0 <= i <= bus_list@.len(),
            poles@.map_values(|s: String| s@) == bus_list@.subrange(0, i as int).map_values(
                |b: Bus| b.from_pole@,
            ),
            routes@.map_values(|s: String| s@) == bus_list@.subrange(0, i as int).map_values(
                |b: Bus| b.route@,
            ),
        decreases bus_list@.len() - i,
    {
        let ghost (old_poles, old_routes) = (poles@, routes@);
        poles.push(bus_list[i].from_pole.clone());
        routes.push(bus_list[i].route.clone());
        proof {
            lemma_push_texts(old_poles, bus_list@[i as int].from_pole);
            lemma_push_texts(old_routes, bus_list@[i as int].route);
            assert(bus_list@.subrange(0, i + 1) =~= bus_list@.subrange(0, i as int).push(
                bus_list@[i as int],
            ));
            assert(poles@.map_values(|s: String| s@) =~= bus_list@.subrange(0, i + 1).map_values(
                |b: Bus| b.from_pole@,
            ));
            assert(routes@.map_values(|s: String| s@) =~= bus_list@.subrange(0, i + 1).map_values(
                |b: Bus| b.route@,
            ));
        }
        i += 1;
    }
    proof {
        assert(bus_list@.subrange(0, bus_list@.len() as int) =~= bus_list@);
    }
    let ghost from_buses = poles@.map_values(|s: String| s@);
    let mut j: usize = 0;
    while j < pole_list.len()
        invariant
            0 <= j <= pole_list@.len(),
            from_buses == bus_list@.map_values(|b: Bus| b.from_pole@),
            poles@.map_values(|s: String| s@) == from_buses + pole_list@.subrange(
                0,
                j as int,
            ).map_values(|p: &Pole| p.same_as@),
        decreases pole_list@.len() - j,
    {
        let ghost old_poles = poles@;
        poles.push(pole_list[j].same_as.clone());
        proof {
            lemma_push_texts(old_poles, pole_list@[j as int].same_as);
            assert(pole_list@.subrange(0, j + 1) =~= pole_list@.subrange(0, j as int).push(
                pole_list@[j as int],
            ));
            assert(poles@.map_values(|s: String| s@) =~= from_buses + pole_list@.subrange(
                0,
                j + 1,
            ).map_values(|p: &Pole| p.same_as@));
        }
        j += 1;
    }
    proof {
        assert(pole_list@.subrange(0, pole_list@.len() as int) =~= pole_list@);
    }
    let mut cals: Vec<String> = Vec::new();
    let mut k: usize = 0;
    while k < calendars.len()
        invariant
            0 <= k <= calendars@.len(),
            cals@.map_values(|s: String| s@) == calendars@.subrange(0, k as int).map_values(
                |c: &Calendar| c.same_as@,
            ),
        decreases calendars@.len() - k,
    {
        let ghost old_cals = cals@;
        cals.push(calendars[k].same_as.clone());
        proof {
            lemma_push_texts(old_cals, calendars@[k as int].same_as);
            assert(calendars@.subrange(0, k + 1) =~= calendars@.subrange(0, k as int).push(
                calendars@[k as int],
            ));
            assert(cals@.map_values(|s: String| s@) =~= calendars@.subrange(0, k + 1).map_values(
                |c: &Calendar| c.same_as@,
            ));
        }
        k += 1;
    }
    proof {
        assert(calendars@.subrange(0, calendars@.len() as int) =~= calendars@);
    }
    (join_ids(poles.as_slice()), join_ids(routes.as_slice()), join_ids(cals.as_slice()))
}

} // verus!
