//! The route listing of a set of page files: their routes without the
//! reserved ones, sorted, each once.

use vstd::prelude::*;
use crate::route::{file_to_url_path, is_reserved, is_reserved_route, route_of};
use crate::route::lemma_route_starts_with_slash;
use crate::text::{less_than, lex_le, lex_lt, same_text, texts};
use crate::text::{lemma_lex_lt_transitive, lemma_lex_lt_trichotomy};

verus! {

/// Every entry sorts strictly before every later one: sorted, and nothing twice.
pub open spec fn strictly_sorted(routes: Seq<Seq<char>>) -> bool {
    forall|j: int, k: int| 0 <= j < k < routes.len() ==> lex_lt(#[trigger] routes[j], #[trigger] routes[k])
}

/// `route` is the route of one of `files` and is not reserved.
pub open spec fn listed(files: Seq<Seq<char>>, route: Seq<char>) -> bool {
    &&& !is_reserved(route)
    &&& exists|i: int| 0 <= i < files.len() && route_of(#[trigger] files[i]) == route
}

/// `routes` is the route listing of `files`: strictly sorted, and holding
/// exactly the routes of the files that are not reserved.
pub open spec fn is_listing(files: Seq<Seq<char>>, routes: Seq<Seq<char>>) -> bool {
    &&& strictly_sorted(routes)
    &&& forall|r: Seq<char>| #[trigger] routes.contains(r) <==> listed(files, r)
}

/// One more file adds its route, unless reserved, to what is listed.
proof fn lemma_listed_step(files: Seq<Seq<char>>, n: int, route: Seq<char>)
    requires
        0 <= n < files.len(),
    ensures
        listed(files.take(n + 1), route) <==> (listed(files.take(n), route) || (route == route_of(
            files[n],
        ) && !is_reserved(route))),
{
    let shorter = files.take(n);
    let longer = files.take(n + 1);
    if listed(shorter, route) {
        let i = choose|i: int| 0 <= i < shorter.len() && route_of(#[trigger] shorter[i]) == route;
        assert(longer[i] == shorter[i]);
    }
    if route == route_of(files[n]) {
        assert(longer[n] == files[n]);
    }
    if listed(longer, route) {
        let i = choose|i: int| 0 <= i < longer.len() && route_of(#[trigger] longer[i]) == route;
        if i < n {
            assert(shorter[i] == longer[i]);
        }
    }
}

/// Puts `route` at its place in a strictly sorted vector, unless it is there already.
fn insert_sorted(routes: &mut Vec<String>, route: String)
    requires
        strictly_sorted(texts(old(routes)@)),
    ensures
        strictly_sorted(texts(final(routes)@)),
        forall|r: Seq<char>| #[trigger]
            texts(final(routes)@).contains(r) <==> (texts(old(routes)@).contains(r) || r == route@),
{
    let ghost before = texts(routes@);
    let n: usize = routes.len();
    let mut i: usize = 0;
    while i < n && less_than(routes[i].as_str(), route.as_str())
        invariant
            n == routes.len(),
            i <= n,
            texts(routes@) == before,
            forall|j: int| 0 <= j < i ==> lex_lt(#[trigger] before[j], route@),
        decreases n - i,
    {
        assert(before[i as int] == routes@[i as int]@);
        i += 1;
    }
    if i < n && same_text(routes[i].as_str(), route.as_str()) {
        assert(before[i as int] == route@);
        assert(before.contains(route@));
        return ;
    }
    let ghost added = route@;
    routes.insert(i, route);
    proof {
        let after = texts(routes@);
        assert(after =~= before.insert(i as int, added));
        assert forall|j: int, k: int| 0 <= j < k < after.len() implies lex_lt(
            #[trigger] after[j],
            #[trigger] after[k],
        ) by {
            if k == i {
                assert(after[j] == before[j]);
            } else if j == i {
                assert(after[k] == before[k - 1]);
                assert(before[i as int] == old(routes)@[i as int]@);
                lemma_lex_lt_trichotomy(added, before[i as int]);
                if k - 1 > i {
                    lemma_lex_lt_transitive(added, before[i as int], before[k - 1]);
                }
            } else {
                let oj = if j < i { j } else { j - 1 };
                let ok = if k < i { k } else { k - 1 };
                assert(after[j] == before[oj] && after[k] == before[ok]);
            }
        }
        assert forall|r: Seq<char>| #[trigger]
            after.contains(r) <==> (before.contains(r) || r == added) by {
            if after.contains(r) {
                let k = choose|k: int| 0 <= k < after.len() && after[k] == r;
                if k < i {
                    assert(before[k] == r);
                } else if k > i {
                    assert(before[k - 1] == r);
                }
            }
            if before.contains(r) {
                let k = choose|k: int| 0 <= k < before.len() && before[k] == r;
                if k < i {
                    assert(after[k] == r);
                } else {
                    assert(after[k + 1] == r);
                }
            }
            if r == added {
                assert(after[i as int] == r);
            }
        }
    }
}

/// The route listing of `files`: the route of every file, without the
/// reserved routes, in code-point lexicographic order, each route once.
pub fn generate_page_routes(files: Vec<String>) -> (routes: Vec<String>)
    ensures
        is_listing(texts(files@), texts(routes@)),
        forall|i: int| 0 <= i < routes.len() ==> !is_reserved(#[trigger] routes[i]@),
        forall|i: int| 0 <= i < routes.len() ==> (#[trigger] routes[i]@).len() > 0 && routes[i]@[0] == '/',
        forall|i: int| 0 <= i < routes.len() - 1 ==> lex_le(#[trigger] routes[i]@, routes[i + 1]@),
        forall|i: int, j: int| 0 <= i < j < routes.len() ==> routes[i]@ != routes[j]@,
{
    let ghost inputs = texts(files@);
    let mut routes: Vec<String> = Vec::new();
    let n: usize = files.len();
    let mut i: usize = 0;
    assert(texts(routes@) =~= Seq::<Seq<char>>::empty());
    while i < n
        invariant
            n == files.len(),
            i <= n,
            inputs == texts(files@),
            is_listing(inputs.take(i as int), texts(routes@)),
        decreases n - i,
    {
        let route = file_to_url_path(files[i].as_str());
        let ghost before = texts(routes@);
        let ghost added = route@;
        assert(added == route_of(inputs[i as int]));
        assert forall|r: Seq<char>|
            listed(inputs.take(i + 1), r) <==> (listed(inputs.take(i as int), r) || (r == added
                && !is_reserved(r))) by {
            lemma_listed_step(inputs, i as int, r);
        }
        if !is_reserved_route(route.as_str()) {
            insert_sorted(&mut routes, route);
        }
        i += 1;
    }
    proof {
        assert(inputs.take(n as int) =~= inputs);
        lemma_listing_facts(inputs, texts(routes@));
        let out = texts(routes@);
        assert forall|i: int| 0 <= i < routes.len() implies !is_reserved(#[trigger] routes[i]@)
            && routes[i]@.len() > 0 && routes[i]@[0] == '/' by {
            assert(out[i] == routes[i]@);
        }
        assert forall|i: int| 0 <= i < routes.len() - 1 implies lex_le(
            #[trigger] routes[i]@,
            routes[i + 1]@,
        ) by {
            assert(out[i] == routes[i]@ && out[i + 1] == routes[i + 1]@);
        }
        assert forall|i: int, j: int| 0 <= i < j < routes.len() implies routes[i]@ != routes[j]@ by {
            assert(out[i] == routes[i]@ && out[j] == routes[j]@);
        }
    }
    routes
}

/// What holds of every route listing: no entry is reserved, every entry
/// begins with `/`, neighbours are in order, and no two entries are equal.
pub proof fn lemma_listing_facts(files: Seq<Seq<char>>, routes: Seq<Seq<char>>)
    requires
        is_listing(files, routes),
    ensures
        forall|i: int| 0 <= i < routes.len() ==> !is_reserved(#[trigger] routes[i]),
        forall|i: int| 0 <= i < routes.len() ==> (#[trigger] routes[i]).len() > 0 && routes[i][0] == '/',
        forall|i: int| 0 <= i < routes.len() - 1 ==> lex_le(#[trigger] routes[i], routes[i + 1]),
        forall|i: int, j: int| 0 <= i < j < routes.len() ==> routes[i] != routes[j],
{
    assert forall|i: int| 0 <= i < routes.len() implies !is_reserved(#[trigger] routes[i])
        && routes[i].len() > 0 && routes[i][0] == '/' by {
        assert(routes.contains(routes[i]));
        let k = choose|k: int| 0 <= k < files.len() && route_of(#[trigger] files[k]) == routes[i];
        lemma_route_starts_with_slash(files[k]);
    }
    assert forall|i: int, j: int| 0 <= i < j < routes.len() implies routes[i] != routes[j] by {
        lemma_lex_lt_trichotomy(routes[i], routes[j]);
    }
}

/// Two sequences hold the same entries.
pub open spec fn same_entries(x: Seq<Seq<char>>, y: Seq<Seq<char>>) -> bool {
    forall|r: Seq<char>| #[trigger] x.contains(r) <==> y.contains(r)
}

/// In a strictly sorted sequence every entry is at one index only.
pub proof fn lemma_strictly_sorted_no_repeats(routes: Seq<Seq<char>>, i: int, j: int)
    requires
        strictly_sorted(routes),
        0 <= i < routes.len(),
        0 <= j < routes.len(),
        routes[i] == routes[j],
    ensures
        i == j,
{
    lemma_lex_lt_trichotomy(routes[i], routes[j]);
}

/// Strictly sorted sequences with the same entries end in the same entry.
proof fn lemma_same_last(x: Seq<Seq<char>>, y: Seq<Seq<char>>)
    requires
        strictly_sorted(x),
        strictly_sorted(y),
        same_entries(x, y),
        x.len() > 0,
    ensures
        y.len() > 0,
        x.last() == y.last(),
{
    assert(x.contains(x.last()));
    let k = choose|k: int| 0 <= k < y.len() && y[k] == x.last();
    assert(y.contains(y.last()));
    assert(x.contains(y.last()));
    let j = choose|j: int| 0 <= j < x.len() && x[j] == y.last();
    if k < y.len() - 1 {
        assert(lex_lt(y[k], y[y.len() - 1]));
        if j < x.len() - 1 {
            assert(lex_lt(x[j], x[x.len() - 1]));
            lemma_lex_lt_transitive(x.last(), y.last(), x.last());
        }
        lemma_lex_lt_trichotomy(x.last(), x.last());
    }
}

/// Dropping the last entry of both keeps them strictly sorted with the same entries.
proof fn lemma_same_entries_drop_last(x: Seq<Seq<char>>, y: Seq<Seq<char>>)
    requires
        strictly_sorted(x),
        strictly_sorted(y),
        same_entries(x, y),
        x.len() > 0,
        y.len() > 0,
        x.last() == y.last(),
    ensures
        strictly_sorted(x.drop_last()),
        strictly_sorted(y.drop_last()),
        forall|r: Seq<char>| x.drop_last().contains(r) ==> #[trigger] y.drop_last().contains(r),
{
    let xs = x.drop_last();
    let ys = y.drop_last();
    assert forall|j: int, k: int| 0 <= j < k < xs.len() implies lex_lt(
        #[trigger] xs[j],
        #[trigger] xs[k],
    ) by {
        assert(xs[j] == x[j] && xs[k] == x[k]);
    }
    assert forall|j: int, k: int| 0 <= j < k < ys.len() implies lex_lt(
        #[trigger] ys[j],
        #[trigger] ys[k],
    ) by {
        assert(ys[j] == y[j] && ys[k] == y[k]);
    }
    assert forall|r: Seq<char>| xs.contains(r) implies #[trigger] ys.contains(r) by {
        let j = choose|j: int| 0 <= j < xs.len() && xs[j] == r;
        assert(x[j] == r);
        assert(x.contains(r));
        assert(y.contains(r));
        let k = choose|k: int| 0 <= k < y.len() && y[k] == r;
        if k == y.len() - 1 {
            lemma_strictly_sorted_no_repeats(x, j, x.len() - 1);
        }
        assert(ys[k] == r);
    }
}

/// A strictly sorted sequence is determined by its entries.
pub proof fn lemma_strictly_sorted_unique(x: Seq<Seq<char>>, y: Seq<Seq<char>>)
    requires
        strictly_sorted(x),
        strictly_sorted(y),
        same_entries(x, y),
    ensures
        x == y,
    decreases x.len(),
{
    if x.len() == 0 {
        if y.len() > 0 {
            assert(y.contains(y[0]));
            assert(x.contains(y[0]));
        }
        assert(x =~= y);
    } else {
        lemma_same_last(x, y);
        lemma_same_entries_drop_last(x, y);
        lemma_same_entries_drop_last(y, x);
        lemma_strictly_sorted_unique(x.drop_last(), y.drop_last());
        assert(x =~= x.drop_last().push(x.last()));
        assert(y =~= y.drop_last().push(y.last()));
    }
}

/// The files have one route listing and no other.
pub proof fn lemma_listing_unique(files: Seq<Seq<char>>, x: Seq<Seq<char>>, y: Seq<Seq<char>>)
    requires
        is_listing(files, x),
        is_listing(files, y),
    ensures
        x == y,
{
    lemma_strictly_sorted_unique(x, y);
}

/// The listing does not depend on the order of the files, nor on how often
/// one occurs: files with the same routes have the same listing.
pub proof fn lemma_listing_of_same_routes(
    files: Seq<Seq<char>>,
    others: Seq<Seq<char>>,
    x: Seq<Seq<char>>,
    y: Seq<Seq<char>>,
)
    requires
        is_listing(files, x),
        is_listing(others, y),
        forall|r: Seq<char>| listed(files, r) <==> listed(others, r),
    ensures
        x == y,
{
    lemma_strictly_sorted_unique(x, y);
}

/// Two files with one route, not reserved, give one entry: the listing holds
/// that route at exactly one index.
pub proof fn lemma_shared_route_listed_once(
    files: Seq<Seq<char>>,
    routes: Seq<Seq<char>>,
    a: int,
    b: int,
) -> (at: int)
    requires
        is_listing(files, routes),
        0 <= a < files.len(),
        0 <= b < files.len(),
        route_of(files[a]) == route_of(files[b]),
        !is_reserved(route_of(files[a])),
    ensures
        0 <= at < routes.len(),
        routes[at] == route_of(files[a]),
        routes[at] == route_of(files[b]),
        forall|i: int| 0 <= i < routes.len() && routes[i] == route_of(files[a]) ==> i == at,
{
    let route = route_of(files[a]);
    assert(listed(files, route));
    assert(routes.contains(route));
    let at = choose|at: int| 0 <= at < routes.len() && routes[at] == route;
    assert forall|i: int| 0 <= i < routes.len() && routes[i] == route implies i == at by {
        lemma_strictly_sorted_no_repeats(routes, i, at);
    }
    at
}

} // verus!
