use vstd::prelude::*;

verus! {

/// Whether `route` passes twice from one node to the same next node.
pub open spec fn revisits<T>(route: Seq<T>) -> bool {
    exists|i: int, j: int|
        1 <= i < j < route.len() && route[i - 1] == route[j - 1] && #[trigger] route[i]
            == #[trigger] route[j]
}

/// Whether `route` passes somewhere from `from` to `to`.
pub open spec fn passes<T>(route: Seq<T>, from: T, to: T) -> bool {
    exists|i: int| 1 <= i < route.len() && route[i - 1] == from && #[trigger] route[i] == to
}

/// A route that begins with one that passes a connection twice does so too.
pub proof fn lemma_revisits_prefix<T>(shorter: Seq<T>, longer: Seq<T>)
    requires
        shorter.is_prefix_of(longer),
        revisits(shorter),
    ensures
        revisits(longer),
{
    let (i, j) = choose|i: int, j: int|
        1 <= i < j < shorter.len() && shorter[i - 1] == shorter[j - 1] && #[trigger] shorter[i]
            == #[trigger] shorter[j];
    let cut = longer.subrange(0, shorter.len() as int);
    assert(cut[i - 1] == longer[i - 1] && cut[j - 1] == longer[j - 1] && cut[i] == longer[i] && cut[j]
        == longer[j]);
    assert(longer[i - 1] == longer[j - 1] && longer[i] == longer[j]);
}

/// A route grown by a node passes a connection twice if it did before, or if
/// it has passed before from its last node to the new one.
pub proof fn lemma_revisits_push<T>(route: Seq<T>, next: T)
    requires
        route.len() >= 1,
    ensures
        revisits(route.push(next)) == (revisits(route) || passes(route, route.last(), next)),
{
    let n = route.len() as int;
    let longer = route.push(next);
    if revisits(route) {
        assert(route =~= longer.subrange(0, n));
        lemma_revisits_prefix(route, longer);
    }
    if passes(route, route.last(), next) {
        let i = choose|i: int|
            1 <= i < route.len() && route[i - 1] == route.last() && #[trigger] route[i] == next;
        assert(longer[i - 1] == longer[n - 1] && longer[i] == longer[n]);
    }
    if revisits(longer) {
        let (i, j) = choose|i: int, j: int|
            1 <= i < j < longer.len() && longer[i - 1] == longer[j - 1] && #[trigger] longer[i]
                == #[trigger] longer[j];
        if j < n {
            assert(route[i - 1] == route[j - 1] && route[i] == route[j]);
        } else {
            assert(route[i - 1] == route.last() && route[i] == next);
        }
    }
}

/// The number that stands for the step from the node with the number `a`
/// to the node with the number `b` among `n` nodes.
pub open spec fn pair_code(a: int, b: int, n: int) -> int {
    a * n + b
}

proof fn lemma_pair_code(a: int, b: int, c: int, d: int, n: int)
    requires
        0 <= a < n,
        0 <= b < n,
        0 <= c < n,
        0 <= d < n,
    ensures
        0 <= pair_code(a, b, n) < n * n,
        pair_code(a, b, n) == pair_code(c, d, n) ==> a == c && b == d,
{
    assert(0 <= a * n + b < n * n) by (nonlinear_arith)
        requires
            0 <= a < n,
            0 <= b < n,
    ;
    assert(a * n + b == c * n + d ==> a == c && b == d) by (nonlinear_arith)
        requires
            0 <= a < n,
            0 <= b < n,
            0 <= c < n,
            0 <= d < n,
    ;
}

/// A route among `n` nodes that passes no connection twice in the same
/// direction has at most `n * n` steps. The nodes are told apart by their
/// numbers, which `number` gives.
pub proof fn lemma_route_length<T>(route: Seq<T>, number: spec_fn(T) -> int, n: int)
    requires
        route.len() >= 1,
        !revisits(route),
        forall|k: int| 0 <= k < route.len() ==> 0 <= #[trigger] number(route[k]) < n,
        forall|a: T, b: T| #[trigger] number(a) == #[trigger] number(b) ==> a == b,
    ensures
        route.len() - 1 <= n * n,
{
    let codes = Seq::new(
        (route.len() - 1) as nat,
        |i: int| pair_code(number(route[i]), number(route[i + 1]), n),
    );
    assert forall|i: int, j: int| 0 <= i < codes.len() && 0 <= j < codes.len() && i != j implies codes[i]
        != codes[j] by {
        lemma_pair_code(
            number(route[i]),
            number(route[i + 1]),
            number(route[j]),
            number(route[j + 1]),
            n,
        );
        if codes[i] == codes[j] {
            if i < j {
                assert(route[(i + 1) - 1] == route[(j + 1) - 1] && route[i + 1] == route[j + 1]);
            } else {
                assert(route[(j + 1) - 1] == route[(i + 1) - 1] && route[j + 1] == route[i + 1]);
            }
            assert(revisits(route));
        }
    }
    assert(codes.no_duplicates());
    codes.unique_seq_to_set();
    assert(0 <= n * n) by (nonlinear_arith);
    vstd::set_lib::lemma_int_range(0, n * n);
    assert(codes.to_set().subset_of(vstd::set_lib::set_int_range(0, n * n))) by {
        assert forall|c: int| codes.to_set().contains(c) implies vstd::set_lib::set_int_range(
            0,
            n * n,
        ).contains(c) by {
            let i = choose|i: int| 0 <= i < codes.len() && codes[i] == c;
            lemma_pair_code(
                number(route[i]),
                number(route[i + 1]),
                number(route[i]),
                number(route[i + 1]),
                n,
            );
        }
    }
    vstd::set_lib::lemma_len_subset(codes.to_set(), vstd::set_lib::set_int_range(0, n * n));
}

/// Three to the power of `e`.
pub open spec fn pow3(e: nat) -> nat
    decreases e,
{
    if e == 0 {
        1
    } else {
        3 * pow3((e - 1) as nat)
    }
}

/// The work that a list of unfinished routes stands for, where no route
/// can grow beyond `bound` nodes: every route counts three times as much as one
/// that is longer by a node, so that replacing a route by two longer ones
/// lowers the sum.
pub open spec fn work<T>(list: Seq<Vec<T>>, bound: int) -> nat
    decreases list.len(),
{
    if list.len() == 0 {
        0
    } else {
        work(list.drop_last(), bound) + weight(list.last()@, bound)
    }
}

/// The share of one route in [`work`]; a route without nodes has none.
pub open spec fn weight<T>(route: Seq<T>, bound: int) -> nat {
    if 0 < route.len() <= bound {
        pow3((bound - route.len()) as nat)
    } else {
        0
    }
}

pub proof fn lemma_work_push<T>(list: Seq<Vec<T>>, route: Vec<T>, bound: int)
    ensures
        work(list.push(route), bound) == work(list, bound) + weight(route@, bound),
{
    assert(list.push(route).drop_last() == list);
}

pub proof fn lemma_work_pop<T>(list: Seq<Vec<T>>, bound: int)
    requires
        list.len() > 0,
    ensures
        work(list, bound) == weight(list[0]@, bound) + work(list.subrange(1, list.len() as int), bound),
    decreases list.len(),
{
    let rest = list.subrange(1, list.len() as int);
    if list.len() == 1 {
        assert(work(list.drop_last(), bound) == 0);
        assert(work(rest, bound) == 0);
        assert(list.last() == list[0]);
    } else {
        lemma_work_pop(list.drop_last(), bound);
        assert(list.drop_last().subrange(1, list.len() - 1) == rest.drop_last());
        assert(rest.last() == list.last());
        assert(list.drop_last()[0] == list[0]);
        assert(work(rest, bound) == work(rest.drop_last(), bound) + weight(rest.last()@, bound));
    }
}

pub proof fn lemma_pow3_positive(e: nat)
    ensures
        pow3(e) >= 1,
    decreases e,
{
    if e > 0 {
        lemma_pow3_positive((e - 1) as nat);
    }
}

} // verus!
