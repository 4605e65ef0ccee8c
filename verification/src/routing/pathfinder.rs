use vstd::prelude::*;

use crate::routing::elements::Elements;
use crate::routing::{ElementID, TrainRoute, NO_PREVIOUS_ELEMENT};
use crate::walk::{
    lemma_pow3_positive, lemma_revisits_prefix, lemma_revisits_push, lemma_route_length, passes,
    pow3, revisits, weight,
};
use crate::{Error, Failure};

verus! {

/// Finds a path from one element to another.
pub struct Pathfinder {
    pub inner: InnerPathfinder,
}

/// The paths that a search follows, and which of them is followed now.
pub struct InnerPathfinder {
    pub current_path_index: usize,
    /// The paths that have reached the destination, those that were given
    /// up, which are empty, and, from `current_path_index` on, those that
    /// are still to be followed.
    pub paths: Vec<Vec<ElementID>>,
}

/// The paths of `paths` as sequences of elements.
pub open spec fn views(paths: Seq<Vec<ElementID>>) -> Seq<Seq<ElementID>> {
    Seq::new(paths.len(), |i: int| paths[i]@)
}

/// The element before the last of `path`, or the one that stands for none.
pub open spec fn before_last(path: Seq<ElementID>) -> ElementID {
    if path.len() < 2 {
        ElementID(NO_PREVIOUS_ELEMENT)
    } else {
        path[path.len() - 2]
    }
}

/// `path` grown by each element of `next` that it has not gone on to from
/// its last element before: one longer path for each, in their order.
pub open spec fn grown(path: Seq<ElementID>, next: Seq<ElementID>) -> Seq<Seq<ElementID>>
    decreases next.len(),
{
    if next.len() == 0 {
        Seq::empty()
    } else {
        let first = grown(path, next.drop_last());
        if passes(path, path.last(), next.last()) {
            first
        } else {
            first.push(path.push(next.last()))
        }
    }
}

/// What becomes of `path` when it goes on to the one element `next`: it
/// grows by it, or is given up where it has gone on to it from its last
/// element before.
pub open spec fn extended(path: Seq<ElementID>, next: ElementID) -> Seq<ElementID> {
    if passes(path, path.last(), next) {
        Seq::empty()
    } else {
        path.push(next)
    }
}

/// Whether `path` has gone somewhere from `from` on to `to`.
pub fn went(path: &Vec<ElementID>, from: ElementID, to: ElementID) -> (r: bool)
    ensures
        r == passes(path@, from, to),
{
    let mut i: usize = 1;
    while i < path.len()
        invariant
            1 <= i,
            forall|k: int|
                1 <= k < i && k < path@.len() ==> !(path@[k - 1] == from && #[trigger] path@[k]
                    == to),
        decreases path.len() - i,
    {
        if path[i - 1].0 == from.0 && path[i].0 == to.0 {
            return true;
        }
        i += 1;
    }
    false
}

/// A copy of `path`.
pub fn copy(path: &Vec<ElementID>) -> (r: Vec<ElementID>)
    ensures
        r@ == path@,
{
    let mut all: Vec<ElementID> = Vec::new();
    let mut i: usize = 0;
    while i < path.len()
        invariant
            i <= path.len(),
            all@ == path@.take(i as int),
        decreases path.len() - i,
    {
        all.push(path[i]);
        assert(all@ =~= path@.take(i + 1));
        i += 1;
    }
    assert(path@.take(path@.len() as int) =~= path@);
    all
}

impl InnerPathfinder {
    /// The path that is followed now.
    pub open spec fn path(&self) -> Seq<ElementID> {
        self.paths@[self.current_path_index as int]@
    }

    /// Whether a path is followed now that has an element.
    pub open spec fn ready(&self) -> bool {
        self.current_path_index < self.paths@.len() && self.path().len() > 0
    }

    /// Whether `after` is the pathfinder with `path` in the place of the
    /// path that is followed now, and `more` behind the paths.
    pub open spec fn becomes(
        &self,
        after: Self,
        path: Seq<ElementID>,
        more: Seq<Seq<ElementID>>,
    ) -> bool {
        &&& after.current_path_index == self.current_path_index
        &&& views(after.paths@) == views(self.paths@).update(
            self.current_path_index as int,
            path,
        ) + more
    }

    /// Whether `after` is what the pathfinder becomes when its path goes on
    /// to `elements`: to one element, the path grows by it; to none or to
    /// several, the path is given up, and a copy of it for each of the
    /// elements that has grown by it comes behind the paths. A path never
    /// goes on to an element that it has gone on to from the same element
    /// before.
    pub open spec fn goes_on(&self, elements: Seq<ElementID>, after: Self) -> bool {
        if elements.len() == 1 {
            self.becomes(after, extended(self.path(), elements[0]), Seq::empty())
        } else {
            self.becomes(after, Seq::empty(), grown(self.path(), elements))
        }
    }

    /// Whether `after` is what the pathfinder becomes when its path is given up.
    pub open spec fn gives_up(&self, after: Self) -> bool {
        self.becomes(after, Seq::empty(), Seq::empty())
    }

    /// The element that the next path to follow has reached. Paths that are
    /// empty or have reached `destination` are passed over; `None` if no
    /// other path is left.
    pub fn next(&mut self, destination: ElementID) -> (r: Option<ElementID>)
        requires
            old(self).current_path_index <= old(self).paths@.len(),
        ensures
            final(self).paths == old(self).paths,
            old(self).current_path_index <= final(self).current_path_index,
            final(self).current_path_index <= final(self).paths@.len(),
            forall|i: int|
                old(self).current_path_index <= i < final(self).current_path_index ==> (
                #[trigger] final(self).paths@[i])@.len() == 0 || final(self).paths@[i]@.last()
                    == destination,
            match r {
                Some(last) => final(self).ready() && last == final(self).path().last() && last
                    != destination,
                None => final(self).current_path_index == final(self).paths@.len(),
            },
    {
        while self.current_path_index < self.paths.len()
            invariant
                self.paths == old(self).paths,
                old(self).current_path_index <= self.current_path_index <= self.paths@.len(),
                forall|i: int|
                    old(self).current_path_index <= i < self.current_path_index ==> (
                    #[trigger] self.paths@[i])@.len() == 0 || self.paths@[i]@.last() == destination,
            decreases self.paths@.len() - self.current_path_index,
        {
            let current = &self.paths[self.current_path_index];
            if current.len() > 0 {
                let last = current[current.len() - 1];
                if last.0 == destination.0 {
                    self.current_path_index += 1;
                } else {
                    return Some(last);
                }
            } else {
                self.current_path_index += 1;
            }
        }

        None
    }

    /// The first path that is not empty.
    pub fn result(self) -> (r: Option<Vec<ElementID>>)
        ensures
            match r {
                Some(path) => path@.len() > 0 && exists|i: int|
                    0 <= i < self.paths@.len() && (#[trigger] self.paths@[i])@ == path@ && forall|
                        j: int,
                    | 0 <= j < i ==> (#[trigger] self.paths@[j])@.len() == 0,
                None => forall|i: int|
                    0 <= i < self.paths@.len() ==> (#[trigger] self.paths@[i])@.len() == 0,
            },
    {
        let mut i: usize = 0;
        while i < self.paths.len()
            invariant
                i <= self.paths@.len(),
                forall|j: int| 0 <= j < i ==> (#[trigger] self.paths@[j])@.len() == 0,
            decreases self.paths@.len() - i,
        {
            if self.paths[i].len() > 0 {
                return Some(copy(&self.paths[i]));
            }
            i += 1;
        }
        None
    }

    pub fn current_position(&self) -> (r: ElementID)
        requires
            self.ready(),
        ensures
            r == self.path().last(),
    {
        let current = &self.paths[self.current_path_index];
        current[current.len() - 1]
    }

    pub fn previous_position(&self) -> (r: ElementID)
        requires
            self.ready(),
        ensures
            r == before_last(self.path()),
    {
        let current = &self.paths[self.current_path_index];
        if current.len() < 2 {
            ElementID(NO_PREVIOUS_ELEMENT)
        } else {
            current[current.len() - 2]
        }
    }

    /// Puts `path` in the place of the path that is followed now.
    fn replace(&mut self, path: Vec<ElementID>)
        requires
            old(self).current_path_index < old(self).paths@.len(),
        ensures
            old(self).becomes(*final(self), path@, Seq::empty()),
            final(self).paths@.len() == old(self).paths@.len(),
    {
        self.paths[self.current_path_index] = path;
        assert(views(self.paths@) =~= views(old(self).paths@).update(
            old(self).current_path_index as int,
            path@,
        ) + Seq::<Seq<ElementID>>::empty());
    }

    /// Lets the path that is followed now go on to `elements`.
    pub fn next_elements(&mut self, elements: &[ElementID])
        requires
            old(self).ready(),
        ensures
            old(self).goes_on(elements@, *final(self)),
    {
        let temp = copy(&self.paths[self.current_path_index]);
        let last = temp[temp.len() - 1];
        if elements.len() == 1 {
            if went(&temp, last, elements[0]) {
                self.replace(Vec::new());
            } else {
                let mut longer = temp;
                longer.push(elements[0]);
                self.replace(longer);
            }
        } else {
            self.replace(Vec::new());
            let ghost cleared = views(self.paths@);
            assert(grown(temp@, elements@.take(0)) =~= Seq::empty());
            let mut k: usize = 0;
            while k < elements.len()
                invariant
                    k <= elements.len(),
                    temp@ == old(self).path(),
                    temp@.len() > 0,
                    last == temp@.last(),
                    self.current_path_index == old(self).current_path_index,
                    cleared == views(old(self).paths@).update(
                        old(self).current_path_index as int,
                        Seq::empty(),
                    ),
                    views(self.paths@) == cleared + grown(temp@, elements@.take(k as int)),
                decreases elements.len() - k,
            {
                let e = elements[k];
                let ghost before = views(self.paths@);
                if !went(&temp, last, e) {
                    let mut temp_clone = copy(&temp);
                    temp_clone.push(e);
                    self.paths.push(temp_clone);
                    assert(views(self.paths@) =~= before.push(temp@.push(e)));
                }
                proof {
                    let taken = elements@.take(k + 1);
                    assert(taken.drop_last() =~= elements@.take(k as int));
                    assert(taken.last() == e);
                    assert(views(self.paths@) =~= cleared + grown(temp@, taken));
                }
                k += 1;
            }
            assert(elements@.take(elements@.len() as int) =~= elements@);
        }
    }
}

/// Whether the element at the place `i` has the number `i` and is
/// connected to elements of `elements` only.
pub open spec fn element_ok(elements: Seq<Elements>, i: int) -> bool {
    &&& elements[i].id() == ElementID(i as usize)
    &&& forall|k: int|
        0 <= k < elements[i].neighbours().len() ==> (#[trigger] elements[i].neighbours()[k]).0
            < elements.len()
}

/// Whether each element stands at the place of its number and is connected
/// to elements of `elements` only.
pub open spec fn layout(elements: Seq<Elements>) -> bool {
    forall|i: int| 0 <= i < elements.len() ==> #[trigger] element_ok(elements, i)
}

/// The element before the element `k` of `path`, or the one that stands for none.
pub open spec fn before(path: Seq<ElementID>, k: int) -> ElementID {
    if k <= 0 {
        ElementID(NO_PREVIOUS_ELEMENT)
    } else {
        path[k - 1]
    }
}

/// Whether the element `k` of `path` leads a train that came from the
/// element before to the element `k + 1`.
pub open spec fn step(elements: Seq<Elements>, path: Seq<ElementID>, k: int) -> bool {
    match elements[path[k].0 as int].leads(before(path, k)) {
        Ok(next) => next.contains(path[k + 1]),
        Err(_) => false,
    }
}

/// Whether `path` is the beginning of a path from `start` to `destination`:
/// it begins at `start`, stays within `elements`, follows the elements as
/// they lead, has not reached the destination before its last element, and
/// goes on from no element to the same element twice.
pub open spec fn is_walk(
    elements: Seq<Elements>,
    path: Seq<ElementID>,
    start: ElementID,
    destination: ElementID,
) -> bool {
    &&& path.len() >= 1
    &&& path[0] == start
    &&& forall|k: int| 0 <= k < path.len() ==> (#[trigger] path[k]).0 < elements.len()
    &&& forall|k: int| 0 <= k < path.len() - 1 ==> #[trigger] step(elements, path, k)
    &&& forall|k: int| 0 <= k < path.len() - 1 ==> #[trigger] path[k] != destination
    &&& !revisits(path)
}

/// Whether `path` is a path from `start` to `destination`.
pub open spec fn is_path(
    elements: Seq<Elements>,
    path: Seq<ElementID>,
    start: ElementID,
    destination: ElementID,
) -> bool {
    is_walk(elements, path, start, destination) && path.last() == destination
}

/// Whether each of `paths` is empty or the beginning of a path.
pub open spec fn sound(
    elements: Seq<Elements>,
    paths: Seq<Seq<ElementID>>,
    start: ElementID,
    destination: ElementID,
) -> bool {
    forall|i: int|
        0 <= i < paths.len() ==> (#[trigger] paths[i]).len() == 0 || is_walk(
            elements,
            paths[i],
            start,
            destination,
        )
}

/// Whether each of the first `count` of `paths` is empty or has reached `destination`.
pub open spec fn done(paths: Seq<Seq<ElementID>>, count: int, destination: ElementID) -> bool {
    forall|i: int|
        0 <= i < count && i < paths.len() ==> (#[trigger] paths[i]).len() == 0 || paths[i].last()
            == destination
}

/// Whether `path` begins with one of `paths` that is not empty.
pub open spec fn begun(paths: Seq<Seq<ElementID>>, path: Seq<ElementID>) -> bool {
    exists|i: int|
        0 <= i < paths.len() && (#[trigger] paths[i]).len() > 0 && paths[i].is_prefix_of(path)
}

/// Whether every path from `start` to `destination` begins with one of `paths`.
pub open spec fn covered(
    elements: Seq<Elements>,
    paths: Seq<Seq<ElementID>>,
    start: ElementID,
    destination: ElementID,
) -> bool {
    forall|path: Seq<ElementID>| #[trigger]
        is_path(elements, path, start, destination) ==> begun(paths, path)
}

/// The work that the paths from the place `from` on stand for: see [`weight`].
pub open spec fn load(paths: Seq<Seq<ElementID>>, from: int, bound: int) -> nat
    decreases paths.len() - from,
{
    if from < 0 || from >= paths.len() {
        0
    } else {
        weight(paths[from], bound) + load(paths, from + 1, bound)
    }
}

proof fn lemma_load_skip(paths: Seq<Seq<ElementID>>, from: int, to: int, bound: int)
    requires
        0 <= from <= to <= paths.len(),
    ensures
        load(paths, to, bound) <= load(paths, from, bound),
    decreases to - from,
{
    if from < to {
        lemma_load_skip(paths, from + 1, to, bound);
    }
}

proof fn lemma_load_add(
    paths: Seq<Seq<ElementID>>,
    more: Seq<Seq<ElementID>>,
    from: int,
    bound: int,
)
    requires
        0 <= from <= paths.len(),
    ensures
        load(paths + more, from, bound) == load(paths, from, bound) + load(more, 0, bound),
    decreases paths.len() - from,
{
    let all = paths + more;
    if from < paths.len() {
        lemma_load_add(paths, more, from + 1, bound);
        assert(all[from] == paths[from]);
    } else {
        lemma_load_shift(paths, more, 0, bound);
    }
}

proof fn lemma_load_shift(
    paths: Seq<Seq<ElementID>>,
    more: Seq<Seq<ElementID>>,
    k: int,
    bound: int,
)
    requires
        0 <= k <= more.len(),
    ensures
        load(paths + more, paths.len() + k, bound) == load(more, k, bound),
    decreases more.len() - k,
{
    let all = paths + more;
    if k < more.len() {
        lemma_load_shift(paths, more, k + 1, bound);
        assert(all[paths.len() + k] == more[k]);
    }
}

proof fn lemma_load_update(
    paths: Seq<Seq<ElementID>>,
    at: int,
    path: Seq<ElementID>,
    from: int,
    bound: int,
)
    requires
        0 <= at < paths.len(),
        at <= from <= paths.len(),
    ensures
        load(paths.update(at, path), from, bound) == if from == at {
            weight(path, bound) + load(paths, at + 1, bound)
        } else {
            load(paths, from, bound)
        },
    decreases paths.len() - from, (if from == at { 1int } else { 0int }),
{
    let changed = paths.update(at, path);
    if from == at {
        lemma_load_update(paths, at, path, at + 1, bound);
    } else if from < paths.len() {
        lemma_load_update(paths, at, path, from + 1, bound);
        assert(changed[from] == paths[from]);
    }
}

/// What is known of the paths that `path` has grown to.
proof fn lemma_grown(path: Seq<ElementID>, next: Seq<ElementID>, bound: int)
    requires
        path.len() + 1 <= bound,
    ensures
        grown(path, next).len() <= next.len(),
        forall|j: int|
            0 <= j < grown(path, next).len() ==> exists|k: int|
                0 <= k < next.len() && !passes(path, path.last(), next[k]) && #[trigger] grown(
                    path,
                    next,
                )[j] == path.push(next[k]),
        forall|k: int|
            0 <= k < next.len() && !passes(path, path.last(), #[trigger] next[k]) ==> exists|j: int|
                0 <= j < grown(path, next).len() && #[trigger] grown(path, next)[j] == path.push(
                    next[k],
                ),
        load(grown(path, next), 0, bound) == grown(path, next).len() * pow3(
            (bound - path.len() - 1) as nat,
        ),
    decreases next.len(),
{
    let all = grown(path, next);
    let unit = pow3((bound - path.len() - 1) as nat);
    if next.len() == 0 {
        assert(0 * unit == 0) by (nonlinear_arith);
    } else {
        let front = next.drop_last();
        let first = grown(path, front);
        lemma_grown(path, front, bound);
        assert forall|j: int| 0 <= j < all.len() implies exists|k: int|
            0 <= k < next.len() && !passes(path, path.last(), next[k]) && #[trigger] all[j]
                == path.push(next[k]) by {
            if j < first.len() {
                let k = choose|k: int|
                    0 <= k < front.len() && !passes(path, path.last(), front[k]) && first[j]
                        == path.push(front[k]);
                assert(front[k] == next[k]);
                assert(all[j] == first[j]);
            } else {
                assert(all[j] == path.push(next[next.len() - 1]));
            }
        }
        assert forall|k: int|
            0 <= k < next.len() && !passes(path, path.last(), #[trigger] next[k]) implies exists|
            j: int,
        |
            0 <= j < all.len() && #[trigger] all[j] == path.push(next[k]) by {
            if k < front.len() {
                assert(front[k] == next[k]);
                let j = choose|j: int|
                    0 <= j < first.len() && #[trigger] first[j] == path.push(front[k]);
                assert(all[j] == first[j]);
            } else {
                assert(all[all.len() - 1] == path.push(next[k]));
            }
        }
        if passes(path, path.last(), next.last()) {
        } else {
            let longer = path.push(next.last());
            assert(all == first + seq![longer]);
            lemma_load_add(first, seq![longer], 0, bound);
            assert(load(seq![longer], 0, bound) == weight(longer, bound) + load(
                seq![longer],
                1,
                bound,
            ));
            assert(weight(longer, bound) == unit);
            assert((first.len() + 1) * unit == first.len() * unit + unit) by (nonlinear_arith);
        }
    }
}

/// A path that grows by an element that its last element leads to stays
/// the beginning of a path, unless it has gone on to that element from
/// its last element before.
proof fn lemma_walk_grows(
    elements: Seq<Elements>,
    path: Seq<ElementID>,
    next: ElementID,
    start: ElementID,
    destination: ElementID,
)
    requires
        layout(elements),
        is_walk(elements, path, start, destination),
        path.last() != destination,
        elements[path.last().0 as int].leads(before_last(path)) is Ok,
        elements[path.last().0 as int].leads(before_last(path))->Ok_0.contains(next),
        !passes(path, path.last(), next),
    ensures
        is_walk(elements, path.push(next), start, destination),
{
    let n = path.len() as int;
    let longer = path.push(next);
    let at = path.last().0 as int;
    assert(element_ok(elements, at));
    elements[at].lemma_leads(before_last(path));
    assert(elements[at].neighbours().contains(next));
    lemma_revisits_push(path, next);
    assert forall|k: int| 0 <= k < longer.len() implies (#[trigger] longer[k]).0
        < elements.len() by {
        if k < n {
            assert(longer[k] == path[k]);
        }
    }
    assert forall|k: int| 0 <= k < longer.len() - 1 implies #[trigger] step(
        elements,
        longer,
        k,
    ) by {
        if k < n - 1 {
            assert(step(elements, path, k));
            assert(longer[k] == path[k] && longer[k + 1] == path[k + 1] && before(longer, k)
                == before(path, k));
        } else {
            assert(before(longer, k) == before_last(path));
        }
    }
    assert forall|k: int| 0 <= k < longer.len() - 1 implies #[trigger] longer[k] != destination by {
        assert(longer[k] == path[k]);
    }
}

/// How a path from `start` to `destination` goes on that begins with a
/// path that has not reached the destination: with an element that the
/// last element of the beginning leads to, and that the beginning has not
/// gone on to from there before.
proof fn lemma_path_goes_on(
    elements: Seq<Elements>,
    path: Seq<ElementID>,
    whole: Seq<ElementID>,
    start: ElementID,
    destination: ElementID,
)
    requires
        path.len() > 0,
        path.last() != destination,
        path.is_prefix_of(whole),
        is_path(elements, whole, start, destination),
    ensures
        whole.len() > path.len(),
        elements[path.last().0 as int].leads(before_last(path)) is Ok,
        elements[path.last().0 as int].leads(before_last(path))->Ok_0.contains(
            whole[path.len() as int],
        ),
        !passes(path, path.last(), whole[path.len() as int]),
        path.push(whole[path.len() as int]).is_prefix_of(whole),
{
    let n = path.len() as int;
    assert(path =~= whole.subrange(0, n));
    assert(whole.subrange(0, n)[n - 1] == whole[n - 1]);
    if whole.len() == n {
        assert(whole =~= path);
    }
    assert(step(elements, whole, n - 1));
    if n >= 2 {
        assert(whole.subrange(0, n)[n - 2] == whole[n - 2]);
    }
    assert(before(whole, n - 1) == before_last(path));
    let longer = path.push(whole[n]);
    assert(longer =~= whole.subrange(0, n + 1));
    if passes(path, path.last(), whole[n]) {
        lemma_revisits_push(path, whole[n]);
        lemma_revisits_prefix(longer, whole);
    }
}

/// What a step of the search makes of the path that it follows: the path
/// that takes its place, and the paths that come behind the others.
pub open spec fn outcome(path: Seq<ElementID>, next: Result<Seq<ElementID>, Failure>) -> (
    Seq<ElementID>,
    Seq<Seq<ElementID>>,
) {
    match next {
        Ok(elements) => if elements.len() == 1 {
            (extended(path, elements[0]), Seq::empty())
        } else {
            (Seq::empty(), grown(path, elements))
        },
        Err(_) => (Seq::empty(), Seq::empty()),
    }
}

/// What a step of the search makes of its paths, of which it follows the
/// one at the place `at`.
pub open spec fn stepped(elements: Seq<Elements>, paths: Seq<Seq<ElementID>>, at: int) -> Seq<
    Seq<ElementID>,
> {
    let path = paths[at];
    let next = elements[path.last().0 as int].leads(before_last(path));
    paths.update(at, outcome(path, next).0) + outcome(path, next).1
}

/// A step of the search leaves each path empty or the beginning of a path.
proof fn lemma_step_sound(
    elements: Seq<Elements>,
    paths: Seq<Seq<ElementID>>,
    at: int,
    start: ElementID,
    destination: ElementID,
)
    requires
        layout(elements),
        sound(elements, paths, start, destination),
        done(paths, at, destination),
        0 <= at < paths.len(),
        paths[at].len() > 0,
        paths[at].last() != destination,
    ensures
        sound(elements, stepped(elements, paths, at), start, destination),
        done(stepped(elements, paths, at), at, destination),
{
    let path = paths[at];
    let n = elements.len() as int;
    let bound = n * n + 2;
    let next = elements[path.last().0 as int].leads(before_last(path));
    let (new, more) = outcome(path, next);
    let after = stepped(elements, paths, at);

    assert(is_walk(elements, path, start, destination));
    lemma_route_length(path, |e: ElementID| e.0 as int, n);
    if next is Ok {
        lemma_grown(path, next->Ok_0, bound);
    }
    assert forall|i: int| 0 <= i < after.len() implies (#[trigger] after[i]).len() == 0 || is_walk(
        elements,
        after[i],
        start,
        destination,
    ) by {
        if i < paths.len() {
            if i != at {
                assert(after[i] == paths[i]);
            } else if new.len() > 0 {
                let only = next->Ok_0[0];
                assert(next->Ok_0.contains(only));
                lemma_walk_grows(elements, path, only, start, destination);
            }
        } else {
            let j = i - paths.len();
            assert(after[i] == more[j]);
            let k = choose|k: int|
                0 <= k < next->Ok_0.len() && !passes(path, path.last(), next->Ok_0[k]) && more[j]
                    == path.push(next->Ok_0[k]);
            assert(next->Ok_0.contains(next->Ok_0[k]));
            lemma_walk_grows(elements, path, next->Ok_0[k], start, destination);
        }
    }
    assert forall|i: int| 0 <= i < at && i < after.len() implies (#[trigger] after[i]).len() == 0
        || after[i].last() == destination by {
        assert(after[i] == paths[i]);
    }
}

/// After a step of the search every path to the destination still begins
/// with one of its paths.
proof fn lemma_step_covered(
    elements: Seq<Elements>,
    paths: Seq<Seq<ElementID>>,
    at: int,
    start: ElementID,
    destination: ElementID,
)
    requires
        layout(elements),
        sound(elements, paths, start, destination),
        covered(elements, paths, start, destination),
        0 <= at < paths.len(),
        paths[at].len() > 0,
        paths[at].last() != destination,
    ensures
        covered(elements, stepped(elements, paths, at), start, destination),
{
    let path = paths[at];
    let n = elements.len() as int;
    let bound = n * n + 2;
    let next = elements[path.last().0 as int].leads(before_last(path));
    let (new, more) = outcome(path, next);
    let after = stepped(elements, paths, at);

    assert(is_walk(elements, path, start, destination));
    lemma_route_length(path, |e: ElementID| e.0 as int, n);
    if next is Ok {
        lemma_grown(path, next->Ok_0, bound);
    }
    assert forall|whole: Seq<ElementID>| #[trigger]
        is_path(elements, whole, start, destination) implies begun(after, whole) by {
        let i = choose|i: int|
            0 <= i < paths.len() && (#[trigger] paths[i]).len() > 0 && paths[i].is_prefix_of(whole);
        if i != at {
            assert(after[i] == paths[i]);
        } else {
            lemma_path_goes_on(elements, path, whole, start, destination);
            let e = whole[path.len() as int];
            let k = choose|k: int| 0 <= k < next->Ok_0.len() && next->Ok_0[k] == e;
            if next->Ok_0.len() == 1 {
                assert(after[at] == path.push(e));
            } else {
                let j = choose|j: int| 0 <= j < more.len() && #[trigger] more[j] == path.push(e);
                assert(after[paths.len() + j] == more[j]);
            }
        }
    }
}

/// A step of the search lowers the work that is left.
proof fn lemma_step_load(
    elements: Seq<Elements>,
    paths: Seq<Seq<ElementID>>,
    at: int,
    start: ElementID,
    destination: ElementID,
)
    requires
        layout(elements),
        sound(elements, paths, start, destination),
        0 <= at < paths.len(),
        paths[at].len() > 0,
        paths[at].last() != destination,
    ensures
        load(stepped(elements, paths, at), at, (elements.len() * elements.len() + 2) as int) < load(
            paths,
            at,
            (elements.len() * elements.len() + 2) as int,
        ),
{
    let path = paths[at];
    let n = elements.len() as int;
    let bound = n * n + 2;
    let next = elements[path.last().0 as int].leads(before_last(path));
    let (new, more) = outcome(path, next);
    let changed = paths.update(at, new);
    let unit = pow3((bound - path.len() - 1) as nat);

    assert(is_walk(elements, path, start, destination));
    lemma_route_length(path, |e: ElementID| e.0 as int, n);
    lemma_pow3_positive((bound - path.len() - 1) as nat);
    assert(weight(path, bound) == 3 * unit);
    elements[path.last().0 as int].lemma_leads(before_last(path));
    if next is Ok {
        lemma_grown(path, next->Ok_0, bound);
    }
    lemma_load_add(changed, more, at, bound);
    lemma_load_update(paths, at, new, at, bound);
    assert(load(paths, at, bound) == weight(path, bound) + load(paths, at + 1, bound));
    if next is Ok && next->Ok_0.len() != 1 {
        assert(more.len() * unit <= 2 * unit) by (nonlinear_arith)
            requires
                more.len() <= 2,
        ;
    } else {
        assert(load(more, 0, bound) == 0);
        if new.len() > 0 {
            assert(weight(new, bound) == unit);
        }
    }
}

impl crate::routing::Pathfinder for Pathfinder {
    open spec fn ready(&self) -> bool {
        self.inner.ready()
    }

    open spec fn current(&self) -> ElementID {
        self.inner.path().last()
    }

    open spec fn previous(&self) -> ElementID {
        before_last(self.inner.path())
    }

    open spec fn goes_on(&self, elements: Seq<ElementID>, after: Self) -> bool {
        self.inner.goes_on(elements, after.inner)
    }

    /// The path is given up, whatever the error.
    open spec fn gives_up(&self, err: Failure, after: Self) -> bool {
        self.inner.gives_up(after.inner)
    }

    fn current_position(&self) -> (r: ElementID) {
        self.inner.current_position()
    }

    fn previous_position(&self) -> (r: ElementID) {
        self.inner.previous_position()
    }

    fn next_elements(&mut self, elements: &[ElementID]) {
        self.inner.next_elements(elements);
    }

    fn error(&mut self, _err: Error) {
        self.inner.replace(Vec::new());
    }
}

impl Pathfinder {
    /// A path from `start` to `destination` through `elements`, if there is one.
    ///
    /// A path begins at `start`, follows the elements as they lead, ends
    /// when it reaches `destination`, and goes on from no element to the
    /// same element twice. Of several paths the one is given that the search
    /// comes to first.
    pub fn find(start: ElementID, destination: ElementID, elements: &Vec<Elements>) -> (r: Option<
        Vec<ElementID>,
    >)
        requires
            layout(elements@),
            start.0 < elements@.len(),
        ensures
            match r {
                Some(path) => is_path(elements@, path@, start, destination),
                None => forall|path: Seq<ElementID>|
                    !#[trigger] is_path(elements@, path, start, destination),
            },
    {
        let mut first: Vec<ElementID> = Vec::new();
        first.push(start);
        let mut paths: Vec<Vec<ElementID>> = Vec::new();
        paths.push(first);
        let pathfinder = Pathfinder { inner: InnerPathfinder { current_path_index: 0, paths } };
        proof {
            let all = views(pathfinder.inner.paths@);
            assert(all[0] =~= seq![start]);
            assert(!revisits(all[0]));
            assert(is_walk(elements@, all[0], start, destination));
            assert forall|path: Seq<ElementID>| #[trigger]
                is_path(elements@, path, start, destination) implies begun(all, path) by {
                assert(all[0] =~= path.subrange(0, 1));
                assert(all[0].is_prefix_of(path));
            }
        }

        pathfinder.inner_iter(start, destination, elements)
    }

    /// Follows the paths that the pathfinder has begun from `start` until
    /// each has reached `destination` or was given up, and gives the first
    /// that has reached it.
    pub fn inner_iter(
        self,
        start: ElementID,
        destination: ElementID,
        elements: &Vec<Elements>,
    ) -> (r: Option<Vec<ElementID>>)
        requires
            layout(elements@),
            self.inner.current_path_index <= self.inner.paths@.len(),
            sound(elements@, views(self.inner.paths@), start, destination),
            done(views(self.inner.paths@), self.inner.current_path_index as int, destination),
            covered(elements@, views(self.inner.paths@), start, destination),
        ensures
            match r {
                Some(path) => is_path(elements@, path@, start, destination),
                None => forall|path: Seq<ElementID>|
                    !#[trigger] is_path(elements@, path, start, destination),
            },
    {
        let mut this = self;
        let ghost bound = (elements@.len() * elements@.len() + 2) as int;
        loop
            invariant
                layout(elements@),
                bound == elements@.len() * elements@.len() + 2,
                this.inner.current_path_index <= this.inner.paths@.len(),
                sound(elements@, views(this.inner.paths@), start, destination),
                done(views(this.inner.paths@), this.inner.current_path_index as int, destination),
                covered(elements@, views(this.inner.paths@), start, destination),
            ensures
                this.inner.current_path_index == this.inner.paths@.len(),
            decreases load(views(this.inner.paths@), this.inner.current_path_index as int, bound),
        {
            let ghost from = this.inner.current_path_index as int;
            let eid = match this.inner.next(destination) {
                Some(eid) => eid,
                None => {
                    break ;
                },
            };
            let ghost all = views(this.inner.paths@);
            let ghost at = this.inner.current_path_index as int;
            proof {
                lemma_load_skip(all, from, at, bound);
                assert(all[at] == this.inner.path());
                assert(is_walk(elements@, all[at], start, destination));
                assert(all[at][all[at].len() - 1] == eid);
                assert(element_ok(elements@, eid.0 as int));
                assert(done(all, at, destination)) by {
                    assert forall|i: int| 0 <= i < at && i < all.len() implies (
                    #[trigger] all[i]).len() == 0 || all[i].last() == destination by {
                        if i >= from {
                            assert(this.inner.paths@[i]@.len() == 0 || this.inner.paths@[i]@.last()
                                == destination);
                        }
                    }
                }
                lemma_step_sound(elements@, all, at, start, destination);
                lemma_step_covered(elements@, all, at, start, destination);
                lemma_step_load(elements@, all, at, start, destination);
            }
            let current_element = &elements[eid.0];
            current_element.train_route(&mut this);
            proof {
                assert(views(this.inner.paths@) == stepped(elements@, all, at));
            }
        }
        let ghost all = views(this.inner.paths@);
        let ghost paths = this.inner.paths@;
        let found = this.inner.result();
        proof {
            if found is Some {
                let path = found->0;
                let i = choose|i: int|
                    0 <= i < paths.len() && (#[trigger] paths[i])@ == path@ && path@.len() > 0;
                assert(all[i] == path@);
            } else {
                {
                    assert forall|path: Seq<ElementID>|
                        !#[trigger] is_path(elements@, path, start, destination) by {
                        if is_path(elements@, path, start, destination) {
                            let i = choose|i: int|
                                0 <= i < all.len() && (#[trigger] all[i]).len() > 0
                                    && all[i].is_prefix_of(path);
                            assert(paths[i]@.len() == 0);
                        }
                    }
                }
            }
        }
        found
    }
}

} // verus!
