use crate::neural_net::{ConnectionTemplate, ConnectionType, Error};
use vstd::prelude::*;

verus! {

/// The precedence relation between two connections, by their positions in
/// `c`: `i` has to fire before `j` if `i` still feeds the node that the
/// normal connection `j` reads, or if the recurrent connection `i` still has
/// to read the node that `j` feeds. No connection precedes itself.
pub open spec fn must_precede<T>(c: Seq<ConnectionTemplate<T>>, i: int, j: int) -> bool {
    i != j && ((c[i].dest == c[j].origin && c[j].connection_type == ConnectionType::Normal) || (
    c[i].origin == c[j].dest && c[i].connection_type == ConnectionType::Recurrent))
}

/// Whether position `i` is among the entries of `order`.
pub open spec fn occurs(order: Seq<usize>, i: int) -> bool {
    exists|k: int| 0 <= k < order.len() && #[trigger] order[k] == i
}

/// Whether `order` lists every position of `c` exactly once, each after all
/// the connections that must precede it.
pub open spec fn is_valid_order<T>(c: Seq<ConnectionTemplate<T>>, order: Seq<usize>) -> bool {
    &&& order.len() == c.len()
    &&& forall|k: int| 0 <= k < order.len() ==> (#[trigger] order[k]) < c.len()
    &&& forall|a: int, b: int| 0 <= a < b < order.len() ==> order[a] != order[b]
    &&& forall|i: int| 0 <= i < c.len() ==> #[trigger] occurs(order, i)
    &&& forall|a: int, b: int|
        0 <= a < order.len() && 0 <= b < order.len() && #[trigger] must_precede(
            c,
            order[a] as int,
            order[b] as int,
        ) ==> a < b
}

/// Whether the connections can be put in any order that respects the
/// precedence relation.
pub open spec fn schedulable<T>(c: Seq<ConnectionTemplate<T>>) -> bool {
    exists|order: Seq<usize>| is_valid_order(c, order)
}

/// Whether every connection that must precede `j` has been placed.
spec fn ready<T>(c: Seq<ConnectionTemplate<T>>, placed: Seq<bool>, j: int) -> bool {
    forall|i: int| 0 <= i < c.len() && #[trigger] must_precede(c, i, j) ==> placed[i]
}

/// The number of `true` entries.
spec fn count_true(s: Seq<bool>) -> nat
    decreases s.len(),
{
    if s.len() == 0 {
        0
    } else {
        count_true(s.drop_last()) + if s.last() {
            1nat
        } else {
            0nat
        }
    }
}

proof fn lemma_count_bound(s: Seq<bool>)
    ensures
        count_true(s) <= s.len(),
        count_true(s) == s.len() <==> (forall|i: int| 0 <= i < s.len() ==> s[i]),
    decreases s.len(),
{
    if s.len() > 0 {
        let t = s.drop_last();
        lemma_count_bound(t);
        if count_true(s) == s.len() {
            assert forall|i: int| 0 <= i < s.len() implies s[i] by {
                if i < s.len() - 1 {
                    assert(t[i]);
                }
            }
        }
        if forall|i: int| 0 <= i < s.len() ==> s[i] {
            assert forall|i: int| 0 <= i < t.len() implies t[i] by {
                assert(s[i]);
            }
        }
    }
}

proof fn lemma_count_place(s: Seq<bool>, j: int)
    requires
        0 <= j < s.len(),
        !s[j],
    ensures
        count_true(s.update(j, true)) == count_true(s) + 1,
    decreases s.len(),
{
    let u = s.update(j, true);
    if j == s.len() - 1 {
        assert(u.drop_last() =~= s.drop_last());
    } else {
        lemma_count_place(s.drop_last(), j);
        assert(u.drop_last() =~= s.drop_last().update(j, true));
    }
}

proof fn lemma_count_none(s: Seq<bool>)
    requires
        forall|i: int| 0 <= i < s.len() ==> !s[i],
    ensures
        count_true(s) == 0,
    decreases s.len(),
{
    if s.len() > 0 {
        lemma_count_none(s.drop_last());
    }
}

/// If no unplaced connection is ready, every valid order consists of placed
/// connections only.
proof fn lemma_stuck<T>(c: Seq<ConnectionTemplate<T>>, placed: Seq<bool>, o: Seq<usize>, k: int)
    requires
        is_valid_order(c, o),
        placed.len() == c.len(),
        forall|j: int| 0 <= j < c.len() ==> placed[j] || !#[trigger] ready(c, placed, j),
        0 <= k < o.len(),
    ensures
        placed[o[k] as int],
    decreases k,
{
    let j = o[k] as int;
    if !placed[j] {
        assert(!ready(c, placed, j));
        let i = choose|i: int| 0 <= i < c.len() && must_precede(c, i, j) && !placed[i];
        assert(occurs(o, i));
        let a = choose|a: int| 0 <= a < o.len() && o[a] == i;
        assert(must_precede(c, o[a] as int, o[k] as int));
        lemma_stuck(c, placed, o, a);
    }
}

fn precedes<T>(connections: &[ConnectionTemplate<T>], i: usize, j: usize) -> (r: bool)
    requires
        i < connections@.len(),
        j < connections@.len(),
    ensures
        r == must_precede(connections@, i as int, j as int),
{
    let a = &connections[i];
    let b = &connections[j];
    i != j && ((a.dest == b.origin && b.connection_type == ConnectionType::Normal) || (a.origin
        == b.dest && a.connection_type == ConnectionType::Recurrent))
}

/// The number of connections among the first `k` that must precede `j`
/// and have not been placed.
spec fn blockers<T>(c: Seq<ConnectionTemplate<T>>, placed: Seq<bool>, j: int, k: int) -> nat
    decreases k,
{
    if k <= 0 {
        0
    } else {
        blockers(c, placed, j, k - 1) + if must_precede(c, k - 1, j) && !placed[k - 1] {
            1nat
        } else {
            0nat
        }
    }
}

proof fn lemma_blockers_none<T>(c: Seq<ConnectionTemplate<T>>, placed: Seq<bool>, j: int, k: int)
    requires
        0 <= k <= c.len(),
    ensures
        blockers(c, placed, j, k) <= k,
        blockers(c, placed, j, k) == 0 <==> (forall|i: int|
            0 <= i < k && #[trigger] must_precede(c, i, j) ==> placed[i]),
    decreases k,
{
    if k > 0 {
        lemma_blockers_none(c, placed, j, k - 1);
        if blockers(c, placed, j, k) != 0 && blockers(c, placed, j, k - 1) == 0 {
            assert(must_precede(c, k - 1, j) && !placed[k - 1]);
        }
    }
}

proof fn lemma_blockers_place<T>(
    c: Seq<ConnectionTemplate<T>>,
    placed: Seq<bool>,
    f: int,
    j: int,
    k: int,
)
    requires
        0 <= f < placed.len(),
        0 <= k <= placed.len(),
        !placed[f],
    ensures
        blockers(c, placed, j, k) == blockers(c, placed.update(f, true), j, k) + if f < k
            && must_precede(c, f, j) {
            1nat
        } else {
            0nat
        },
    decreases k,
{
    if k > 0 {
        lemma_blockers_place(c, placed, f, j, k - 1);
    }
}

/// Counts, for each connection, the connections that must precede it.
fn count_predecessors<T>(connections: &[ConnectionTemplate<T>]) -> (remaining: Vec<usize>)
    ensures
        remaining@.len() == connections@.len(),
        forall|j: int|
            0 <= j < remaining@.len() ==> #[trigger] remaining@[j] == blockers(
                connections@,
                Seq::new(connections@.len(), |i: int| false),
                j,
                connections@.len() as int,
            ),
{
    let n = connections.len();
    let ghost none = Seq::new(n as nat, |i: int| false);
    let mut remaining: Vec<usize> = Vec::new();
    let mut j: usize = 0;
    while j < n
        invariant
            j <= n,
            n == connections@.len(),
            remaining@.len() == j,
            none == Seq::new(n as nat, |i: int| false),
            forall|m: int|
                0 <= m < j ==> #[trigger] remaining@[m] == blockers(connections@, none, m, n as int),
        decreases n - j,
    {
        let mut count: usize = 0;
        let mut i: usize = 0;
        while i < n
            invariant
                i <= n,
                j < n,
                n == connections@.len(),
                count <= i,
                none == Seq::new(n as nat, |i: int| false),
                count == blockers(connections@, none, j as int, i as int),
            decreases n - i,
        {
            if precedes(connections, i, j) {
                count = count + 1;
            }
            i = i + 1;
        }
        remaining.push(count);
        j = j + 1;
    }
    remaining
}

/// Puts the connections in an order in which they can fire: the result
/// lists their positions, each after every connection that must precede it.
/// Fails with `ConnectionLoop` exactly when no such order exists, as is the
/// case whenever normal connections, or recurrent ones, form a loop.
pub fn connection_order<T>(connections: &[ConnectionTemplate<T>]) -> (r: Result<Vec<usize>, Error>)
    ensures
        match r {
            Ok(order) => is_valid_order(connections@, order@),
            Err(e) => e == Error::ConnectionLoop && !schedulable(connections@),
        },
        has_loop(connections@) ==> r is Err,
{
    proof {
        lemma_loop_unschedulable(connections@);
    }
    let n = connections.len();
    let mut placed: Vec<bool> = Vec::new();
    while placed.len() < n
        invariant
            placed.len() <= n,
            forall|i: int| 0 <= i < placed.len() ==> !placed@[i],
        decreases n - placed.len(),
    {
        placed.push(false);
    }
    proof {
        lemma_count_none(placed@);
        assert(placed@ =~= Seq::new(n as nat, |i: int| false));
    }
    let mut remaining = count_predecessors(connections);
    let mut output: Vec<usize> = Vec::new();
    let ghost mut pos: Seq<int> = Seq::new(n as nat, |i: int| 0int);
    while output.len() < n
        invariant
            n == connections@.len(),
            placed.len() == n,
            pos.len() == n,
            output.len() <= n,
            count_true(placed@) == output.len(),
            remaining@.len() == n,
            forall|j: int|
                0 <= j < n ==> #[trigger] remaining@[j] == blockers(
                    connections@,
                    placed@,
                    j,
                    n as int,
                ),
            forall|k: int|
                0 <= k < output.len() ==> (#[trigger] output@[k]) < n && placed@[output@[k] as int]
                    && pos[output@[k] as int] == k,
            forall|i: int|
                0 <= i < n && #[trigger] placed@[i] ==> 0 <= pos[i] < output.len()
                    && output@[pos[i]] == i,
            forall|b: int, i: int|
                0 <= b < output.len() && 0 <= i < n && #[trigger] must_precede(
                    connections@,
                    i,
                    output@[b] as int,
                ) ==> placed@[i] && pos[i] < b,
        decreases n - output.len(),
    {
        let mut j: usize = 0;
        let mut found: usize = n;
        while j < n && found == n
            invariant
                j <= n,
                n == connections@.len(),
                placed.len() == n,
                remaining@.len() == n,
                forall|m: int|
                    0 <= m < n ==> #[trigger] remaining@[m] == blockers(
                        connections@,
                        placed@,
                        m,
                        n as int,
                    ),
                found <= n,
                found == n ==> forall|k: int|
                    0 <= k < j ==> placed@[k] || !#[trigger] ready(connections@, placed@, k),
                found < n ==> !placed@[found as int] && ready(connections@, placed@, found as int),
            decreases n - j,
        {
            proof {
                lemma_blockers_none(connections@, placed@, j as int, n as int);
            }
            if !placed[j] && remaining[j] == 0 {
                found = j;
            }
            j = j + 1;
        }
        if found == n {
            proof {
                lemma_count_bound(placed@);
                assert forall|o: Seq<usize>| !is_valid_order(connections@, o) by {
                    if is_valid_order(connections@, o) {
                        let r = choose|r: int| 0 <= r < n && !placed@[r];
                        assert(occurs(o, r));
                        let k = choose|k: int| 0 <= k < o.len() && o[k] == r;
                        lemma_stuck(connections@, placed@, o, k);
                    }
                }
            }
            return Err(Error::ConnectionLoop);
        }
        proof {
            lemma_count_place(placed@, found as int);
            pos = pos.update(found as int, output.len() as int);
        }
        let ghost before = placed@;
        placed.set(found, true);
        output.push(found);
        let mut m: usize = 0;
        while m < n
            invariant
                m <= n,
                found < n,
                n == connections@.len(),
                remaining@.len() == n,
                before.len() == n,
                !before[found as int],
                placed@ == before.update(found as int, true),
                forall|j: int|
                    0 <= j < m ==> #[trigger] remaining@[j] == blockers(
                        connections@,
                        placed@,
                        j,
                        n as int,
                    ),
                forall|j: int|
                    m <= j < n ==> #[trigger] remaining@[j] == blockers(
                        connections@,
                        before,
                        j,
                        n as int,
                    ),
            decreases n - m,
        {
            proof {
                lemma_blockers_place(connections@, before, found as int, m as int, n as int);
            }
            if precedes(connections, found, m) {
                remaining.set(m, remaining[m] - 1);
            }
            m = m + 1;
        }
    }
    proof {
        lemma_count_bound(placed@);
        assert forall|i: int| 0 <= i < n implies #[trigger] occurs(output@, i) by {
            assert(placed@[i]);
            assert(output@[pos[i]] == i);
        }
        assert forall|a: int, b: int| 0 <= a < b < output@.len() implies output@[a] != output@[b] by {
            assert(pos[output@[a] as int] == a);
            assert(pos[output@[b] as int] == b);
        }
        assert forall|a: int, b: int|
            0 <= a < output@.len() && 0 <= b < output@.len() && #[trigger] must_precede(
                connections@,
                output@[a] as int,
                output@[b] as int,
            ) implies a < b by {
            assert(pos[output@[a] as int] == a);
        }
        assert(is_valid_order(connections@, output@));
    }
    Ok(output)
}

/// The entry that follows entry `k` when `cycle` is read as a circle.
pub open spec fn next_in(cycle: Seq<int>, k: int) -> int {
    if k + 1 < cycle.len() {
        cycle[k + 1]
    } else {
        cycle[0]
    }
}

/// Whether `cycle` is a circle of at least two positions of `c` in which
/// each connection must precede the next.
pub open spec fn is_precedence_cycle<T>(c: Seq<ConnectionTemplate<T>>, cycle: Seq<int>) -> bool {
    &&& cycle.len() >= 2
    &&& forall|k: int| 0 <= k < cycle.len() ==> 0 <= #[trigger] cycle[k] < c.len()
    &&& forall|k: int|
        0 <= k < cycle.len() ==> #[trigger] must_precede(c, cycle[k], next_in(cycle, k))
}

/// Whether entry `k` of `cycle` is a connection that ends where the next
/// entry starts, and is not that next entry itself.
pub open spec fn joined<T>(c: Seq<ConnectionTemplate<T>>, cycle: Seq<int>, k: int) -> bool {
    c[cycle[k]].dest == c[next_in(cycle, k)].origin && cycle[k] != next_in(cycle, k)
}

/// Whether `cycle` is a loop in `c` made of connections of one `kind`: a
/// circle of at least two positions, each connection ending where the next
/// one starts.
pub open spec fn is_loop_of<T>(
    c: Seq<ConnectionTemplate<T>>,
    cycle: Seq<int>,
    kind: ConnectionType,
) -> bool {
    &&& cycle.len() >= 2
    &&& forall|k: int|
        0 <= k < cycle.len() ==> 0 <= #[trigger] cycle[k] < c.len() && c[cycle[k]].connection_type
            == kind
    &&& forall|k: int| 0 <= k < cycle.len() ==> #[trigger] joined(c, cycle, k)
}

/// Whether `c` holds a loop of normal connections or a loop of recurrent
/// connections.
pub open spec fn has_loop<T>(c: Seq<ConnectionTemplate<T>>) -> bool {
    exists|cycle: Seq<int>, kind: ConnectionType| #[trigger] is_loop_of(c, cycle, kind)
}

/// The place of position `i` in `order`.
pub open spec fn place_of(order: Seq<usize>, i: int) -> int {
    choose|k: int| 0 <= k < order.len() && #[trigger] order[k] == i
}

proof fn lemma_chain<T>(c: Seq<ConnectionTemplate<T>>, o: Seq<usize>, cycle: Seq<int>, k: int)
    requires
        is_valid_order(c, o),
        is_precedence_cycle(c, cycle),
        1 <= k < cycle.len(),
    ensures
        place_of(o, cycle[0]) < place_of(o, cycle[k]),
    decreases k,
{
    assert(occurs(o, cycle[k - 1]));
    assert(occurs(o, cycle[k]));
    let a = place_of(o, cycle[k - 1]);
    let b = place_of(o, cycle[k]);
    assert(must_precede(c, cycle[k - 1], next_in(cycle, k - 1)));
    assert(must_precede(c, o[a] as int, o[b] as int));
    if k > 1 {
        lemma_chain(c, o, cycle, k - 1);
    }
}

/// Connections that must precede one another in a circle cannot be
/// scheduled.
pub proof fn lemma_precedence_cycle_unschedulable<T>(
    c: Seq<ConnectionTemplate<T>>,
    cycle: Seq<int>,
)
    requires
        is_precedence_cycle(c, cycle),
    ensures
        !schedulable(c),
{
    assert forall|o: Seq<usize>| !is_valid_order(c, o) by {
        if is_valid_order(c, o) {
            let last = cycle.len() - 1;
            lemma_chain(c, o, cycle, last);
            assert(occurs(o, cycle[0]));
            assert(occurs(o, cycle[last]));
            let a = place_of(o, cycle[last]);
            let b = place_of(o, cycle[0]);
            assert(must_precede(c, cycle[last], next_in(cycle, last)));
            assert(must_precede(c, o[a] as int, o[b] as int));
        }
    }
}

/// A loop of normal connections cannot be scheduled, so `connection_order`
/// answers it with `ConnectionLoop`.
pub proof fn lemma_normal_loop_unschedulable<T>(c: Seq<ConnectionTemplate<T>>, cycle: Seq<int>)
    requires
        is_loop_of(c, cycle, ConnectionType::Normal),
    ensures
        !schedulable(c),
{
    assert forall|k: int| 0 <= k < cycle.len() implies #[trigger] must_precede(
        c,
        cycle[k],
        next_in(cycle, k),
    ) by {
        assert(joined(c, cycle, k));
        if k + 1 < cycle.len() {
            assert(0 <= cycle[k + 1] < c.len());
        } else {
            assert(0 <= cycle[0] < c.len());
        }
    }
    lemma_precedence_cycle_unschedulable(c, cycle);
}

/// A loop of recurrent connections cannot be scheduled either: each of its
/// connections has to read its origin before the one in front of it
/// overwrites that node.
pub proof fn lemma_recurrent_loop_unschedulable<T>(c: Seq<ConnectionTemplate<T>>, cycle: Seq<int>)
    requires
        is_loop_of(c, cycle, ConnectionType::Recurrent),
    ensures
        !schedulable(c),
{
    let n = cycle.len() as int;
    let back = Seq::new(cycle.len(), |k: int| cycle[n - 1 - k]);
    assert forall|k: int| 0 <= k < back.len() implies 0 <= #[trigger] back[k] < c.len() by {
        assert(0 <= cycle[n - 1 - k] < c.len());
    }
    assert forall|k: int| 0 <= k < back.len() implies #[trigger] must_precede(
        c,
        back[k],
        next_in(back, k),
    ) by {
        let m = if k + 1 < n {
            n - 2 - k
        } else {
            n - 1
        };
        assert(joined(c, cycle, m));
        assert(0 <= cycle[m] < c.len());
        assert(next_in(back, k) == cycle[m]);
        assert(back[k] == next_in(cycle, m));
        assert(0 <= cycle[n - 1 - k] < c.len());
    }
    lemma_precedence_cycle_unschedulable(c, back);
}

/// Connections that hold a loop of either kind cannot be scheduled.
pub proof fn lemma_loop_unschedulable<T>(c: Seq<ConnectionTemplate<T>>)
    ensures
        has_loop(c) ==> !schedulable(c),
{
    if has_loop(c) {
        let (cycle, kind) = choose|cycle: Seq<int>, kind: ConnectionType| #[trigger]
            is_loop_of(c, cycle, kind);
        match kind {
            ConnectionType::Normal => lemma_normal_loop_unschedulable(c, cycle),
            ConnectionType::Recurrent => lemma_recurrent_loop_unschedulable(c, cycle),
        }
    }
}

} // verus!
