//! Topological scheduling of operations: Kahn's algorithm, plain and with
//! a priority for operations that consume declared model inputs.
//!
//! The specification layer speaks of producers and dependency edges over
//! the operation sequence. The central notions:
//!
//! - an operation `j` *produces* a non-empty tensor name it declares as an
//!   output;
//! - `i` *depends on* `j` when some input of `i` is produced by `j`;
//! - a *valid schedule* enumerates all operations without repetition so
//!   that every producer of an operation's inputs comes earlier;
//! - a graph is *schedulable* when some valid schedule exists.
//!
//! The exactness results are proved under `unique_outputs`: no two output
//! slots carry the same non-empty name. Real graphs of this format assign
//! each tensor one producer, so the hypothesis is the usual case; without
//! it the orderings still terminate and emit each operation at most once.
//!
//! Under duplicate non-empty output names the frontier bookkeeping counts
//! producer emissions per input slot rather than tracking which producer
//! satisfied which input, so a consumer can be released once enough of
//! the duplicate producers have run, whichever they are. No per-input
//! precedence statement holds of that discipline (with producers A and B
//! both declaring `t` and C consuming it, B can release C before A runs),
//! which is why the precedence, completeness and priority clauses carry
//! the `unique_outputs` hypothesis instead of a weaker unconditional
//! claim.

use vstd::prelude::*;

use crate::error::Error;
use crate::operation::OnnxOperation;
use crate::text::str_eq;

verus! {

broadcast use vstd::seq_lib::group_seq_properties;

/// Operation `j` declares the non-empty name `t` as one of its outputs.
pub open spec fn produces(ops: Seq<OnnxOperation>, j: int, t: Seq<char>) -> bool {
    &&& 0 <= j < ops.len()
    &&& t.len() > 0
    &&& exists|l: int| 0 <= l < ops[j].outputs@.len() && ops[j].outputs@[l]@ == t
}

/// Some operation produces `t`.
pub open spec fn has_producer(ops: Seq<OnnxOperation>, t: Seq<char>) -> bool {
    exists|j: int| produces(ops, j, t)
}

/// A producer of `t`; unique when outputs are unique.
pub open spec fn producer_of(ops: Seq<OnnxOperation>, t: Seq<char>) -> int {
    choose|j: int| produces(ops, j, t)
}

/// Operation `i` has an input that `j` produces.
pub open spec fn dep_edge(ops: Seq<OnnxOperation>, i: int, j: int) -> bool {
    &&& 0 <= i < ops.len()
    &&& exists|k: int| 0 <= k < ops[i].inputs@.len() && produces(ops, j, ops[i].inputs@[k]@)
}

/// No two output slots carry the same non-empty name.
pub open spec fn unique_outputs(ops: Seq<OnnxOperation>) -> bool {
    forall|j1: int, l1: int, j2: int, l2: int|
        #![trigger ops[j1].outputs@[l1], ops[j2].outputs@[l2]]
        (0 <= j1 < ops.len() && 0 <= l1 < ops[j1].outputs@.len() && 0 <= j2 < ops.len() && 0 <= l2
            < ops[j2].outputs@.len() && ops[j1].outputs@[l1]@.len() > 0
            && ops[j1].outputs@[l1]@ == ops[j2].outputs@[l2]@) ==> j1 == j2 && l1 == l2
}

/// Whether the emitted-so-far list holds index `j`.
pub open spec fn done_has(done: Seq<usize>, j: int) -> bool {
    exists|a: int| 0 <= a < done.len() && done[a] as int == j
}

/// A valid schedule: every operation exactly once, and every producer of
/// an operation's inputs strictly earlier.
pub open spec fn valid_schedule(ops: Seq<OnnxOperation>, o: Seq<usize>) -> bool {
    &&& o.len() == ops.len()
    &&& forall|a: int| 0 <= a < o.len() ==> o[a] < ops.len()
    &&& o.no_duplicates()
    &&& forall|a: int, j: int|
        0 <= a < o.len() && dep_edge(ops, o[a] as int, j) ==> exists|b: int|
            0 <= b < a && o[b] as int == j
}

/// Some valid schedule exists: the graph has no cycle among its
/// producer-backed dependencies.
pub open spec fn schedulable(ops: Seq<OnnxOperation>) -> bool {
    exists|o: Seq<usize>| valid_schedule(ops, o)
}

/// Input `k` of operation `i` waits on a producer that is not yet done.
pub open spec fn input_unmet(ops: Seq<OnnxOperation>, i: int, k: int, done: Seq<usize>) -> bool {
    &&& has_producer(ops, ops[i].inputs@[k]@)
    &&& !done_has(done, producer_of(ops, ops[i].inputs@[k]@))
}

/// How many of the first `k` inputs of `i` are still unmet.
pub open spec fn unmet_upto(ops: Seq<OnnxOperation>, i: int, done: Seq<usize>, k: int) -> nat
    decreases k,
{
    if k <= 0 {
        0
    } else {
        unmet_upto(ops, i, done, k - 1) + if input_unmet(ops, i, k - 1, done) {
            1nat
        } else {
            0nat
        }
    }
}

/// How many of `i`'s inputs are still unmet: the operation is ready
/// exactly when this is zero.
pub open spec fn unmet_count(ops: Seq<OnnxOperation>, i: int, done: Seq<usize>) -> nat {
    unmet_upto(ops, i, done, ops[i].inputs@.len() as int)
}

/// How many of the first `k` inputs of `i` become met when `p` is done:
/// those unmet inputs whose producer is `p`.
pub open spec fn freed_upto(
    ops: Seq<OnnxOperation>,
    i: int,
    p: int,
    done: Seq<usize>,
    k: int,
) -> nat
    decreases k,
{
    if k <= 0 {
        0
    } else {
        freed_upto(ops, i, p, done, k - 1) + if input_unmet(ops, i, k - 1, done) && producer_of(
            ops,
            ops[i].inputs@[k - 1].view(),
        ) == p {
            1nat
        } else {
            0nat
        }
    }
}

/// Ready before anything ran: no input has a producer at all.
pub open spec fn ready_at_start(ops: Seq<OnnxOperation>, i: int) -> bool {
    forall|k: int|
        0 <= k < ops[i].inputs@.len() ==> !has_producer(ops, #[trigger] ops[i].inputs@[k]@)
}

/// The operation reads at least one declared model input.
pub open spec fn spec_consumes_input(op: OnnxOperation, model_inputs: Seq<String>) -> bool {
    exists|k: int, m: int|
        0 <= k < op.inputs@.len() && 0 <= m < model_inputs.len() && op.inputs@[k]@
            == model_inputs[m]@
}

/// A seed operation that reads a declared model input.
pub open spec fn seed_input(ops: Seq<OnnxOperation>, mi: Seq<String>, c: int) -> bool {
    &&& 0 <= c < ops.len()
    &&& ready_at_start(ops, c)
    &&& spec_consumes_input(ops[c], mi)
}

/// A seed operation that reads only constants.
pub open spec fn seed_param(ops: Seq<OnnxOperation>, mi: Seq<String>, c: int) -> bool {
    &&& 0 <= c < ops.len()
    &&& ready_at_start(ops, c)
    &&& !spec_consumes_input(ops[c], mi)
}

/// Two operations are released in the same round of a run when their
/// unmet counts reach zero at exactly the same prefixes of the emission
/// list.
pub open spec fn released_together(
    ops: Seq<OnnxOperation>,
    done: Seq<usize>,
    i: int,
    j: int,
    upto: int,
) -> bool {
    forall|L: int|
        0 <= L <= upto ==> ((unmet_count(ops, i, #[trigger] done.take(L)) == 0) <==> (unmet_count(
            ops,
            j,
            done.take(L),
        ) == 0))
}

/// Release profiles over a prefix only look at that prefix.
proof fn lemma_released_together_prefix(
    ops: Seq<OnnxOperation>,
    d1: Seq<usize>,
    d2: Seq<usize>,
    i: int,
    j: int,
    upto: int,
)
    requires
        0 <= upto <= d1.len(),
        d1.len() <= d2.len(),
        d1 == d2.take(d1.len() as int),
    ensures
        released_together(ops, d1, i, j, upto) == released_together(ops, d2, i, j, upto),
{
    assert forall|L: int| 0 <= L <= upto implies d1.take(L) == d2.take(L) by {
        assert(d1.take(L) =~= d2.take(L));
    }
    if released_together(ops, d1, i, j, upto) {
        assert forall|L: int|
            0 <= L <= upto implies ((unmet_count(ops, i, #[trigger] d2.take(L)) == 0) <==> (
        unmet_count(ops, j, d2.take(L)) == 0)) by {
            assert((unmet_count(ops, i, d1.take(L)) == 0) <==> (unmet_count(ops, j, d1.take(L))
                == 0));
        }
    }
    if released_together(ops, d2, i, j, upto) {
        assert forall|L: int|
            0 <= L <= upto implies ((unmet_count(ops, i, #[trigger] d1.take(L)) == 0) <==> (
        unmet_count(ops, j, d1.take(L)) == 0)) by {
            assert((unmet_count(ops, i, d2.take(L)) == 0) <==> (unmet_count(ops, j, d2.take(L))
                == 0));
        }
    }
}

/// Readiness at the start is exactly an unmet count of zero over the
/// empty emission list.
proof fn lemma_ready_iff_unmet_zero(ops: Seq<OnnxOperation>, c: int)
    requires
        0 <= c < ops.len(),
    ensures
        ready_at_start(ops, c) <==> unmet_count(ops, c, Seq::<usize>::empty()) == 0,
{
    lemma_unmet_zero_iff(ops, c, Seq::<usize>::empty(), ops[c].inputs@.len() as int);
    assert forall|k: int|
        0 <= k < ops[c].inputs@.len() implies (input_unmet(ops, c, k, Seq::<usize>::empty())
        <==> has_producer(ops, #[trigger] ops[c].inputs@[k]@)) by {
        assert(!done_has(
            Seq::<usize>::empty(),
            producer_of(ops, ops[c].inputs@[k]@),
        ));
    }
}

proof fn lemma_done_has_push(done: Seq<usize>, p: usize, j: int)
    ensures
        done_has(done.push(p), j) <==> (done_has(done, j) || j == p as int),
{
    if done_has(done.push(p), j) {
        let a = choose|a: int| 0 <= a < done.push(p).len() && done.push(p)[a] as int == j;
        if a < done.len() {
            assert(done[a] as int == j);
        } else {
            assert(j == p as int);
        }
    }
    if done_has(done, j) {
        let a = choose|a: int| 0 <= a < done.len() && done[a] as int == j;
        assert(done.push(p)[a] as int == j);
    }
    if j == p as int {
        assert(done.push(p)[done.len() as int] as int == j);
    }
}

proof fn lemma_unique_producer(ops: Seq<OnnxOperation>, j: int, t: Seq<char>)
    requires
        unique_outputs(ops),
        produces(ops, j, t),
    ensures
        producer_of(ops, t) == j,
        has_producer(ops, t),
{
    assert(has_producer(ops, t));
    let j2 = producer_of(ops, t);
    assert(produces(ops, j2, t));
    let l1 = choose|l: int| 0 <= l < ops[j].outputs@.len() && ops[j].outputs@[l]@ == t;
    let l2 = choose|l: int| 0 <= l < ops[j2].outputs@.len() && ops[j2].outputs@[l]@ == t;
    assert(ops[j].outputs@[l1]@ == ops[j2].outputs@[l2]@);
}

proof fn lemma_unmet_upto_mono(ops: Seq<OnnxOperation>, i: int, done: Seq<usize>, k1: int, k2: int)
    requires
        k1 <= k2,
    ensures
        unmet_upto(ops, i, done, k1) <= unmet_upto(ops, i, done, k2),
    decreases k2 - k1,
{
    if k1 < k2 {
        lemma_unmet_upto_mono(ops, i, done, k1, k2 - 1);
    }
}

proof fn lemma_freed_le_unmet(ops: Seq<OnnxOperation>, i: int, p: int, done: Seq<usize>, k: int)
    ensures
        freed_upto(ops, i, p, done, k) <= unmet_upto(ops, i, done, k),
    decreases k,
{
    if k > 0 {
        lemma_freed_le_unmet(ops, i, p, done, k - 1);
    }
}

proof fn lemma_unmet_after_push(
    ops: Seq<OnnxOperation>,
    i: int,
    p: usize,
    done: Seq<usize>,
    k: int,
)
    requires
        !done_has(done, p as int),
    ensures
        unmet_upto(ops, i, done.push(p), k) == unmet_upto(ops, i, done, k) - freed_upto(
            ops,
            i,
            p as int,
            done,
            k,
        ),
    decreases k,
{
    if k > 0 {
        lemma_unmet_after_push(ops, i, p, done, k - 1);
        lemma_freed_le_unmet(ops, i, p as int, done, k - 1);
        lemma_done_has_push(done, p, producer_of(ops, ops[i].inputs@[k - 1].view()));
    }
}

proof fn lemma_unmet_zero_iff(ops: Seq<OnnxOperation>, i: int, done: Seq<usize>, k: int)
    ensures
        unmet_upto(ops, i, done, k) == 0 <==> (forall|k2: int|
            0 <= k2 < k ==> !input_unmet(ops, i, k2, done)),
    decreases k,
{
    if k > 0 {
        lemma_unmet_zero_iff(ops, i, done, k - 1);
    }
}

/// A duplicate-free list of indices below `n` has at most `n` entries.
proof fn lemma_distinct_le(s: Seq<usize>, n: int)
    requires
        0 <= n,
        s.no_duplicates(),
        forall|a: int| 0 <= a < s.len() ==> s[a] < n,
    ensures
        s.len() <= n,
{
    let ints = s.map_values(|u: usize| u as int);
    assert(ints.no_duplicates());
    ints.unique_seq_to_set();
    assert(ints.to_set().subset_of(vstd::set_lib::set_int_range(0, n))) by {
        assert forall|x: int| ints.to_set().contains(x) implies vstd::set_lib::set_int_range(
            0,
            n,
        ).contains(x) by {
            let a = choose|a: int| 0 <= a < ints.len() && ints[a] == x;
            assert(s[a] < n);
        }
    }
    vstd::set_lib::lemma_int_range(0, n);
    vstd::set_lib::lemma_len_subset(ints.to_set(), vstd::set_lib::set_int_range(0, n));
}

/// A duplicate-free list of `n` indices below `n` holds every one of them.
proof fn lemma_permutation_contains(s: Seq<usize>, n: int, x: int)
    requires
        s.no_duplicates(),
        forall|a: int| 0 <= a < s.len() ==> s[a] < n,
        s.len() == n,
        0 <= x < n,
    ensures
        done_has(s, x),
{
    if !done_has(s, x) {
        let ints = s.map_values(|u: usize| u as int);
        assert(ints.no_duplicates());
        ints.unique_seq_to_set();
        let small = vstd::set_lib::set_int_range(0, n).remove(x);
        assert(ints.to_set().subset_of(small)) by {
            assert forall|y: int| ints.to_set().contains(y) implies small.contains(y) by {
                let a = choose|a: int| 0 <= a < ints.len() && ints[a] == y;
                assert(s[a] < n);
                assert(s[a] as int != x);
            }
        }
        vstd::set_lib::lemma_int_range(0, n);
        vstd::set_lib::lemma_len_subset(ints.to_set(), small);
        assert(small.len() == n - 1);
        assert(false);
    }
}

/// Walk a schedule to the first position whose operation is not yet done.
proof fn find_first_not_done(o: Seq<usize>, done: Seq<usize>, a: int) -> (r: int)
    requires
        0 <= a <= o.len(),
        exists|i: int| a <= i < o.len() && !done_has(done, o[i] as int),
    ensures
        a <= r < o.len(),
        !done_has(done, o[r] as int),
        forall|b: int| a <= b < r ==> done_has(done, #[trigger] o[b] as int),
    decreases o.len() - a,
{
    if !done_has(done, o[a] as int) {
        a
    } else {
        assert(exists|i: int| a + 1 <= i < o.len() && !done_has(done, o[i] as int)) by {
            let i = choose|i: int| a <= i < o.len() && !done_has(done, o[i] as int);
            assert(i != a);
        }
        find_first_not_done(o, done, a + 1)
    }
}

/// When the frontier empties with operations left over, each leftover
/// waits on a leftover: no valid schedule can exist.
proof fn lemma_stuck_means_unschedulable(ops: Seq<OnnxOperation>, done: Seq<usize>)
    requires
        unique_outputs(ops),
        done.no_duplicates(),
        forall|a: int| 0 <= a < done.len() ==> done[a] < ops.len(),
        done.len() < ops.len(),
        forall|c: int|
            0 <= c < ops.len() && !done_has(done, c) ==> unmet_count(ops, c, done) > 0,
    ensures
        !schedulable(ops),
{
    if !schedulable(ops) {
        return;
    }
    let o = choose|o: Seq<usize>| valid_schedule(ops, o);
    let n = ops.len() as int;
    // some operation is not done
    assert(exists|c: int| 0 <= c < n && !done_has(done, c)) by {
        if forall|c: int| 0 <= c < n ==> done_has(done, c) {
            let ints = done.map_values(|u: usize| u as int);
            assert(ints.no_duplicates());
            ints.unique_seq_to_set();
            assert(vstd::set_lib::set_int_range(0, n).subset_of(ints.to_set())) by {
                assert forall|y: int|
                    vstd::set_lib::set_int_range(0, n).contains(y) implies ints.to_set().contains(
                    y,
                ) by {
                    assert(done_has(done, y));
                    let a = choose|a: int| 0 <= a < done.len() && done[a] as int == y;
                    assert(ints[a] == y);
                }
            }
            vstd::set_lib::lemma_int_range(0, n);
            vstd::set_lib::lemma_len_subset(
                vstd::set_lib::set_int_range(0, n),
                ints.to_set(),
            );
            assert(false);
        }
    }
    let c0 = choose|c: int| 0 <= c < n && !done_has(done, c);
    // the schedule holds it somewhere
    lemma_permutation_contains(o, n, c0);
    assert(exists|i: int| 0 <= i < o.len() && !done_has(done, o[i] as int)) by {
        let a = choose|a: int| 0 <= a < o.len() && o[a] as int == c0;
        assert(!done_has(done, o[a] as int));
    }
    let r = find_first_not_done(o, done, 0);
    let x = o[r] as int;
    // x is not done, so it waits on an unmet input
    assert(unmet_count(ops, x, done) > 0);
    lemma_unmet_zero_iff(ops, x, done, ops[x].inputs@.len() as int);
    let k = choose|k: int| 0 <= k < ops[x].inputs@.len() && input_unmet(ops, x, k, done);
    let t = ops[x].inputs@[k]@;
    let j = producer_of(ops, t);
    assert(produces(ops, j, t));
    assert(dep_edge(ops, x, j));
    // the schedule puts the producer strictly before position r,
    // but everything before r is already done
    let b = choose|b: int| 0 <= b < r && o[b] as int == j;
    assert(done_has(done, o[b] as int));
    assert(false);
}

/// Whether operation `j` declares `t` as a non-empty output.
fn produces_exec(ops: &Vec<OnnxOperation>, j: usize, t: &String) -> (r: bool)
    requires
        j < ops@.len(),
    ensures
        r == produces(ops@, j as int, t@),
{
    if t.as_str().is_empty() {
        return false;
    }
    let op = &ops[j];
    let m = op.outputs.len();
    let mut l: usize = 0;
    while l < m
        invariant
            l <= m == ops@[j as int].outputs@.len(),
            t@.len() > 0,
            j < ops@.len(),
            op == &ops@[j as int],
            forall|l2: int| 0 <= l2 < l ==> ops@[j as int].outputs@[l2]@ != t@,
        decreases m - l,
    {
        if str_eq(op.outputs[l].as_str(), t.as_str()) {
            return true;
        }
        l = l + 1;
    }
    false
}

/// Whether any operation produces `t`.
fn has_producer_exec(ops: &Vec<OnnxOperation>, t: &String) -> (r: bool)
    ensures
        r == has_producer(ops@, t@),
{
    let n = ops.len();
    let mut j: usize = 0;
    while j < n
        invariant
            j <= n == ops@.len(),
            forall|j2: int| 0 <= j2 < j ==> !produces(ops@, j2, t@),
        decreases n - j,
    {
        if produces_exec(ops, j, t) {
            return true;
        }
        j = j + 1;
    }
    false
}

/// Count of producer-backed inputs per operation, nothing yet emitted.
fn compute_indegree(ops: &Vec<OnnxOperation>) -> (r: Vec<usize>)
    ensures
        r@.len() == ops@.len(),
        forall|i: int|
            0 <= i < ops@.len() ==> r@[i] == unmet_count(ops@, i, Seq::<usize>::empty()),
{
    let n = ops.len();
    let mut r: Vec<usize> = Vec::new();
    let mut i: usize = 0;
    while i < n
        invariant
            i <= n == ops@.len(),
            r@.len() == i,
            forall|i2: int|
                0 <= i2 < i ==> r@[i2] == unmet_count(ops@, i2, Seq::<usize>::empty()),
        decreases n - i,
    {
        let m = ops[i].inputs.len();
        let mut acc: usize = 0;
        let mut k: usize = 0;
        while k < m
            invariant
                k <= m == ops@[i as int].inputs@.len(),
                i < ops@.len(),
                acc <= k,
                acc == unmet_upto(ops@, i as int, Seq::<usize>::empty(), k as int),
            decreases m - k,
        {
            let waiting = has_producer_exec(ops, &ops[i].inputs[k]);
            proof {
                assert(!done_has(Seq::<usize>::empty(), producer_of(
                    ops@,
                    ops@[i as int].inputs@[k as int]@,
                )));
            }
            if waiting {
                acc = acc + 1;
            }
            k = k + 1;
        }
        r.push(acc);
        i = i + 1;
    }
    r
}

/// Whether the operation consumes any declared model input.
fn consumes_input_exec(op: &OnnxOperation, model_inputs: &Vec<String>) -> (r: bool)
    ensures
        r == spec_consumes_input(*op, model_inputs@),
{
    let nk = op.inputs.len();
    let mut k: usize = 0;
    while k < nk
        invariant
            k <= nk == op.inputs@.len(),
            forall|k2: int, m2: int|
                0 <= k2 < k && 0 <= m2 < model_inputs@.len() ==> op.inputs@[k2]@
                    != model_inputs@[m2]@,
        decreases nk - k,
    {
        let nm = model_inputs.len();
        let mut m: usize = 0;
        while m < nm
            invariant
                m <= nm == model_inputs@.len(),
                k < op.inputs@.len(),
                forall|m2: int| 0 <= m2 < m ==> op.inputs@[k as int]@ != model_inputs@[m2]@,
            decreases nm - m,
        {
            if str_eq(op.inputs[k].as_str(), model_inputs[m].as_str()) {
                return true;
            }
            m = m + 1;
        }
        k = k + 1;
    }
    false
}

/// Mark `p` as emitted: settle every input it produces, and report the
/// operations whose last unmet input this was, in ascending index order.
fn apply_emission(
    ops: &Vec<OnnxOperation>,
    p: usize,
    indegree: &mut Vec<usize>,
    Ghost(done_old): Ghost<Seq<usize>>,
) -> (newly: Vec<usize>)
    requires
        p < ops@.len(),
        old(indegree)@.len() == ops@.len(),
        !done_has(done_old, p as int),
        unique_outputs(ops@) ==> forall|c: int|
            0 <= c < ops@.len() ==> old(indegree)@[c] == unmet_count(ops@, c, done_old),
    ensures
        final(indegree)@.len() == ops@.len(),
        unique_outputs(ops@) ==> forall|c: int|
            0 <= c < ops@.len() ==> final(indegree)@[c] == unmet_count(
                ops@,
                c,
                done_old.push(p),
            ),
        forall|c: int|
            #![trigger done_has(newly@, c)]
            done_has(newly@, c) <==> (0 <= c < ops@.len() && old(indegree)@[c] != 0
                && final(indegree)@[c] == 0),
        newly@.no_duplicates(),
        forall|a: int| 0 <= a < newly@.len() ==> newly@[a] < ops@.len(),
        forall|c: int| 0 <= c < ops@.len() && old(indegree)@[c] == 0 ==> final(indegree)@[c] == 0,
{
    let ghost done_new = done_old.push(p);
    let n = ops.len();
    let mut newly: Vec<usize> = Vec::new();
    let mut c: usize = 0;
    while c < n
        invariant
            c <= n == ops@.len(),
            p < ops@.len(),
            indegree@.len() == n,
            old(indegree)@.len() == n,
            !done_has(done_old, p as int),
            done_new == done_old.push(p),
            unique_outputs(ops@) ==> forall|x: int|
                0 <= x < ops@.len() ==> old(indegree)@[x] == unmet_count(ops@, x, done_old),
            unique_outputs(ops@) ==> forall|x: int|
                0 <= x < c ==> indegree@[x] == unmet_count(ops@, x, done_new),
            forall|x: int| c <= x < n ==> indegree@[x] == old(indegree)@[x],
            forall|x: int| 0 <= x < c && old(indegree)@[x] == 0 ==> indegree@[x] == 0,
            forall|x: int|
                #![trigger done_has(newly@, x)]
                done_has(newly@, x) <==> (0 <= x < c && old(indegree)@[x] != 0 && indegree@[x]
                    == 0),
            newly@.no_duplicates(),
            forall|a: int| 0 <= a < newly@.len() ==> newly@[a] < c,
        decreases n - c,
    {
        let before: usize = indegree[c];
        let ghost ind_c = indegree@;
        let m = ops[c].inputs.len();
        let mut k: usize = 0;
        while k < m
            invariant
                k <= m == ops@[c as int].inputs@.len(),
                c < n == ops@.len(),
                p < ops@.len(),
                indegree@.len() == n,
                ind_c.len() == n,
                !done_has(done_old, p as int),
                forall|x: int| 0 <= x < n && x != c ==> indegree@[x] == ind_c[x],
                before == ind_c[c as int],
                indegree@[c as int] <= before,
                before == 0 ==> indegree@[c as int] == 0,
                unique_outputs(ops@) ==> before == unmet_count(ops@, c as int, done_old),
                unique_outputs(ops@) ==> indegree@[c as int] == unmet_count(
                    ops@,
                    c as int,
                    done_old,
                ) - freed_upto(ops@, c as int, p as int, done_old, k as int),
            decreases m - k,
        {
            let hit = produces_exec(ops, p, &ops[c].inputs[k]);
            proof {
                if unique_outputs(ops@) {
                    let t = ops@[c as int].inputs@[k as int]@;
                    if produces(ops@, p as int, t) {
                        lemma_unique_producer(ops@, p as int, t);
                        assert(input_unmet(ops@, c as int, k as int, done_old));
                        lemma_freed_le_unmet(ops@, c as int, p as int, done_old, k as int);
                        lemma_unmet_upto_mono(
                            ops@,
                            c as int,
                            done_old,
                            k + 1,
                            ops@[c as int].inputs@.len() as int,
                        );
                    } else {
                        if has_producer(ops@, t) && producer_of(ops@, t) == p as int {
                            assert(produces(ops@, p as int, t));
                        }
                    }
                }
            }
            if hit && indegree[c] > 0 {
                let d = indegree[c] - 1;
                indegree.set(c, d);
            }
            k = k + 1;
        }
        proof {
            if unique_outputs(ops@) {
                lemma_unmet_after_push(ops@, c as int, p, done_old, m as int);
            }
        }
        let after: usize = indegree[c];
        if before != 0 && after == 0 {
            let ghost npre = newly@;
            newly.push(c);
            proof {
                assert forall|x: int|
                    done_has(newly@, x) implies (0 <= x < c + 1 && old(indegree)@[x] != 0
                    && indegree@[x] == 0) by {
                    let a = choose|a: int| 0 <= a < newly@.len() && newly@[a] as int == x;
                    if a < npre.len() {
                        assert(npre[a] as int == x);
                        assert(done_has(npre, x));
                    } else {
                        assert(x == c as int);
                    }
                }
                assert forall|x: int|
                    (0 <= x < c + 1 && old(indegree)@[x] != 0 && indegree@[x]
                        == 0) implies done_has(newly@, x) by {
                    if x < c {
                        assert(done_has(npre, x));
                        let a = choose|a: int| 0 <= a < npre.len() && npre[a] as int == x;
                        assert(newly@[a] as int == x);
                    } else {
                        assert(newly@[newly@.len() - 1] as int == x);
                    }
                }
            }
        }
        c = c + 1;
    }
    newly
}


/// A two-operation cycle is never schedulable: when each operation
/// produces the other's sole input, no valid schedule exists, so both
/// ordering functions must report an invalid model rather than loop or
/// return a partial result.
pub proof fn lemma_two_op_cycle_unschedulable(ops: Seq<OnnxOperation>)
    requires
        ops.len() == 2,
        ops[0].inputs@.len() >= 1,
        ops[1].inputs@.len() >= 1,
        produces(ops, 1, ops[0].inputs@[0]@),
        produces(ops, 0, ops[1].inputs@[0]@),
    ensures
        !schedulable(ops),
{
    if schedulable(ops) {
        let o = choose|o: Seq<usize>| valid_schedule(ops, o);
        assert(dep_edge(ops, 0, 1));
        assert(dep_edge(ops, 1, 0));
        let x = o[0] as int;
        if x == 0 {
            assert(dep_edge(ops, o[0] as int, 1));
            let b = choose|b: int| 0 <= b < 0 && o[b] as int == 1;
            assert(false);
        } else {
            assert(o[0] < 2);
            assert(x == 1);
            assert(dep_edge(ops, o[0] as int, 0));
            let b = choose|b: int| 0 <= b < 0 && o[b] as int == 0;
            assert(false);
        }
    }
}

/// After a push, membership extends by exactly the pushed index.
proof fn lemma_done_has_push_usize(q: Seq<usize>, x: usize, q2: Seq<usize>)
    requires
        q2 == q.push(x),
    ensures
        forall|c: int| done_has(q2, c) <==> (done_has(q, c) || c == x as int),
{
    assert forall|c: int| done_has(q2, c) implies (done_has(q, c) || c == x as int) by {
        let a = choose|a: int| 0 <= a < q2.len() && q2[a] as int == c;
        if a < q.len() {
            assert(q[a] as int == c);
        }
    }
    assert forall|c: int| (done_has(q, c) || c == x as int) implies done_has(q2, c) by {
        if done_has(q, c) {
            let a = choose|a: int| 0 <= a < q.len() && q[a] as int == c;
            assert(q2[a] as int == c);
        } else {
            assert(q2[q.len() as int] as int == c);
        }
    }
}

/// Queue membership and joint distinctness after a push to the back.
proof fn lemma_membership_push_back(q: Seq<usize>, x: usize, q2: Seq<usize>, ordered: Seq<usize>)
    requires
        q2 == q.push(x),
        (ordered + q).no_duplicates(),
        !done_has(ordered, x as int),
        !done_has(q, x as int),
    ensures
        forall|c: int| done_has(q2, c) <==> (done_has(q, c) || c == x as int),
        (ordered + q2).no_duplicates(),
{
    lemma_done_has_push_usize(q, x, q2);
    let comb_old = ordered + q;
    let comb_new = ordered + q2;
    assert(comb_new =~= comb_old.push(x));
    assert forall|a: int, b: int|
        0 <= a < b < comb_new.len() implies comb_new[a] != comb_new[b] by {
        if b < comb_old.len() {
            assert(comb_new[a] == comb_old[a] && comb_new[b] == comb_old[b]);
        } else {
            assert(comb_new[b] == x);
            if comb_new[a] == x {
                if a < ordered.len() {
                    assert(ordered[a] as int == x as int);
                } else {
                    assert(q[a - ordered.len()] as int == x as int);
                }
            }
        }
    }
}

/// Queue membership and joint distinctness after an insert at the front.
proof fn lemma_membership_insert_front(q: Seq<usize>, x: usize, q2: Seq<usize>, ordered: Seq<usize>)
    requires
        q2 == q.insert(0, x),
        (ordered + q).no_duplicates(),
        !done_has(ordered, x as int),
        !done_has(q, x as int),
    ensures
        forall|c: int| done_has(q2, c) <==> (done_has(q, c) || c == x as int),
        (ordered + q2).no_duplicates(),
{
    assert(q2 =~= seq![x] + q);
    assert forall|c: int| done_has(q2, c) implies (done_has(q, c) || c == x as int) by {
        let a = choose|a: int| 0 <= a < q2.len() && q2[a] as int == c;
        if a >= 1 {
            assert(q[a - 1] as int == c);
        }
    }
    assert forall|c: int| (done_has(q, c) || c == x as int) implies done_has(q2, c) by {
        if done_has(q, c) {
            let a = choose|a: int| 0 <= a < q.len() && q[a] as int == c;
            assert(q2[a + 1] as int == c);
        } else {
            assert(q2[0] as int == c);
        }
    }
    let comb_old = ordered + q;
    let comb_new = ordered + q2;
    let ol = ordered.len() as int;
    assert forall|a: int, b: int|
        0 <= a < b < comb_new.len() implies comb_new[a] != comb_new[b] by {
        if a < ol && b < ol {
            assert(comb_new[a] == comb_old[a] && comb_new[b] == comb_old[b]);
        } else if a < ol {
            assert(comb_new[a] == comb_old[a]);
            if b == ol {
                assert(comb_new[b] == x);
                if comb_new[a] == x {
                    assert(ordered[a] as int == x as int);
                }
            } else {
                assert(comb_new[b] == q[b - ol - 1]);
                assert(comb_old[ol + (b - ol - 1)] == q[b - ol - 1]);
            }
        } else if a == ol {
            assert(comb_new[a] == x);
            assert(comb_new[b] == q[b - ol - 1]);
            if comb_new[b] == x {
                assert(q[b - ol - 1] as int == x as int);
            }
        } else {
            assert(comb_new[a] == q[a - ol - 1]);
            assert(comb_new[b] == q[b - ol - 1]);
            assert(comb_old[a - 1] == comb_new[a]);
            assert(comb_old[b - 1] == comb_new[b]);
        }
    }
}

/// Kahn's algorithm over the producer-backed dependency graph.
///
/// The frontier is seeded with the operations whose inputs have no
/// producer, in ascending index order; each emission settles its outputs'
/// consumers, and consumers that become ready join the frontier, again in
/// ascending order. With `prioritize`, operations that consume a declared
/// model input go to the front of the frontier and ahead of the seed's
/// weight-only operations, so input-dependent work is scheduled earlier.
///
/// Fails with an invalid-model error exactly when fewer operations come
/// out than exist; under `unique_outputs` that happens exactly on graphs
/// with no valid schedule.
pub(crate) fn kahn_core(
    ops: &Vec<OnnxOperation>,
    model_inputs: &Vec<String>,
    prioritize: bool,
) -> (r: Result<Vec<usize>, Error>)
    ensures
        r matches Ok(o) ==> {
            &&& o@.len() == ops@.len()
            &&& forall|a: int| 0 <= a < o@.len() ==> o@[a] < ops@.len()
            &&& o@.no_duplicates()
        },
        unique_outputs(ops@) ==> match r {
            Ok(o) => valid_schedule(ops@, o@) && schedulable(ops@),
            Err(_) => !schedulable(ops@),
        },
        r matches Err(e) ==> e is InvalidModel,
        prioritize ==> (r matches Ok(o) ==> forall|a: int, b: int|
            0 <= a < o@.len() && 0 <= b < o@.len() && seed_input(
                ops@,
                model_inputs@,
                o@[a] as int,
            ) && seed_param(ops@, model_inputs@, o@[b] as int) ==> a < b),
        !prioritize ==> (r matches Ok(o) ==> forall|a: int, b: int|
            #![trigger o@[a], o@[b]]
            0 <= a < o@.len() && 0 <= b < o@.len() && ready_at_start(ops@, o@[a] as int)
                && ready_at_start(ops@, o@[b] as int) && o@[a] < o@[b] ==> a < b),
        prioritize && unique_outputs(ops@) ==> (r matches Ok(o) ==> forall|a: int, b: int|
            #![trigger o@[a], o@[b]]
            0 <= a < o@.len() && 0 <= b < o@.len() && spec_consumes_input(
                ops@[o@[a] as int],
                model_inputs@,
            ) && !spec_consumes_input(ops@[o@[b] as int], model_inputs@) && released_together(
                ops@,
                o@,
                o@[a] as int,
                o@[b] as int,
                o@.len() as int,
            ) ==> a < b),
{
    let n = ops.len();
    let mut indegree = compute_indegree(ops);
    proof {
        assert forall|c: int|
            0 <= c < ops@.len() && ready_at_start(ops@, c) implies indegree@[c] == 0 by {
            lemma_ready_iff_unmet_zero(ops@, c);
        }
    }
    let mut queue: Vec<usize> = Vec::new();
    let mut ordered: Vec<usize> = Vec::new();

    // seed the frontier with ready operations, input consumers ahead of
    // weight-only operations when prioritizing
    if prioritize {
        let mut i: usize = 0;
        while i < n
            invariant
                i <= n == ops@.len() == indegree@.len(),
                forall|a: int| 0 <= a < queue@.len() ==> queue@[a] < i,
                queue@.no_duplicates(),
                forall|c: int|
                    #![trigger done_has(queue@, c)]
                    done_has(queue@, c) ==> 0 <= c < i && indegree@[c] == 0
                        && spec_consumes_input(ops@[c], model_inputs@),
                forall|c: int|
                    0 <= c < i && indegree@[c] == 0 && spec_consumes_input(
                        ops@[c],
                        model_inputs@,
                    ) ==> done_has(queue@, c),
                forall|a: int|
                    0 <= a < queue@.len() ==> spec_consumes_input(
                        ops@[#[trigger] queue@[a] as int],
                        model_inputs@,
                    ),
            decreases n - i,
        {
            if indegree[i] == 0 && consumes_input_exec(&ops[i], model_inputs) {
                let ghost qpre = queue@;
                queue.push(i);
                proof {
                    lemma_done_has_push_usize(qpre, i, queue@);
                }
            }
            i = i + 1;
        }
        let mut i: usize = 0;
        while i < n
            invariant
                i <= n == ops@.len() == indegree@.len(),
                forall|a: int| 0 <= a < queue@.len() ==> queue@[a] < n,
                queue@.no_duplicates(),
                forall|c: int|
                    #![trigger done_has(queue@, c)]
                    done_has(queue@, c) ==> 0 <= c < n && indegree@[c] == 0
                        && (spec_consumes_input(ops@[c], model_inputs@) || c < i),
                forall|c: int|
                    0 <= c < n && indegree@[c] == 0 && spec_consumes_input(
                        ops@[c],
                        model_inputs@,
                    ) ==> done_has(queue@, c),
                forall|c: int|
                    0 <= c < i && indegree@[c] == 0 && !spec_consumes_input(
                        ops@[c],
                        model_inputs@,
                    ) ==> done_has(queue@, c),
                forall|u: int, v: int|
                    0 <= u < queue@.len() && 0 <= v < queue@.len() && !spec_consumes_input(
                        ops@[#[trigger] queue@[u] as int],
                        model_inputs@,
                    ) && spec_consumes_input(
                        ops@[#[trigger] queue@[v] as int],
                        model_inputs@,
                    ) ==> v < u,
            decreases n - i,
        {
            if indegree[i] == 0 {
                if !consumes_input_exec(&ops[i], model_inputs) {
                    let ghost qpre = queue@;
                    proof {
                        assert(!done_has(qpre, i as int));
                    }
                    queue.push(i);
                    proof {
                        lemma_done_has_push_usize(qpre, i, queue@);
                        assert forall|a: int, b: int|
                            0 <= a < b < queue@.len() implies queue@[a] != queue@[b] by {
                            if b == queue@.len() - 1 && queue@[a] == queue@[b] {
                                assert(qpre[a] as int == i as int);
                                assert(done_has(qpre, i as int));
                            }
                        }
                    }
                }
            }
            i = i + 1;
        }
    } else {
        let mut i: usize = 0;
        while i < n
            invariant
                i <= n == ops@.len() == indegree@.len(),
                forall|a: int| 0 <= a < queue@.len() ==> queue@[a] < i,
                forall|a1: int, a2: int|
                    0 <= a1 < a2 < queue@.len() ==> queue@[a1] < queue@[a2],
                queue@.no_duplicates(),
                forall|c: int|
                    #![trigger done_has(queue@, c)]
                    done_has(queue@, c) ==> 0 <= c < i && indegree@[c] == 0,
                forall|c: int| 0 <= c < i && indegree@[c] == 0 ==> done_has(queue@, c),
            decreases n - i,
        {
            if indegree[i] == 0 {
                let ghost qpre = queue@;
                queue.push(i);
                proof {
                    lemma_done_has_push_usize(qpre, i, queue@);
                }
            }
            i = i + 1;
        }
    }

    proof {
        assert((ordered@ + queue@) =~= queue@);
        if !prioritize {
            assert forall|qa: int, i: int|
                #![trigger queue@[qa], ready_at_start(ops@, i)]
                0 <= qa < queue@.len() && ready_at_start(ops@, queue@[qa] as int) && 0 <= i < n
                    && ready_at_start(ops@, i) && i < queue@[qa] implies (done_has(ordered@, i)
                || exists|qb: int| 0 <= qb < qa && queue@[qb] as int == i) by {
                assert(indegree@[i] == 0);
                assert(done_has(queue@, i));
                let qb = choose|qb: int| 0 <= qb < queue@.len() && queue@[qb] as int == i;
                assert(qb < qa);
            }
        }
        if prioritize {
            assert forall|qa: int, i: int|
                0 <= qa < queue@.len() && seed_param(ops@, model_inputs@, queue@[qa] as int)
                    && seed_input(ops@, model_inputs@, i) implies (done_has(ordered@, i) || exists|
                qb: int,
            |
                0 <= qb < qa && queue@[qb] as int == i) by {
                assert(indegree@[i] == 0);
                assert(done_has(queue@, i));
                let qb = choose|qb: int| 0 <= qb < queue@.len() && queue@[qb] as int == i;
                assert(qb < qa);
            }
        }
        if prioritize && unique_outputs(ops@) {
            assert forall|qa: int, i: int|
                #![trigger queue@[qa], spec_consumes_input(ops@[i], model_inputs@)]
                0 <= qa < queue@.len() && !spec_consumes_input(
                    ops@[queue@[qa] as int],
                    model_inputs@,
                ) && 0 <= i < n && spec_consumes_input(ops@[i], model_inputs@)
                    && released_together(
                    ops@,
                    ordered@,
                    i,
                    queue@[qa] as int,
                    ordered@.len() as int,
                ) implies (done_has(ordered@, i) || exists|qb: int|
                0 <= qb < qa && queue@[qb] as int == i) by {
                let j = queue@[qa] as int;
                // the queued operation is a seed: its unmet count over the
                // empty prefix is its zero indegree
                assert(ordered@.take(0) =~= Seq::<usize>::empty());
                assert(done_has(queue@, j)) by {
                    assert(queue@[qa] as int == j);
                }
                assert(indegree@[j] == 0);
                assert(unmet_count(ops@, j, Seq::<usize>::empty()) == 0);
                assert((unmet_count(ops@, i, ordered@.take(0)) == 0) <==> (unmet_count(
                    ops@,
                    j,
                    ordered@.take(0),
                ) == 0));
                assert(unmet_count(ops@, i, Seq::<usize>::empty()) == 0);
                lemma_ready_iff_unmet_zero(ops@, i);
                assert(seed_input(ops@, model_inputs@, i));
                assert(indegree@[i] == 0);
                assert(done_has(queue@, i));
                let qb = choose|qb: int| 0 <= qb < queue@.len() && queue@[qb] as int == i;
                assert(qb < qa);
            }
        }
    }

    while queue.len() > 0
        invariant
            n == ops@.len() == indegree@.len(),
            forall|a: int| 0 <= a < ordered@.len() ==> ordered@[a] < n,
            forall|a: int| 0 <= a < queue@.len() ==> queue@[a] < n,
            (ordered@ + queue@).no_duplicates(),
            forall|c: int|
                0 <= c < n ==> ((done_has(ordered@, c) || done_has(queue@, c)) <==> indegree@[c]
                    == 0),
            forall|c: int| 0 <= c < n && ready_at_start(ops@, c) ==> indegree@[c] == 0,
            unique_outputs(ops@) ==> forall|c: int|
                0 <= c < n ==> indegree@[c] == unmet_count(ops@, c, ordered@),
            unique_outputs(ops@) ==> forall|a: int, j: int|
                0 <= a < ordered@.len() && dep_edge(ops@, ordered@[a] as int, j) ==> exists|b: int|
                    0 <= b < a && ordered@[b] as int == j,
            prioritize ==> forall|a: int, i: int|
                0 <= a < ordered@.len() && seed_param(ops@, model_inputs@, ordered@[a] as int)
                    && seed_input(ops@, model_inputs@, i) ==> exists|b: int|
                    0 <= b < a && ordered@[b] as int == i,
            prioritize ==> forall|qa: int, i: int|
                0 <= qa < queue@.len() && seed_param(ops@, model_inputs@, queue@[qa] as int)
                    && seed_input(ops@, model_inputs@, i) ==> (done_has(ordered@, i) || exists|
                qb: int,
            |
                0 <= qb < qa && queue@[qb] as int == i),
            !prioritize ==> forall|a: int, i: int|
                #![trigger ordered@[a], ready_at_start(ops@, i)]
                0 <= a < ordered@.len() && ready_at_start(ops@, ordered@[a] as int) && 0 <= i < n
                    && ready_at_start(ops@, i) && i < ordered@[a] ==> exists|b: int|
                    0 <= b < a && ordered@[b] as int == i,
            !prioritize ==> forall|qa: int, i: int|
                #![trigger queue@[qa], ready_at_start(ops@, i)]
                0 <= qa < queue@.len() && ready_at_start(ops@, queue@[qa] as int) && 0 <= i < n
                    && ready_at_start(ops@, i) && i < queue@[qa] ==> (done_has(ordered@, i)
                    || exists|qb: int| 0 <= qb < qa && queue@[qb] as int == i),
            (prioritize && unique_outputs(ops@)) ==> forall|a: int, i: int|
                #![trigger ordered@[a], spec_consumes_input(ops@[i], model_inputs@)]
                0 <= a < ordered@.len() && !spec_consumes_input(
                    ops@[ordered@[a] as int],
                    model_inputs@,
                ) && 0 <= i < n && spec_consumes_input(ops@[i], model_inputs@)
                    && released_together(
                    ops@,
                    ordered@,
                    i,
                    ordered@[a] as int,
                    ordered@.len() as int,
                ) ==> exists|b: int| 0 <= b < a && ordered@[b] as int == i,
            (prioritize && unique_outputs(ops@)) ==> forall|qa: int, i: int|
                #![trigger queue@[qa], spec_consumes_input(ops@[i], model_inputs@)]
                0 <= qa < queue@.len() && !spec_consumes_input(
                    ops@[queue@[qa] as int],
                    model_inputs@,
                ) && 0 <= i < n && spec_consumes_input(ops@[i], model_inputs@)
                    && released_together(
                    ops@,
                    ordered@,
                    i,
                    queue@[qa] as int,
                    ordered@.len() as int,
                ) ==> (done_has(ordered@, i) || exists|qb: int|
                    0 <= qb < qa && queue@[qb] as int == i),
        decreases n - ordered@.len(),
    {
        proof {
            lemma_distinct_le(ordered@ + queue@, n as int);
        }
        let ghost oldq = queue@;
        let p = queue.remove(0);
        let ghost done_old = ordered@;
        proof {
            assert(oldq =~= seq![p] + queue@);
            assert(!done_has(done_old, p as int)) by {
                if done_has(done_old, p as int) {
                    let a = choose|a: int|
                        0 <= a < done_old.len() && done_old[a] as int == p as int;
                    let comb = done_old + oldq;
                    assert(comb[a] == comb[done_old.len() as int]);
                }
            }
            assert(!done_has(queue@, p as int)) by {
                if done_has(queue@, p as int) {
                    let a = choose|a: int| 0 <= a < queue@.len() && queue@[a] as int == p as int;
                    let comb = done_old + oldq;
                    assert(comb[done_old.len() + 1 + a] == oldq[1 + a]);
                    assert(comb[done_old.len() + 1 + a] == comb[done_old.len() as int]);
                }
            }
        }
        let ghost ind_old = indegree@;
        let newly = apply_emission(ops, p, &mut indegree, Ghost(done_old));
        ordered.push(p);
        proof {
            // joint distinctness after moving p from the queue's head
            assert((ordered@ + queue@) =~= (done_old + oldq).remove(done_old.len() as int).insert(
                done_old.len() as int,
                p,
            )) by {
                assert(ordered@ + queue@ =~= done_old + oldq);
            }
            assert((ordered@ + queue@) =~= done_old + oldq);
            // membership: ordered gained p, the queue lost it
            lemma_done_has_push_usize(done_old, p, ordered@);
            assert forall|c: int| done_has(oldq, c) implies (done_has(queue@, c) || c
                == p as int) by {
                let a = choose|a: int| 0 <= a < oldq.len() && oldq[a] as int == c;
                if a >= 1 {
                    assert(queue@[a - 1] as int == c);
                }
            }
            assert forall|c: int| done_has(queue@, c) implies done_has(oldq, c) by {
                let a = choose|a: int| 0 <= a < queue@.len() && queue@[a] as int == c;
                assert(oldq[a + 1] as int == c);
            }
            if !prioritize {
                // seed ordering: seeds leave the frontier in ascending index
                // order, ahead of everything they preceded in the queue
                assert forall|a: int, i: int|
                    #![trigger ordered@[a], ready_at_start(ops@, i)]
                    0 <= a < ordered@.len() && ready_at_start(ops@, ordered@[a] as int) && 0 <= i
                        < n && ready_at_start(ops@, i) && i < ordered@[a] implies exists|b: int|
                    0 <= b < a && ordered@[b] as int == i by {
                    if a < ordered@.len() - 1 {
                        assert(done_old[a] == ordered@[a]);
                        let b = choose|b: int| 0 <= b < a && done_old[b] as int == i;
                        assert(ordered@[b] as int == i);
                    } else {
                        assert(ordered@[a] == p);
                        assert(oldq[0] as int == p as int);
                        assert(done_has(done_old, i) || exists|qb: int|
                            0 <= qb < 0 && oldq[qb] as int == i);
                        let b = choose|b: int| 0 <= b < done_old.len() && done_old[b] as int == i;
                        assert(ordered@[b] as int == i);
                    }
                }
                assert forall|qa: int, i: int|
                    #![trigger queue@[qa], ready_at_start(ops@, i)]
                    0 <= qa < queue@.len() && ready_at_start(ops@, queue@[qa] as int) && 0 <= i
                        < n && ready_at_start(ops@, i) && i < queue@[qa] implies (done_has(
                    ordered@,
                    i,
                ) || exists|qb: int| 0 <= qb < qa && queue@[qb] as int == i) by {
                    assert(queue@[qa] == oldq[qa + 1]);
                    assert(done_has(done_old, i) || exists|qb: int|
                        0 <= qb < qa + 1 && oldq[qb] as int == i);
                    if done_has(done_old, i) {
                        let b = choose|b: int| 0 <= b < done_old.len() && done_old[b] as int == i;
                        assert(ordered@[b] as int == i);
                    } else {
                        let qb = choose|qb: int| 0 <= qb < qa + 1 && oldq[qb] as int == i;
                        if qb == 0 {
                            assert(i == p as int);
                            assert(ordered@[ordered@.len() - 1] as int == i);
                        } else {
                            assert(queue@[qb - 1] as int == i);
                        }
                    }
                }
            }
            if prioritize && unique_outputs(ops@) {
                // round ordering: whatever round an operation pair shares,
                // the input consumer leaves the frontier first
                assert(done_old == ordered@.take(done_old.len() as int)) by {
                    assert(done_old =~= ordered@.take(done_old.len() as int));
                }
                assert forall|a: int, i: int|
                    #![trigger ordered@[a], spec_consumes_input(ops@[i], model_inputs@)]
                    0 <= a < ordered@.len() && !spec_consumes_input(
                        ops@[ordered@[a] as int],
                        model_inputs@,
                    ) && 0 <= i < n && spec_consumes_input(ops@[i], model_inputs@)
                        && released_together(
                        ops@,
                        ordered@,
                        i,
                        ordered@[a] as int,
                        ordered@.len() as int,
                    ) implies exists|b: int| 0 <= b < a && ordered@[b] as int == i by {
                    lemma_released_together_prefix(
                        ops@,
                        done_old,
                        ordered@,
                        i,
                        ordered@[a] as int,
                        done_old.len() as int,
                    );
                    if a < ordered@.len() - 1 {
                        assert(done_old[a] == ordered@[a]);
                        assert(released_together(
                            ops@,
                            done_old,
                            i,
                            done_old[a] as int,
                            done_old.len() as int,
                        ));
                        let b = choose|b: int| 0 <= b < a && done_old[b] as int == i;
                        assert(ordered@[b] as int == i);
                    } else {
                        assert(ordered@[a] == p);
                        assert(oldq[0] as int == p as int);
                        assert(released_together(
                            ops@,
                            done_old,
                            i,
                            p as int,
                            done_old.len() as int,
                        ));
                        assert(done_has(done_old, i) || exists|qb: int|
                            0 <= qb < 0 && oldq[qb] as int == i);
                        let b = choose|b: int| 0 <= b < done_old.len() && done_old[b] as int == i;
                        assert(ordered@[b] as int == i);
                    }
                }
                assert forall|qa: int, i: int|
                    #![trigger queue@[qa], spec_consumes_input(ops@[i], model_inputs@)]
                    0 <= qa < queue@.len() && !spec_consumes_input(
                        ops@[queue@[qa] as int],
                        model_inputs@,
                    ) && 0 <= i < n && spec_consumes_input(ops@[i], model_inputs@)
                        && released_together(
                        ops@,
                        ordered@,
                        i,
                        queue@[qa] as int,
                        ordered@.len() as int,
                    ) implies (done_has(ordered@, i) || exists|qb: int|
                    0 <= qb < qa && queue@[qb] as int == i) by {
                    assert(queue@[qa] == oldq[qa + 1]);
                    lemma_released_together_prefix(
                        ops@,
                        done_old,
                        ordered@,
                        i,
                        queue@[qa] as int,
                        done_old.len() as int,
                    );
                    assert(released_together(
                        ops@,
                        done_old,
                        i,
                        queue@[qa] as int,
                        done_old.len() as int,
                    ));
                    assert(done_has(done_old, i) || exists|qb: int|
                        0 <= qb < qa + 1 && oldq[qb] as int == i);
                    if done_has(done_old, i) {
                        let b = choose|b: int| 0 <= b < done_old.len() && done_old[b] as int == i;
                        assert(ordered@[b] as int == i);
                    } else {
                        let qb = choose|qb: int| 0 <= qb < qa + 1 && oldq[qb] as int == i;
                        if qb == 0 {
                            assert(i == p as int);
                            assert(ordered@[ordered@.len() - 1] as int == i);
                        } else {
                            assert(queue@[qb - 1] as int == i);
                        }
                    }
                }
            }
            if prioritize {
                // seed ordering: a weight-only seed leaves the frontier only
                // after every input-consuming seed has been emitted
                assert forall|a: int, i: int|
                    0 <= a < ordered@.len() && seed_param(ops@, model_inputs@, ordered@[a] as int)
                        && seed_input(ops@, model_inputs@, i) implies exists|b: int|
                    0 <= b < a && ordered@[b] as int == i by {
                    if a < ordered@.len() - 1 {
                        assert(done_old[a] == ordered@[a]);
                        let b = choose|b: int| 0 <= b < a && done_old[b] as int == i;
                        assert(ordered@[b] as int == i);
                    } else {
                        assert(ordered@[a] == p);
                        assert(seed_param(ops@, model_inputs@, p as int));
                        assert(oldq[0] as int == p as int);
                        assert(done_has(done_old, i) || exists|qb: int|
                            0 <= qb < 0 && oldq[qb] as int == i);
                        let b = choose|b: int| 0 <= b < done_old.len() && done_old[b] as int == i;
                        assert(ordered@[b] as int == i);
                    }
                }
                assert forall|qa: int, i: int|
                    0 <= qa < queue@.len() && seed_param(ops@, model_inputs@, queue@[qa] as int)
                        && seed_input(ops@, model_inputs@, i) implies (done_has(ordered@, i)
                    || exists|qb: int| 0 <= qb < qa && queue@[qb] as int == i) by {
                    assert(queue@[qa] == oldq[qa + 1]);
                    assert(done_has(done_old, i) || exists|qb: int|
                        0 <= qb < qa + 1 && oldq[qb] as int == i);
                    if done_has(done_old, i) {
                        let b = choose|b: int| 0 <= b < done_old.len() && done_old[b] as int == i;
                        assert(ordered@[b] as int == i);
                    } else {
                        let qb = choose|qb: int| 0 <= qb < qa + 1 && oldq[qb] as int == i;
                        if qb == 0 {
                            assert(i == p as int);
                            assert(ordered@[ordered@.len() - 1] as int == i);
                        } else {
                            assert(queue@[qb - 1] as int == i);
                        }
                    }
                }
            }
            // precedence for the newly emitted operation
            if unique_outputs(ops@) {
                assert forall|a: int, j: int|
                    0 <= a < ordered@.len() && dep_edge(ops@, ordered@[a] as int, j) implies exists|
                    b: int,
                |
                    0 <= b < a && ordered@[b] as int == j by {
                    if a < ordered@.len() - 1 {
                        assert(done_old[a] == ordered@[a]);
                        let b = choose|b: int| 0 <= b < a && done_old[b] as int == j;
                        assert(ordered@[b] as int == j);
                    } else {
                        assert(ordered@[a] == p);
                        assert(unmet_count(ops@, p as int, done_old) == 0);
                        lemma_unmet_zero_iff(
                            ops@,
                            p as int,
                            done_old,
                            ops@[p as int].inputs@.len() as int,
                        );
                        let k = choose|k: int|
                            0 <= k < ops@[p as int].inputs@.len() && produces(
                                ops@,
                                j,
                                ops@[p as int].inputs@[k]@,
                            );
                        lemma_unique_producer(ops@, j, ops@[p as int].inputs@[k]@);
                        assert(!input_unmet(ops@, p as int, k, done_old));
                        assert(done_has(done_old, j));
                        let b = choose|b: int|
                            0 <= b < done_old.len() && done_old[b] as int == j;
                        assert(ordered@[b] as int == j);
                    }
                }
            }
        }
        proof {
            // the fresh operations are not yet tracked anywhere
            assert(done_has(oldq, p as int)) by {
                assert(oldq[0] as int == p as int);
            }
            assert forall|x: int|
                0 <= x < newly@.len() implies !done_has(ordered@, newly@[x] as int) && !done_has(
                queue@,
                newly@[x] as int,
            ) by {
                let c = newly@[x] as int;
                assert(done_has(newly@, c)) by {
                    assert(newly@[x] as int == c);
                }
                assert(ind_old[c] != 0);
                assert(!done_has(done_old, c) && !done_has(oldq, c));
                if done_has(queue@, c) {
                    assert(done_has(oldq, c));
                }
            }
            // the zero set after the emission is the old one plus the fresh ones
            assert forall|c: int|
                0 <= c < n implies ((done_has(ordered@, c) || done_has(queue@, c) || exists|x: int|
                0 <= x < newly@.len() && newly@[x] as int == c) <==> indegree@[c] == 0) by {
                if indegree@[c] == 0 {
                    if ind_old[c] != 0 {
                        assert(done_has(newly@, c));
                        let x = choose|x: int| 0 <= x < newly@.len() && newly@[x] as int == c;
                    } else {
                        assert(done_has(done_old, c) || done_has(oldq, c));
                        if done_has(done_old, c) {
                            let b = choose|b: int|
                                0 <= b < done_old.len() && done_old[b] as int == c;
                            assert(ordered@[b] as int == c);
                        }
                    }
                } else {
                    assert(ind_old[c] != 0);
                    if done_has(ordered@, c) {
                        assert(done_has(done_old, c) || c == p as int);
                    }
                    if done_has(queue@, c) {
                        assert(done_has(oldq, c));
                    }
                    if exists|x: int| 0 <= x < newly@.len() && newly@[x] as int == c {
                        let x = choose|x: int| 0 <= x < newly@.len() && newly@[x] as int == c;
                        assert(done_has(newly@, c)) by {
                            assert(newly@[x] as int == c);
                        }
                    }
                }
            }
        }
        proof {
            assert forall|x2: int|
                0 <= x2 < newly@.len() implies !ready_at_start(
                ops@,
                newly@[x2] as int,
            ) by {
                let c = newly@[x2] as int;
                assert(done_has(newly@, c)) by {
                    assert(newly@[x2] as int == c);
                }
                assert(ind_old[c] != 0);
            }
        }
        // enqueue the operations that just became ready
        let nn = newly.len();
        let mut m: usize = 0;
        while m < nn
            invariant
                prioritize ==> forall|qa: int, i: int|
                    0 <= qa < queue@.len() && seed_param(ops@, model_inputs@, queue@[qa] as int)
                        && seed_input(ops@, model_inputs@, i) ==> (done_has(ordered@, i) || exists|
                    qb: int,
                |
                    0 <= qb < qa && queue@[qb] as int == i),
                (prioritize && unique_outputs(ops@)) ==> forall|qa: int, i: int|
                    #![trigger queue@[qa], spec_consumes_input(ops@[i], model_inputs@)]
                    0 <= qa < queue@.len() && !spec_consumes_input(
                        ops@[queue@[qa] as int],
                        model_inputs@,
                    ) && 0 <= i < n && spec_consumes_input(ops@[i], model_inputs@)
                        && released_together(
                        ops@,
                        ordered@,
                        i,
                        queue@[qa] as int,
                        ordered@.len() as int,
                    ) ==> (done_has(ordered@, i) || (exists|qb: int|
                        0 <= qb < qa && queue@[qb] as int == i) || (exists|x2: int|
                        m <= x2 < nn && newly@[x2] as int == i)),
                unique_outputs(ops@) ==> forall|c: int|
                    0 <= c < n ==> indegree@[c] == unmet_count(ops@, c, ordered@),
                ind_old.len() == n,
                forall|c: int|
                    #![trigger done_has(newly@, c)]
                    done_has(newly@, c) <==> (0 <= c < n && ind_old[c] != 0 && indegree@[c] == 0),
                ordered@ == done_old.push(p),
                unique_outputs(ops@) ==> forall|c: int|
                    0 <= c < n ==> ind_old[c] == unmet_count(ops@, c, done_old),
                !prioritize ==> forall|qa: int, i: int|
                    #![trigger queue@[qa], ready_at_start(ops@, i)]
                    0 <= qa < queue@.len() && ready_at_start(ops@, queue@[qa] as int) && 0 <= i
                        < n && ready_at_start(ops@, i) && i < queue@[qa] ==> (done_has(
                        ordered@,
                        i,
                    ) || exists|qb: int| 0 <= qb < qa && queue@[qb] as int == i),
                forall|x2: int| 0 <= x2 < nn ==> !ready_at_start(ops@, newly@[x2] as int),
                m <= nn == newly@.len(),
                n == ops@.len() == indegree@.len(),
                newly@.no_duplicates(),
                forall|a: int| 0 <= a < newly@.len() ==> newly@[a] < n,
                forall|a: int| 0 <= a < ordered@.len() ==> ordered@[a] < n,
                forall|a: int| 0 <= a < queue@.len() ==> queue@[a] < n,
                (ordered@ + queue@).no_duplicates(),
                forall|x: int|
                    m <= x < nn ==> !done_has(ordered@, newly@[x] as int) && !done_has(
                        queue@,
                        newly@[x] as int,
                    ),
                forall|c: int|
                    0 <= c < n ==> ((done_has(ordered@, c) || done_has(queue@, c) || exists|x: int|
                        m <= x < nn && newly@[x] as int == c) <==> indegree@[c] == 0),
            decreases nn - m,
        {
            let x = newly[m];
            let ghost qpre = queue@;
            if prioritize && consumes_input_exec(&ops[x], model_inputs) {
                queue.insert(0, x);
                proof {
                    lemma_membership_insert_front(qpre, x, queue@, ordered@);
                    assert(queue@ =~= seq![x] + qpre);
                    assert forall|qa: int, i: int|
                        0 <= qa < queue@.len() && seed_param(
                            ops@,
                            model_inputs@,
                            queue@[qa] as int,
                        ) && seed_input(ops@, model_inputs@, i) implies (done_has(ordered@, i)
                        || exists|qb: int| 0 <= qb < qa && queue@[qb] as int == i) by {
                        assert(!ready_at_start(ops@, newly@[m as int] as int));
                        assert(qa >= 1);
                        assert(queue@[qa] == qpre[qa - 1]);
                        if !done_has(ordered@, i) {
                            let qb = choose|qb: int| 0 <= qb < qa - 1 && qpre[qb] as int == i;
                            assert(queue@[qb + 1] as int == i);
                        }
                    }
                    if unique_outputs(ops@) {
                        assert forall|qa: int, i: int|
                            #![trigger queue@[qa], spec_consumes_input(ops@[i], model_inputs@)]
                            0 <= qa < queue@.len() && !spec_consumes_input(
                                ops@[queue@[qa] as int],
                                model_inputs@,
                            ) && 0 <= i < n && spec_consumes_input(ops@[i], model_inputs@)
                                && released_together(
                                ops@,
                                ordered@,
                                i,
                                queue@[qa] as int,
                                ordered@.len() as int,
                            ) implies (done_has(ordered@, i) || (exists|qb: int|
                            0 <= qb < qa && queue@[qb] as int == i) || (exists|x2: int|
                            m + 1 <= x2 < nn && newly@[x2] as int == i)) by {
                            assert(spec_consumes_input(ops@[x as int], model_inputs@));
                            assert(qa >= 1);
                            assert(queue@[qa] == qpre[qa - 1]);
                            if !done_has(ordered@, i) {
                                if exists|qb: int| 0 <= qb < qa - 1 && qpre[qb] as int == i {
                                    let qb = choose|qb: int|
                                        0 <= qb < qa - 1 && qpre[qb] as int == i;
                                    assert(queue@[qb + 1] as int == i);
                                } else {
                                    let x2 = choose|x2: int|
                                        m <= x2 < nn && newly@[x2] as int == i;
                                    if x2 == m {
                                        assert(queue@[0] as int == i);
                                    }
                                }
                            }
                        }
                    }
                }
            } else {
                queue.push(x);
                proof {
                    lemma_membership_push_back(qpre, x, queue@, ordered@);
                    if prioritize && unique_outputs(ops@) {
                        assert forall|qa: int, i: int|
                            #![trigger queue@[qa], spec_consumes_input(ops@[i], model_inputs@)]
                            0 <= qa < queue@.len() && !spec_consumes_input(
                                ops@[queue@[qa] as int],
                                model_inputs@,
                            ) && 0 <= i < n && spec_consumes_input(ops@[i], model_inputs@)
                                && released_together(
                                ops@,
                                ordered@,
                                i,
                                queue@[qa] as int,
                                ordered@.len() as int,
                            ) implies (done_has(ordered@, i) || (exists|qb: int|
                            0 <= qb < qa && queue@[qb] as int == i) || (exists|x2: int|
                            m + 1 <= x2 < nn && newly@[x2] as int == i)) by {
                            if qa < qpre.len() {
                                assert(queue@[qa] == qpre[qa]);
                                if !done_has(ordered@, i) {
                                    if exists|qb: int| 0 <= qb < qa && qpre[qb] as int == i {
                                        let qb = choose|qb: int|
                                            0 <= qb < qa && qpre[qb] as int == i;
                                        assert(queue@[qb] as int == i);
                                    } else {
                                        let x2 = choose|x2: int|
                                            m <= x2 < nn && newly@[x2] as int == i;
                                        if x2 == m {
                                            assert(newly@[m as int] as int == x as int);
                                            assert(spec_consumes_input(
                                                ops@[i],
                                                model_inputs@,
                                            ));
                                            assert(!spec_consumes_input(
                                                ops@[x as int],
                                                model_inputs@,
                                            ));
                                            assert(false);
                                        }
                                    }
                                }
                            } else {
                                // the new weight-only arrival: anything that
                                // shares its round was freed by this same
                                // emission and already sits ahead of it
                                assert(queue@[qa] as int == x as int);
                                assert(newly@[m as int] as int == x as int);
                                assert(done_has(newly@, x as int));
                                assert(ind_old[x as int] != 0 && indegree@[x as int] == 0);
                                assert(unmet_count(ops@, x as int, done_old) != 0);
                                assert(unmet_count(ops@, x as int, ordered@) == 0);
                                assert(ordered@.take(ordered@.len() as int) =~= ordered@);
                                assert(ordered@.take(ordered@.len() - 1) =~= done_old);
                                assert((unmet_count(
                                    ops@,
                                    i,
                                    ordered@.take(ordered@.len() as int),
                                ) == 0) <==> (unmet_count(
                                    ops@,
                                    x as int,
                                    ordered@.take(ordered@.len() as int),
                                ) == 0));
                                assert((unmet_count(
                                    ops@,
                                    i,
                                    ordered@.take(ordered@.len() - 1),
                                ) == 0) <==> (unmet_count(
                                    ops@,
                                    x as int,
                                    ordered@.take(ordered@.len() - 1),
                                ) == 0));
                                assert(unmet_count(ops@, i, ordered@) == 0);
                                assert(unmet_count(ops@, i, done_old) != 0);
                                assert(ind_old[i] != 0 && indegree@[i] == 0);
                                assert(done_has(ordered@, i) || done_has(qpre, i) || exists|
                                    x2: int,
                                |
                                    m <= x2 < nn && newly@[x2] as int == i);
                                if done_has(qpre, i) {
                                    let qb = choose|qb: int|
                                        0 <= qb < qpre.len() && qpre[qb] as int == i;
                                    assert(queue@[qb] as int == i);
                                } else if exists|x2: int|
                                    m <= x2 < nn && newly@[x2] as int == i {
                                    let x2 = choose|x2: int|
                                        m <= x2 < nn && newly@[x2] as int == i;
                                    if x2 == m {
                                        assert(false);
                                    }
                                }
                            }
                        }
                    }
                    if !prioritize {
                        assert forall|qa: int, i: int|
                            #![trigger queue@[qa], ready_at_start(ops@, i)]
                            0 <= qa < queue@.len() && ready_at_start(
                                ops@,
                                queue@[qa] as int,
                            ) && 0 <= i < n && ready_at_start(ops@, i) && i
                                < queue@[qa] implies (done_has(ordered@, i) || exists|qb: int|
                            0 <= qb < qa && queue@[qb] as int == i) by {
                            assert(!ready_at_start(ops@, newly@[m as int] as int));
                            assert(qa < qpre.len());
                            assert(queue@[qa] == qpre[qa]);
                            if !done_has(ordered@, i) {
                                let qb = choose|qb: int| 0 <= qb < qa && qpre[qb] as int == i;
                                assert(queue@[qb] as int == i);
                            }
                        }
                    }
                    if prioritize {
                        assert forall|qa: int, i: int|
                            0 <= qa < queue@.len() && seed_param(
                                ops@,
                                model_inputs@,
                                queue@[qa] as int,
                            ) && seed_input(ops@, model_inputs@, i) implies (done_has(
                            ordered@,
                            i,
                        ) || exists|qb: int| 0 <= qb < qa && queue@[qb] as int == i) by {
                            assert(!ready_at_start(ops@, newly@[m as int] as int));
                            assert(qa < qpre.len());
                            assert(queue@[qa] == qpre[qa]);
                            if !done_has(ordered@, i) {
                                let qb = choose|qb: int| 0 <= qb < qa && qpre[qb] as int == i;
                                assert(queue@[qb] as int == i);
                            }
                        }
                    }
                }
            }
            proof {
                assert forall|y: int|
                    m + 1 <= y < nn implies !done_has(queue@, newly@[y] as int) by {
                    if done_has(queue@, newly@[y] as int) {
                        assert(done_has(qpre, newly@[y] as int) || newly@[y] as int == x as int);
                        if newly@[y] as int == x as int {
                            assert(newly@[y] == newly@[m as int]);
                        }
                    }
                }
            }
            m = m + 1;
        }
    }

    if ordered.len() != n {
        proof {
            if unique_outputs(ops@) {
                assert forall|c: int|
                    0 <= c < ops@.len() && !done_has(ordered@, c) implies unmet_count(
                    ops@,
                    c,
                    ordered@,
                ) > 0 by {}
                assert(ordered@.no_duplicates()) by {
                    let comb = ordered@ + queue@;
                    assert forall|a: int, b: int|
                        0 <= a < b < ordered@.len() implies ordered@[a] != ordered@[b] by {
                        assert(comb[a] == ordered@[a] && comb[b] == ordered@[b]);
                    }
                }
                lemma_distinct_le(ordered@, n as int);
                lemma_stuck_means_unschedulable(ops@, ordered@);
            }
        }
        Err(Error::InvalidModel("graph has cycles or unresolved dependencies".to_string()))
    } else {
        proof {
            assert(ordered@.no_duplicates()) by {
                let comb = ordered@ + queue@;
                assert forall|a: int, b: int|
                    0 <= a < b < ordered@.len() implies ordered@[a] != ordered@[b] by {
                    assert(comb[a] == ordered@[a] && comb[b] == ordered@[b]);
                }
            }
            if !prioritize {
                assert forall|a: int, b: int|
                    #![trigger ordered@[a], ordered@[b]]
                    0 <= a < ordered@.len() && 0 <= b < ordered@.len() && ready_at_start(
                        ops@,
                        ordered@[a] as int,
                    ) && ready_at_start(ops@, ordered@[b] as int) && ordered@[a]
                        < ordered@[b] implies a < b by {
                    let b2 = choose|b2: int|
                        0 <= b2 < b && ordered@[b2] as int == ordered@[a] as int;
                    assert(ordered@[b2] == ordered@[a]);
                    if b2 != a {
                        assert(ordered@.no_duplicates());
                        assert(false);
                    }
                }
            }
            if prioritize && unique_outputs(ops@) {
                assert forall|a: int, b: int|
                    #![trigger ordered@[a], ordered@[b]]
                    0 <= a < ordered@.len() && 0 <= b < ordered@.len() && spec_consumes_input(
                        ops@[ordered@[a] as int],
                        model_inputs@,
                    ) && !spec_consumes_input(ops@[ordered@[b] as int], model_inputs@)
                        && released_together(
                        ops@,
                        ordered@,
                        ordered@[a] as int,
                        ordered@[b] as int,
                        ordered@.len() as int,
                    ) implies a < b by {
                    assert(spec_consumes_input(ops@[ordered@[a] as int], model_inputs@));
                    let b2 = choose|b2: int|
                        0 <= b2 < b && ordered@[b2] as int == ordered@[a] as int;
                    assert(ordered@[b2] == ordered@[a]);
                    if b2 != a {
                        assert(ordered@.no_duplicates());
                        assert(false);
                    }
                }
            }
            if prioritize {
                assert forall|a: int, b: int|
                    0 <= a < ordered@.len() && 0 <= b < ordered@.len() && seed_input(
                        ops@,
                        model_inputs@,
                        ordered@[a] as int,
                    ) && seed_param(ops@, model_inputs@, ordered@[b] as int) implies a < b by {
                    let b2 = choose|b2: int|
                        0 <= b2 < b && ordered@[b2] as int == ordered@[a] as int;
                    assert(ordered@[b2] == ordered@[a]);
                    if b2 != a {
                        assert(ordered@.no_duplicates());
                        assert(false);
                    }
                }
            }
        }
        Ok(ordered)
    }
}

} // verus!
