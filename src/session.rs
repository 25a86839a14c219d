use vstd::prelude::*;

use crate::graph::{Graph, TensorView};
use crate::kernel::{deterministic, total, BinaryOp, EvalError, Kernel};

verus! {

/// The feed table for a graph of `n` nodes: entry `i` holds the value fed to
/// node `i`, the last one where a node is fed more than once.
pub open spec fn feed_table<V>(feeds: Seq<(usize, V)>, n: nat) -> Seq<Option<V>>
    decreases feeds.len(),
{
    if feeds.len() == 0 {
        Seq::new(n, |i: int| None)
    } else {
        let (id, v) = feeds.last();
        let t = feed_table(feeds.drop_last(), n);
        if id < n {
            t.update(id as int, Some(v))
        } else {
            t
        }
    }
}

proof fn lemma_feed_table_len<V>(feeds: Seq<(usize, V)>, n: nat)
    ensures
        feed_table(feeds, n).len() == n,
    decreases feeds.len(),
{
    if feeds.len() > 0 {
        lemma_feed_table_len(feeds.drop_last(), n);
    }
}

/// Node `i` has to be evaluated: it is not fed, and it is a fetch or a
/// predecessor of a node that has to be evaluated. A fed node cuts the graph:
/// nothing is needed on its account.
pub open spec fn needed<V>(g: Seq<TensorView>, ft: Seq<Option<V>>, fetches: Seq<usize>, i: int) -> bool
    decreases g.len() - i,
{
    if 0 <= i < g.len() {
        &&& ft[i] is None
        &&& (fetches.contains(i as usize) || exists|j: int|
            i < j < g.len() && #[trigger] g[j].preds.contains(i as usize) && needed(g, ft, fetches, j))
    } else {
        false
    }
}

/// Evaluation reaches a placeholder that is not fed.
pub open spec fn reaches_unfed_placeholder<V>(
    g: Seq<TensorView>,
    ft: Seq<Option<V>>,
    fetches: Seq<usize>,
) -> bool {
    exists|i: int| needed(g, ft, fetches, i) && #[trigger] g[i].kernel == Kernel::Placeholder
}

/// The value of node `i`: its feed if it is fed, else what its kernel makes of
/// its predecessors' values. With a deterministic operator function this is
/// the one value evaluation can give.
pub open spec fn value_of<V, F: Fn(BinaryOp, &V, &V) -> V>(
    g: Seq<TensorView>,
    ft: Seq<Option<V>>,
    f: F,
    i: int,
) -> V
    decreases i,
{
    if 0 <= i < ft.len() && ft[i] is Some {
        ft[i]->Some_0
    } else if 0 <= i < g.len() && g[i].preds.len() == 2 && g[i].preds[0] < i && g[i].preds[1] < i {
        let a = value_of(g, ft, f, g[i].preds[0] as int);
        let b = value_of(g, ft, f, g[i].preds[1] as int);
        choose|v: V| g[i].kernel.produces(f, a, b, v)
    } else {
        arbitrary()
    }
}

/// What a run on the graph `g` with the feed table `ft` gives for `fetches`:
/// the unfed-placeholder error exactly when evaluation reaches an unfed
/// placeholder, and otherwise one value per fetch, in fetch order, each the
/// feed of a fed fetch and, for a deterministic operator function, the value
/// of the fetched node.
pub open spec fn run_outcome<V, F: Fn(BinaryOp, &V, &V) -> V>(
    g: Seq<TensorView>,
    ft: Seq<Option<V>>,
    fetches: Seq<usize>,
    f: F,
    res: Result<Seq<V>, EvalError>,
) -> bool {
    match res {
        Err(e) => e == EvalError::UnfedPlaceholderError && reaches_unfed_placeholder(g, ft, fetches),
        Ok(vals) => {
            &&& !reaches_unfed_placeholder(g, ft, fetches)
            &&& vals.len() == fetches.len()
            &&& forall|k: int|
                0 <= k < fetches.len() && ft[fetches[k] as int] is Some ==> vals[k]
                    == ft[fetches[k] as int]->Some_0
            &&& deterministic(f) ==> forall|k: int|
                0 <= k < fetches.len() ==> vals[k] == value_of(g, ft, f, fetches[k] as int)
        },
    }
}

pub open spec fn deref_all<V>(vals: Seq<&V>) -> Seq<V> {
    vals.map_values(|r: &V| *r)
}

pub open spec fn outcome_of<V>(res: Result<Vec<&V>, EvalError>) -> Result<Seq<V>, EvalError> {
    match res {
        Ok(vals) => Ok(deref_all(vals@)),
        Err(e) => Err(e),
    }
}

/// Number of entries of `s` that hold no value.
spec fn count_open<V>(s: Seq<Option<V>>) -> nat
    decreases s.len(),
{
    if s.len() == 0 {
        0
    } else {
        count_open(s.drop_last()) + if s.last() is None { 1nat } else { 0nat }
    }
}

proof fn lemma_fill_decreases_open<V>(s: Seq<Option<V>>, i: int, v: V)
    requires
        0 <= i < s.len(),
        s[i] is None,
    ensures
        count_open(s.update(i, Some(v))) < count_open(s),
    decreases s.len(),
{
    let t = s.update(i, Some(v));
    if i == s.len() - 1 {
        assert(t.drop_last() =~= s.drop_last());
    } else {
        assert(t.drop_last() =~= s.drop_last().update(i, Some(v)));
        lemma_fill_decreases_open(s.drop_last(), i, v);
    }
}

/// Node `i` has a value: it is fed or already computed.
spec fn resolved<V>(ft: Seq<Option<V>>, memo: Seq<Option<V>>, i: int) -> bool {
    ft[i] is Some || memo[i] is Some
}

/// What holds of the memo and the evaluation log at every point of a run:
/// each computed node had to be evaluated, is no placeholder, had all its
/// predecessors resolved when it ran, appears once in the log after the
/// computed ones among its predecessors, and (with a deterministic operator
/// function) holds the node's value.
spec fn memo_inv<V, F: Fn(BinaryOp, &V, &V) -> V>(
    g: Seq<TensorView>,
    ft: Seq<Option<V>>,
    memo: Seq<Option<V>>,
    log: Seq<usize>,
    fetches: Seq<usize>,
    f: F,
) -> bool {
    &&& ft.len() == g.len()
    &&& memo.len() == g.len()
    &&& forall|i: int|
        0 <= i < g.len() && #[trigger] memo[i] is Some ==> {
            &&& ft[i] is None
            &&& needed(g, ft, fetches, i)
            &&& g[i].kernel != Kernel::Placeholder
            &&& forall|j: int|
                0 <= j < g[i].preds.len() ==> resolved(ft, memo, #[trigger] g[i].preds[j] as int)
            &&& log.contains(i as usize)
            &&& deterministic(f) ==> memo[i]->Some_0 == value_of(g, ft, f, i)
        }
    &&& log.no_duplicates()
    &&& forall|a: int| 0 <= a < log.len() ==> (#[trigger] log[a]) < g.len() && memo[log[a] as int] is Some
    &&& topological(g, ft, log)
}

/// Every predecessor of a node in `log` is fed or comes earlier in `log`.
pub open spec fn topological<V>(g: Seq<TensorView>, ft: Seq<Option<V>>, log: Seq<usize>) -> bool {
    forall|a: int, j: int|
        0 <= a < log.len() && 0 <= j < g[log[a] as int].preds.len() ==> {
            let p = #[trigger] g[log[a] as int].preds[j];
            ft[p as int] is Some || exists|b: int| 0 <= b < a && log[b] == p
        }
}

/// The work stack holds unresolved nodes that have to be evaluated, each a
/// predecessor of the one below it, so their handles strictly decrease.
spec fn stack_inv<V>(
    g: Seq<TensorView>,
    ft: Seq<Option<V>>,
    memo: Seq<Option<V>>,
    st: Seq<usize>,
    fetches: Seq<usize>,
) -> bool {
    &&& forall|k: int|
        0 <= k < st.len() ==> {
            &&& (#[trigger] st[k]) < g.len()
            &&& st[k] + k < g.len()
            &&& ft[st[k] as int] is None
            &&& memo[st[k] as int] is None
            &&& needed(g, ft, fetches, st[k] as int)
        }
    &&& forall|a: int, b: int| 0 <= a < b < st.len() ==> #[trigger] st[b] < #[trigger] st[a]
}

proof fn lemma_needed_computed<V>(
    g: Seq<TensorView>,
    ft: Seq<Option<V>>,
    memo: Seq<Option<V>>,
    fetches: Seq<usize>,
    i: int,
)
    requires
        g.len() <= usize::MAX,
        ft.len() == g.len(),
        memo.len() == g.len(),
        forall|k: int| 0 <= k < fetches.len() ==> resolved(ft, memo, #[trigger] fetches[k] as int),
        forall|x: int|
            0 <= x < g.len() && #[trigger] memo[x] is Some ==> forall|j: int|
                0 <= j < g[x].preds.len() ==> resolved(ft, memo, #[trigger] g[x].preds[j] as int),
        needed(g, ft, fetches, i),
    ensures
        memo[i] is Some,
    decreases g.len() - i,
{
    if fetches.contains(i as usize) {
        let k = choose|k: int| 0 <= k < fetches.len() && fetches[k] == i as usize;
        assert(resolved(ft, memo, fetches[k] as int));
    } else {
        let j = choose|j: int|
            i < j < g.len() && #[trigger] g[j].preds.contains(i as usize) && needed(g, ft, fetches, j);
        lemma_needed_computed(g, ft, memo, fetches, j);
        let jj = choose|jj: int| 0 <= jj < g[j].preds.len() && g[j].preds[jj] == i as usize;
        assert(resolved(ft, memo, g[j].preds[jj] as int));
    }
}

/// Two runs on the same graph, feeds and fetches give the same result when
/// the operator function is deterministic: the same values in the same order,
/// or the same error. Nothing a session held before a run affects the outcome.
pub proof fn lemma_run_deterministic<V, F: Fn(BinaryOp, &V, &V) -> V>(
    g: Seq<TensorView>,
    ft: Seq<Option<V>>,
    fetches: Seq<usize>,
    f: F,
    first: Result<Seq<V>, EvalError>,
    second: Result<Seq<V>, EvalError>,
)
    requires
        deterministic(f),
        run_outcome(g, ft, fetches, f, first),
        run_outcome(g, ft, fetches, f, second),
    ensures
        first == second,
{
    match (first, second) {
        (Ok(a), Ok(b)) => {
            assert(a =~= b);
        },
        _ => {},
    }
}

/// A node that is not fetched and all of whose users are fed is never
/// visited: feeding a node cuts off what lies behind it.
pub proof fn lemma_feed_cuts<V>(g: Seq<TensorView>, ft: Seq<Option<V>>, fetches: Seq<usize>, x: usize)
    requires
        !fetches.contains(x),
        forall|j: int| 0 <= j < g.len() && #[trigger] g[j].preds.contains(x) ==> ft[j] is Some,
    ensures
        !needed(g, ft, fetches, x as int),
{
    if needed(g, ft, fetches, x as int) {
        let j = choose|j: int|
            x < j < g.len() && #[trigger] g[j].preds.contains(x) && needed(g, ft, fetches, j);
        assert(ft[j] is Some);
    }
}

/// Evaluates graph nodes from values bound to some of them.
///
/// Each run starts afresh: the feed table, the memo of computed values and the
/// work stack are reset. Nodes are evaluated depth first, each at most once.
pub struct Session<V> {
    feeds: Vec<Option<V>>,
    memo: Vec<Option<V>>,
    stack: Vec<usize>,
    log: Ghost<Seq<usize>>,
}

impl<V> Session<V> {
    /// The feed table of the last run.
    pub closed spec fn feed_view(&self) -> Seq<Option<V>> {
        self.feeds@
    }

    /// The nodes whose kernel ran during the last run, in the order they ran.
    pub closed spec fn evaluated(&self) -> Seq<usize> {
        self.log@
    }

    pub fn new() -> (s: Session<V>)
        ensures
            s.feed_view() == Seq::<Option<V>>::empty(),
            s.evaluated() == Seq::<usize>::empty(),
    {
        Session { feeds: Vec::new(), memo: Vec::new(), stack: Vec::new(), log: Ghost(Seq::empty()) }
    }

    /// Runs the graph: binds `feeds` (for a node fed twice the last value
    /// counts), then gives the value of each fetch, in fetch order. A fed
    /// fetch gives its feed; any other fetch is computed, together with what
    /// it needs, by `kernel`, the function that applies an operator to two
    /// operand values. Every node is evaluated at most once per run, and a fed
    /// node cuts the graph: nothing behind it is visited on its account.
    pub fn run<'s, F: Fn(BinaryOp, &V, &V) -> V>(
        &'s mut self,
        graph: &Graph,
        feeds: Vec<(usize, V)>,
        fetches: &Vec<usize>,
        kernel: F,
    ) -> (res: Result<Vec<&'s V>, EvalError>)
        requires
            graph.wf(),
            total(kernel),
            forall|k: int| 0 <= k < fetches@.len() ==> fetches@[k] < graph@.len(),
        ensures
            final(self).feed_view() == feed_table(feeds@, graph@.len()),
            run_outcome(graph@, final(self).feed_view(), fetches@, kernel, outcome_of(res)),
            final(self).evaluated().no_duplicates(),
            topological(graph@, final(self).feed_view(), final(self).evaluated()),
            forall|x: usize|
                final(self).evaluated().contains(x) ==> needed(
                    graph@,
                    final(self).feed_view(),
                    fetches@,
                    x as int,
                ),
            res is Ok ==> forall|i: int|
                needed(graph@, final(self).feed_view(), fetches@, i)
                    ==> final(self).evaluated().contains(i as usize),
    {
        let n = graph.len();
        let ghost fed = feeds@;
        self.reset(n, feeds);
        proof {
            lemma_feed_table_len(fed, n as nat);
            assert(self.log@.len() == 0);
        }
        let mut k: usize = 0;
        while k < fetches.len()
            invariant
                graph.wf(),
                total(kernel),
                n == graph@.len(),
                forall|k2: int| 0 <= k2 < fetches@.len() ==> fetches@[k2] < graph@.len(),
                self.feeds@ == feed_table(feeds@, n as nat),
                memo_inv(graph@, self.feeds@, self.memo@, self.log@, fetches@, kernel),
                self.stack@.len() == 0,
                k <= fetches@.len(),
                forall|k2: int|
                    0 <= k2 < k ==> resolved(self.feeds@, self.memo@, #[trigger] fetches@[k2] as int),
            decreases fetches.len() - k,
        {
            let f = fetches[k];
            if self.feeds[f].is_none() && self.memo[f].is_none() {
                proof {
                    assert(fetches@[k as int] == f);
                    assert(fetches@.contains(f));
                }
                match self.resolve(graph, fetches, f, &kernel) {
                    Err(e) => {
                        return Err(e);
                    },
                    Ok(()) => {},
                }
            }
            k = k + 1;
        }
        proof {
            let g = graph@;
            let ft = self.feeds@;
            let memo = self.memo@;
            assert forall|i: int| needed(g, ft, fetches@, i) implies #[trigger] memo[i] is Some by {
                lemma_needed_computed(g, ft, memo, fetches@, i);
            }
            assert forall|i: int| needed(g, ft, fetches@, i) implies self.log@.contains(i as usize) by {
                assert(memo[i] is Some);
            }
            assert forall|x: usize| self.log@.contains(x) implies needed(g, ft, fetches@, x as int) by {
                let a = choose|a: int| 0 <= a < self.log@.len() && self.log@[a] == x;
                assert(memo[self.log@[a] as int] is Some);
            }
            assert(!reaches_unfed_placeholder(g, ft, fetches@)) by {
                assert forall|i: int| needed(g, ft, fetches@, i) implies #[trigger] g[i].kernel != Kernel::Placeholder by {
                    assert(memo[i] is Some);
                }
            }
        }
        let this: &'s Session<V> = self;
        let mut out: Vec<&'s V> = Vec::new();
        let mut k: usize = 0;
        while k < fetches.len()
            invariant
                n == graph@.len(),
                forall|k2: int| 0 <= k2 < fetches@.len() ==> fetches@[k2] < graph@.len(),
                this.feeds@.len() == n,
                memo_inv(graph@, this.feeds@, this.memo@, this.log@, fetches@, kernel),
                forall|k2: int|
                    0 <= k2 < fetches@.len() ==> resolved(this.feeds@, this.memo@, #[trigger] fetches@[k2] as int),
                k <= fetches@.len(),
                out@.len() == k,
                forall|k2: int|
                    0 <= k2 < k && this.feeds@[fetches@[k2] as int] is Some ==> *out@[k2]
                        == this.feeds@[fetches@[k2] as int]->Some_0,
                forall|k2: int|
                    0 <= k2 < k && deterministic(kernel) ==> *out@[k2] == value_of(
                        graph@,
                        this.feeds@,
                        kernel,
                        fetches@[k2] as int,
                    ),
            decreases fetches.len() - k,
        {
            let f = fetches[k];
            let r = this.value_ref(f);
            proof {
                assert(resolved(this.feeds@, this.memo@, fetches@[k as int] as int));
            }
            out.push(r);
            k = k + 1;
        }
        proof {
            assert(deref_all(out@).len() == out@.len());
            assert forall|k2: int| 0 <= k2 < out@.len() implies deref_all(out@)[k2] == *out@[k2] by {}
        }
        Ok(out)
    }

    /// Clears the state of a previous run and binds the feeds of this one.
    fn reset(&mut self, n: usize, feeds: Vec<(usize, V)>)
        ensures
            final(self).feeds@ == feed_table(feeds@, n as nat),
            final(self).memo@ == Seq::new(n as nat, |i: int| None::<V>),
            final(self).stack@ == Seq::<usize>::empty(),
            final(self).log@ == Seq::<usize>::empty(),
    {
        let mut table: Vec<Option<V>> = Vec::new();
        let mut memo: Vec<Option<V>> = Vec::new();
        let mut i: usize = 0;
        while i < n
            invariant
                i <= n,
                table@ == Seq::new(i as nat, |j: int| None::<V>),
                memo@ == Seq::new(i as nat, |j: int| None::<V>),
            decreases n - i,
        {
            table.push(None);
            memo.push(None);
            i = i + 1;
            assert(table@ =~= Seq::new(i as nat, |j: int| None::<V>));
            assert(memo@ =~= Seq::new(i as nat, |j: int| None::<V>));
        }
        let ghost all = feeds@;
        let mut rest = feeds;
        let ghost mut taken: int = 0;
        assert(all.take(0) =~= Seq::<(usize, V)>::empty());
        assert(rest@ =~= all.skip(0));
        while rest.len() > 0
            invariant
                0 <= taken <= all.len(),
                rest@ == all.skip(taken),
                table@ == feed_table(all.take(taken), n as nat),
                table@.len() == n,
            decreases rest.len(),
        {
            let (id, v) = rest.remove(0);
            proof {
                assert(all.take(taken + 1).drop_last() =~= all.take(taken));
                assert(all.take(taken + 1).last() == (id, v));
                taken = taken + 1;
                assert(rest@ =~= all.skip(taken));
            }
            if id < n {
                table[id] = Some(v);
            }
        }
        assert(all.take(taken) =~= all);
        self.feeds = table;
        self.memo = memo;
        self.stack.clear();
        self.log = Ghost(Seq::empty());
    }

/// Computes `target`, a fetch with no value yet, and every node it needs
    /// that has none: depth first, with the work stack. A node is pushed when
    /// it has an unresolved predecessor to wait for, and evaluated once all
    /// its predecessors are fed or computed.
    fn resolve<F: Fn(BinaryOp, &V, &V) -> V>(
        &mut self,
        graph: &Graph,
        fetches: &Vec<usize>,
        target: usize,
        kernel: &F,
    ) -> (r: Result<(), EvalError>)
        requires
            graph.wf(),
            total(*kernel),
            memo_inv(graph@, old(self).feeds@, old(self).memo@, old(self).log@, fetches@, *kernel),
            target < graph@.len(),
            fetches@.contains(target),
            old(self).feeds@[target as int] is None,
            old(self).memo@[target as int] is None,
            old(self).stack@.len() == 0,
        ensures
            final(self).feeds@ == old(self).feeds@,
            memo_inv(graph@, final(self).feeds@, final(self).memo@, final(self).log@, fetches@, *kernel),
            forall|i: int|
                0 <= i < graph@.len() && resolved(old(self).feeds@, old(self).memo@, i) ==> resolved(
                    final(self).feeds@,
                    final(self).memo@,
                    i,
                ),
            final(self).stack@.len() == 0,
            match r {
                Ok(()) => resolved(final(self).feeds@, final(self).memo@, target as int),
                Err(e) => e == EvalError::UnfedPlaceholderError && reaches_unfed_placeholder(
                    graph@,
                    final(self).feeds@,
                    fetches@,
                ),
            },
    {
        let ghost g = graph@;
        let ghost ft = self.feeds@;
        let ghost memo0 = self.memo@;
        let n = graph.len();
        assert(needed(g, ft, fetches@, target as int));
        self.stack.push(target);
        while self.stack.len() > 0
            invariant
                graph.wf(),
                g == graph@,
                n == g.len(),
                total(*kernel),
                self.feeds@ == ft,
                old(self).feeds@ == ft,
                old(self).memo@ == memo0,
                memo_inv(g, ft, self.memo@, self.log@, fetches@, *kernel),
                stack_inv(g, ft, self.memo@, self.stack@, fetches@),
                self.stack@.len() > 0 ==> self.stack@[0] == target,
                self.stack@.len() == 0 ==> resolved(ft, self.memo@, target as int),
                forall|i: int| 0 <= i < n && #[trigger] memo0[i] is Some ==> self.memo@[i] is Some,
            decreases count_open(self.memo@), n - self.stack@.len(),
        {
            let top = self.stack[self.stack.len() - 1];
            let ghost st = self.stack@;
            let node = graph.node(top);
            let preds = node.preds();
            proof {
                assert(crate::graph::node_wf(g, top as int));
            }
            let mut j: usize = 0;
            let mut pending: Option<usize> = None;
            while j < preds.len() && pending.is_none()
                invariant
                    j <= preds@.len(),
                    preds@ == g[top as int].preds,
                    self.feeds@ == ft,
                    ft.len() == n,
                    self.memo@.len() == n,
                    forall|q: int| 0 <= q < preds@.len() ==> preds@[q] < top,
                    top < n,
                    pending is None ==> forall|q: int|
                        0 <= q < j ==> resolved(ft, self.memo@, #[trigger] preds@[q] as int),
                    pending matches Some(p) ==> preds@.contains(p) && !resolved(ft, self.memo@, p as int),
                decreases preds@.len() - j,
            {
                let p = preds[j];
                if self.feeds[p].is_none() && self.memo[p].is_none() {
                    pending = Some(p);
                }
                j = j + 1;
            }
            match pending {
                Some(p) => {
                    proof {
                        assert(needed(g, ft, fetches@, p as int));
                    }
                    self.stack.push(p);
                    proof {
                        assert forall|a: int, b: int| 0 <= a < b < self.stack@.len() implies #[trigger] self.stack@[b]
                            < #[trigger] self.stack@[a] by {
                            if b == self.stack@.len() - 1 && a < b - 1 {
                                assert(st[b - 1] < st[a]);
                            }
                        }
                    }
                },
                None => {
                    let mut operands: Vec<&V> = Vec::new();
                    let mut q: usize = 0;
                    while q < preds.len()
                        invariant
                            q <= preds@.len(),
                            operands@.len() == q,
                            preds@ == g[top as int].preds,
                            self.feeds@ == ft,
                            ft.len() == n,
                            self.memo@.len() == n,
                            top < n,
                            forall|x: int| 0 <= x < preds@.len() ==> preds@[x] < top,
                            forall|x: int| 0 <= x < preds@.len() ==> resolved(ft, self.memo@, #[trigger] preds@[x] as int),
                            forall|x: int|
                                0 <= x < q ==> ft[preds@[x] as int] is Some ==> *operands@[x]
                                    == ft[preds@[x] as int]->Some_0,
                            forall|x: int|
                                0 <= x < q ==> ft[preds@[x] as int] is None ==> *operands@[x]
                                    == self.memo@[preds@[x] as int]->Some_0,
                        decreases preds@.len() - q,
                    {
                        operands.push(self.value_ref(preds[q]));
                        q = q + 1;
                    }
                    let v = match node.eval(&operands, kernel) {
                        Ok(v) => v,
                        Err(e) => {
                            self.stack.clear();
                            return Err(e);
                        },
                    };
                    let ghost memo1 = self.memo@;
                    let ghost log1 = self.log@;
                    proof {
                        lemma_fill_decreases_open(memo1, top as int, v);
                        let k = g[top as int].kernel;
                        assert(k != Kernel::Placeholder);
                        assert(preds@.len() == 2);
                        if deterministic(*kernel) {
                            let p0 = preds@[0] as int;
                            let p1 = preds@[1] as int;
                            assert(resolved(ft, memo1, p0));
                            assert(resolved(ft, memo1, p1));
                            let a = value_of(g, ft, *kernel, p0);
                            let b = value_of(g, ft, *kernel, p1);
                            assert(*operands@[0] == a);
                            assert(*operands@[1] == b);
                            assert(k.produces(*kernel, a, b, v));
                            let w = choose|w: V| k.produces(*kernel, a, b, w);
                            assert(value_of(g, ft, *kernel, top as int) == w);
                            assert(w == v);
                        }
                        assert(!log1.contains(top));
                    }
                    self.memo[top] = Some(v);
                    self.stack.pop();
                    proof {
                        self.log@ = self.log@.push(top);
                        let memo2 = self.memo@;
                        let log2 = self.log@;
                        assert(memo2 == memo1.update(top as int, Some(v)));
                        assert forall|i: int| 0 <= i < g.len() && #[trigger] memo2[i] is Some implies {
                            &&& ft[i] is None
                            &&& needed(g, ft, fetches@, i)
                            &&& g[i].kernel != Kernel::Placeholder
                            &&& forall|j: int|
                                0 <= j < g[i].preds.len() ==> resolved(ft, memo2, #[trigger] g[i].preds[j] as int)
                            &&& log2.contains(i as usize)
                            &&& deterministic(*kernel) ==> memo2[i]->Some_0 == value_of(g, ft, *kernel, i)
                        } by {
                            if i == top {
                                assert(log2[log1.len() as int] == top);
                                assert forall|j: int| 0 <= j < g[i].preds.len() implies resolved(
                                    ft,
                                    memo2,
                                    #[trigger] g[i].preds[j] as int,
                                ) by {
                                    assert(resolved(ft, memo1, preds@[j] as int));
                                }
                            } else {
                                assert(memo1[i] is Some);
                                let li = choose|li: int| 0 <= li < log1.len() && log1[li] == i as usize;
                                assert(log2[li] == i as usize);
                                assert forall|j: int| 0 <= j < g[i].preds.len() implies resolved(
                                    ft,
                                    memo2,
                                    #[trigger] g[i].preds[j] as int,
                                ) by {
                                    assert(resolved(ft, memo1, g[i].preds[j] as int));
                                }
                            }
                        }
                        assert forall|a: int| 0 <= a < log2.len() implies (#[trigger] log2[a]) < g.len()
                            && memo2[log2[a] as int] is Some by {
                            if a < log1.len() {
                                assert(log1[a] == log2[a]);
                            }
                        }
                        assert(log2.no_duplicates()) by {
                            assert forall|a: int, b: int| 0 <= a < b < log2.len() implies log2[a] != log2[b] by {
                                if b == log1.len() {
                                    assert(log1[a] == log2[a]);
                                    assert(memo1[log1[a] as int] is Some);
                                } else {
                                    assert(log1[a] == log2[a] && log1[b] == log2[b]);
                                }
                            }
                        }
                        assert forall|a: int, j: int|
                            0 <= a < log2.len() && 0 <= j < g[log2[a] as int].preds.len() implies {
                            let p = #[trigger] g[log2[a] as int].preds[j];
                            ft[p as int] is Some || exists|b: int| 0 <= b < a && log2[b] == p
                        } by {
                            let p = g[log2[a] as int].preds[j];
                            if a < log1.len() {
                                assert(log1[a] == log2[a]);
                                if ft[p as int] is None {
                                    let b = choose|b: int| 0 <= b < a && log1[b] == p;
                                    assert(log2[b] == p);
                                }
                            } else {
                                assert(resolved(ft, memo1, preds@[j] as int));
                                if ft[p as int] is None {
                                    assert(memo1[p as int] is Some);
                                    assert(log1.contains(p));
                                    let b = choose|b: int| 0 <= b < log1.len() && log1[b] == p;
                                    assert(log2[b] == p);
                                }
                            }
                        }
                    }
                }
            }
        }
        Ok(())
    }

    /// Whether `node` was fed in the last run.
    pub fn is_fed(&self, node: usize) -> (r: bool)
        ensures
            r == (node < self.feed_view().len() && self.feed_view()[node as int] is Some),
    {
        node < self.feeds.len() && self.feeds[node].is_some()
    }

    /// The value of a fed or computed node.
    fn value_ref(&self, i: usize) -> (r: &V)
        requires
            i < self.feeds@.len(),
            i < self.memo@.len(),
            resolved(self.feeds@, self.memo@, i as int),
        ensures
            self.feeds@[i as int] is Some ==> *r == self.feeds@[i as int]->Some_0,
            self.feeds@[i as int] is None ==> *r == self.memo@[i as int]->Some_0,
    {
        match &self.feeds[i] {
            Some(v) => v,
            None => self.memo[i].as_ref().unwrap(),
        }
    }
}

} // verus!
