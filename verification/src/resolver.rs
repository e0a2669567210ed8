//! The traversal scheduler: drives frontier expansion from the root hash(es)
//! to the full dependency closure. The pending set prevents spawning a second
//! fetch task for a hash already in flight; as tasks complete and report
//! children, unseen children are enqueued, until no task remains outstanding.
//! A completed run resolves exactly the hashes reachable from the roots
//! through the reported children — whatever order, interleaving or
//! concurrency bound produced the reports.

use vstd::prelude::*;
use vstd::set_lib::lemma_subset_equality;
use crate::digest::hash_eq;
use crate::resrc::hash_children;
use crate::resrc::spec_hash_children;
use crate::resrc::ResrcClass;

verus! {

/// The dependency edges a run has discovered: each fetched hash maps to the
/// set of child hashes its blob was reported to reference.
pub type DepGraph = Map<Seq<u8>, Set<Seq<u8>>>;

/// The set of hash values a list of hashes holds.
pub open spec fn hashes_set(s: Seq<[u8; 20]>) -> Set<Seq<u8>>
    decreases s.len(),
{
    if s.len() == 0 {
        Set::empty()
    } else {
        hashes_set(s.drop_last()).insert(s.last()@)
    }
}

/// The hashes in the list are pairwise distinct.
pub open spec fn hashes_distinct(s: Seq<[u8; 20]>) -> bool {
    forall|i: int, j: int| 0 <= i < j < s.len() ==> s[i]@ != s[j]@
}

proof fn lemma_hashes_set_empty()
    ensures
        hashes_set(Seq::<[u8; 20]>::empty()) == Set::<Seq<u8>>::empty(),
{
}

proof fn lemma_hashes_set_push(s: Seq<[u8; 20]>, h: [u8; 20])
    ensures
        hashes_set(s.push(h)) == hashes_set(s).insert(h@),
{
    assert(s.push(h).drop_last() =~= s);
    assert(s.push(h).last() == h);
}

proof fn lemma_distinct_push(s: Seq<[u8; 20]>, h: [u8; 20])
    requires
        hashes_distinct(s),
        !hashes_set(s).contains(h@),
    ensures
        hashes_distinct(s.push(h)),
{
    assert forall|i: int, j: int| 0 <= i < j < s.push(h).len() implies s.push(h)[i]@ != s.push(
        h,
    )[j]@ by {
        assert(s.push(h)[i] == s[i]);
        if j == s.len() {
            lemma_hashes_set_index(s, i);
        } else {
            assert(s.push(h)[j] == s[j]);
        }
    }
}

proof fn lemma_hashes_set_index(s: Seq<[u8; 20]>, i: int)
    requires
        0 <= i < s.len(),
    ensures
        hashes_set(s).contains(s[i]@),
    decreases s.len(),
{
    if i < s.len() - 1 {
        assert(s.drop_last()[i] == s[i]);
        lemma_hashes_set_index(s.drop_last(), i);
    }
}

proof fn lemma_hashes_set_mem(s: Seq<[u8; 20]>, k: Seq<u8>)
    requires
        hashes_set(s).contains(k),
    ensures
        exists|i: int| 0 <= i < s.len() && #[trigger] s[i]@ == k,
    decreases s.len(),
{
    if s.last()@ == k {
        assert(s[s.len() - 1]@ == k);
    } else {
        lemma_hashes_set_mem(s.drop_last(), k);
        let i = choose|i: int| 0 <= i < s.drop_last().len() && #[trigger] s.drop_last()[i]@ == k;
        assert(s[i]@ == k);
    }
}

proof fn lemma_hashes_set_len(s: Seq<[u8; 20]>)
    requires
        hashes_distinct(s),
    ensures
        hashes_set(s).finite(),
        hashes_set(s).len() == s.len(),
    decreases s.len(),
{
    if s.len() > 0 {
        lemma_hashes_set_len(s.drop_last());
        if hashes_set(s.drop_last()).contains(s.last()@) {
            lemma_hashes_set_mem(s.drop_last(), s.last()@);
            let i = choose|i: int|
                0 <= i < s.drop_last().len() && #[trigger] s.drop_last()[i]@ == s.last()@;
            assert(s[i]@ == s[s.len() - 1]@);
            assert(false);
        }
    }
}

/// Whether the hash list holds a given hash.
fn vec_contains_hash(v: &Vec<[u8; 20]>, h: &[u8; 20]) -> (r: bool)
    ensures
        r == hashes_set(v@).contains(h@),
{
    let mut i: usize = 0;
    while i < v.len()
        invariant
            i <= v@.len(),
            forall|j: int| 0 <= j < i ==> #[trigger] v@[j]@ != h@,
        decreases v@.len() - i,
    {
        let e = v[i];
        if hash_eq(&e, h) {
            proof {
                lemma_hashes_set_index(v@, i as int);
            }
            return true;
        }
        i += 1;
    }
    proof {
        if hashes_set(v@).contains(h@) {
            lemma_hashes_set_mem(v@, h@);
        }
    }
    false
}

/// A hash is reachable within `n` steps: it is a root, or some hash that
/// reports it as a child is reachable within `n - 1` steps.
pub open spec fn reach_in(edges: DepGraph, roots: Set<Seq<u8>>, h: Seq<u8>, n: nat) -> bool
    decreases n,
{
    roots.contains(h) || (n > 0 && exists|p: Seq<u8>|
        #![trigger edges[p]]
        edges.dom().contains(p) && edges[p].contains(h) && reach_in(
            edges,
            roots,
            p,
            (n - 1) as nat,
        ))
}

/// A hash is reachable when some chain of reported children leads to it from
/// a root.
pub open spec fn reachable(edges: DepGraph, roots: Set<Seq<u8>>, h: Seq<u8>) -> bool {
    exists|n: nat| reach_in(edges, roots, h, n)
}

/// `f` extends `g`: wherever `g` records children, `f` records the same.
pub open spec fn agrees_with(f: DepGraph, g: DepGraph) -> bool {
    forall|k: Seq<u8>| #[trigger]
        g.dom().contains(k) ==> f.dom().contains(k) && f[k] == g[k]
}

/// A root is reachable.
proof fn lemma_reachable_root(edges: DepGraph, roots: Set<Seq<u8>>, h: Seq<u8>)
    requires
        roots.contains(h),
    ensures
        reachable(edges, roots, h),
{
    assert(reach_in(edges, roots, h, 0));
}

proof fn lemma_reach_in_monotone(
    g: DepGraph,
    f: DepGraph,
    roots: Set<Seq<u8>>,
    h: Seq<u8>,
    n: nat,
)
    requires
        agrees_with(f, g),
        reach_in(g, roots, h, n),
    ensures
        reach_in(f, roots, h, n),
    decreases n,
{
    if !roots.contains(h) {
        let p = choose|p: Seq<u8>|
            #![trigger g[p]]
            g.dom().contains(p) && g[p].contains(h) && reach_in(g, roots, p, (n - 1) as nat);
        lemma_reach_in_monotone(g, f, roots, p, (n - 1) as nat);
        assert(f.dom().contains(p) && f[p].contains(h) && reach_in(f, roots, p, (n - 1) as nat));
    }
}

/// Reachability only grows when the edge map grows.
pub proof fn lemma_reachable_monotone(g: DepGraph, f: DepGraph, roots: Set<Seq<u8>>, h: Seq<u8>)
    requires
        agrees_with(f, g),
        reachable(g, roots, h),
    ensures
        reachable(f, roots, h),
{
    let n = choose|n: nat| reach_in(g, roots, h, n);
    lemma_reach_in_monotone(g, f, roots, h, n);
}

/// A reported child of a reachable hash is reachable.
proof fn lemma_reachable_step(edges: DepGraph, roots: Set<Seq<u8>>, p: Seq<u8>, c: Seq<u8>)
    requires
        reachable(edges, roots, p),
        edges.dom().contains(p),
        edges[p].contains(c),
    ensures
        reachable(edges, roots, c),
{
    let n = choose|n: nat| reach_in(edges, roots, p, n);
    let m: nat = n + 1;
    assert(reach_in(edges, roots, p, (m - 1) as nat));
    assert(reach_in(edges, roots, c, m));
}

proof fn lemma_reach_in_closed(
    edges: DepGraph,
    roots: Set<Seq<u8>>,
    s: Set<Seq<u8>>,
    h: Seq<u8>,
    n: nat,
)
    requires
        roots.subset_of(s),
        forall|p: Seq<u8>|
            s.contains(p) && #[trigger] edges.dom().contains(p) ==> edges[p].subset_of(s),
        reach_in(edges, roots, h, n),
    ensures
        s.contains(h),
    decreases n,
{
    if !roots.contains(h) {
        let p = choose|p: Seq<u8>|
            #![trigger edges[p]]
            edges.dom().contains(p) && edges[p].contains(h) && reach_in(
                edges,
                roots,
                p,
                (n - 1) as nat,
            );
        lemma_reach_in_closed(edges, roots, s, p, (n - 1) as nat);
        assert(edges[p].subset_of(s));
    }
}

/// Nothing outside a set that contains the roots and is closed under the
/// edges is reachable.
pub proof fn lemma_reachable_in_closed(
    edges: DepGraph,
    roots: Set<Seq<u8>>,
    s: Set<Seq<u8>>,
    h: Seq<u8>,
)
    requires
        roots.subset_of(s),
        forall|p: Seq<u8>|
            s.contains(p) && #[trigger] edges.dom().contains(p) ==> edges[p].subset_of(s),
        reachable(edges, roots, h),
    ensures
        s.contains(h),
{
    let n = choose|n: nat| reach_in(edges, roots, h, n);
    lemma_reach_in_closed(edges, roots, s, h, n);
}

/// A resolved set for given roots and edges: it contains the roots, it is
/// closed under the edges, and everything in it is reachable — the least
/// fixpoint of frontier expansion.
pub open spec fn is_resolved_closure(
    edges: DepGraph,
    roots: Set<Seq<u8>>,
    s: Set<Seq<u8>>,
) -> bool {
    &&& roots.subset_of(s)
    &&& forall|h: Seq<u8>| #[trigger]
        s.contains(h) ==> edges.dom().contains(h) && edges[h].subset_of(s)
    &&& forall|h: Seq<u8>| #[trigger] s.contains(h) ==> reachable(edges, roots, h)
}

/// There is at most one resolved closure for given roots and edges.
#[verifier::spinoff_prover]
pub proof fn lemma_unique_closure(
    f: DepGraph,
    roots: Set<Seq<u8>>,
    s1: Set<Seq<u8>>,
    s2: Set<Seq<u8>>,
)
    requires
        is_resolved_closure(f, roots, s1),
        is_resolved_closure(f, roots, s2),
    ensures
        s1 == s2,
{
    assert forall|h: Seq<u8>| #[trigger] s1.contains(h) implies s2.contains(h) by {
        lemma_reachable_in_closed(f, roots, s2, h);
    }
    assert forall|h: Seq<u8>| #[trigger] s2.contains(h) implies s1.contains(h) by {
        lemma_reachable_in_closed(f, roots, s1, h);
    }
    assert(s1 =~= s2);
}

/// A closure for the run's own reports is a closure for any oracle the
/// reports agree with.
pub proof fn lemma_closure_under_oracle(
    f: DepGraph,
    edges: DepGraph,
    roots: Set<Seq<u8>>,
    s: Set<Seq<u8>>,
)
    requires
        is_resolved_closure(edges, roots, s),
        agrees_with(f, edges),
    ensures
        is_resolved_closure(f, roots, s),
{
    assert forall|h: Seq<u8>| #[trigger] s.contains(h) implies reachable(f, roots, h) by {
        lemma_reachable_monotone(edges, f, roots, h);
    }
}

/// The child hashes a classified blob reports: the content-hash references
/// of a structured binary resource; none for a leaf or an extraction failure.
pub open spec fn class_children(class: ResrcClass) -> Set<Seq<u8>> {
    match class {
        ResrcClass::Binary(descs) => hashes_set(spec_hash_children(descs@)),
        ResrcClass::Other => Set::empty(),
        ResrcClass::Unparsed => Set::empty(),
    }
}

/// The scheduler state of one resolver run.
pub struct Resolver {
    /// Hashes enqueued for fetch: the roots plus every reported child, each
    /// spawned exactly once.
    pending: Vec<[u8; 20]>,
    /// Hashes whose fetch task has completed and reported its children.
    completed: Vec<[u8; 20]>,
    /// Count of non-fatal dependency-extraction failures.
    extraction_failures: usize,
    /// The root hashes the run was seeded with.
    roots: Ghost<Set<Seq<u8>>>,
    /// The children each completed hash reported.
    reported: Ghost<DepGraph>,
}

impl Resolver {
    /// Hashes enqueued so far.
    pub closed spec fn pending_set(&self) -> Set<Seq<u8>> {
        hashes_set(self.pending@)
    }

    /// Hashes fetched and reported so far.
    pub closed spec fn completed_set(&self) -> Set<Seq<u8>> {
        hashes_set(self.completed@)
    }

    /// The run's root hashes.
    pub closed spec fn root_set(&self) -> Set<Seq<u8>> {
        self.roots@
    }

    /// The children each completed hash reported.
    pub closed spec fn reported(&self) -> DepGraph {
        self.reported@
    }

    /// Count of non-fatal dependency-extraction failures.
    pub closed spec fn failures(&self) -> nat {
        self.extraction_failures as nat
    }

    /// Well-formed: no hash is enqueued or completed twice, completion
    /// implies enqueueing, reports exist exactly for completed hashes, every
    /// reported child is enqueued, and everything enqueued is reachable from
    /// the roots through the reports.
    pub closed spec fn inv(&self) -> bool {
        &&& hashes_distinct(self.pending@)
        &&& hashes_distinct(self.completed@)
        &&& self.completed_set().subset_of(self.pending_set())
        &&& self.root_set().subset_of(self.pending_set())
        &&& self.reported@.dom() == self.completed_set()
        &&& forall|p: Seq<u8>| #[trigger]
            self.completed_set().contains(p) ==> self.reported@[p].subset_of(self.pending_set())
        &&& forall|x: Seq<u8>| #[trigger]
            self.pending_set().contains(x) ==> reachable(self.reported@, self.roots@, x)
        &&& self.extraction_failures <= self.completed@.len()
    }

    /// The frontier has drained: every enqueued hash has completed.
    pub closed spec fn done(&self) -> bool {
        self.completed_set() == self.pending_set()
    }

    /// Seed a run with one root, and optionally a second independent root
    /// (an icon resource). Returns the scheduler and the initial batch of
    /// hashes to spawn fetch tasks for — the distinct roots.
    #[verifier::spinoff_prover]
    pub fn new(root: &[u8; 20], icon: Option<&[u8; 20]>) -> (r: (Resolver, Vec<[u8; 20]>))
        ensures
            r.0.inv(),
            r.0.root_set() == match icon {
                Some(ic) => Set::<Seq<u8>>::empty().insert(root@).insert(ic@),
                None => Set::<Seq<u8>>::empty().insert(root@),
            },
            r.0.pending_set() == r.0.root_set(),
            r.0.completed_set() == Set::<Seq<u8>>::empty(),
            r.0.failures() == 0,
            r.0.reported() == Map::<Seq<u8>, Set<Seq<u8>>>::empty(),
            hashes_distinct(r.1@),
            hashes_set(r.1@) == r.0.root_set(),
    {
        let mut pending: Vec<[u8; 20]> = Vec::new();
        let mut spawn: Vec<[u8; 20]> = Vec::new();
        pending.push(*root);
        spawn.push(*root);
        proof {
            lemma_hashes_set_empty();
            lemma_hashes_set_push(Seq::<[u8; 20]>::empty(), *root);
            assert(pending@ =~= Seq::<[u8; 20]>::empty().push(*root));
            assert(hashes_set(pending@) =~= Set::<Seq<u8>>::empty().insert(root@));
        }
        if let Some(ic) = icon {
            if !hash_eq(ic, root) {
                let ghost p1 = pending@;
                pending.push(*ic);
                spawn.push(*ic);
                proof {
                    lemma_hashes_set_push(p1, *ic);
                    assert(hashes_set(pending@) =~= hashes_set(p1).insert(ic@));
                    assert(pending@[0]@ == root@ && pending@[1]@ == ic@);
                }
            }
        }
        let ghost root_set = match icon {
            Some(ic) => Set::<Seq<u8>>::empty().insert(root@).insert(ic@),
            None => Set::<Seq<u8>>::empty().insert(root@),
        };
        proof {
            assert(hashes_set(pending@) =~= root_set);
            assert(spawn@ =~= pending@);
        }
        let resolver = Resolver {
            pending,
            completed: Vec::new(),
            extraction_failures: 0,
            roots: Ghost(root_set),
            reported: Ghost(Map::empty()),
        };
        proof {
            assert(resolver.pending_set() =~= root_set);
            assert(resolver.completed_set() =~= Set::<Seq<u8>>::empty());
            assert(resolver.reported@.dom() =~= Set::<Seq<u8>>::empty());
            assert forall|x: Seq<u8>| #[trigger]
                resolver.pending_set().contains(x) implies reachable(
                resolver.reported@,
                root_set,
                x,
            ) by {
                lemma_reachable_root(resolver.reported@, root_set, x);
            }
        }
        (resolver, spawn)
    }

    /// A completed fetch task for `hash` reports what the extractor made of
    /// its blob. Children not yet enqueued are enqueued and returned: the
    /// caller spawns one fetch task per returned hash. A report for a hash
    /// that was never enqueued, or that already reported, changes nothing —
    /// only the single claiming task reports a dependency list.
    #[verifier::rlimit(60)]
    #[verifier::spinoff_prover]
    pub fn on_task_children(&mut self, hash: &[u8; 20], class: &ResrcClass) -> (spawn: Vec<
        [u8; 20],
    >)
        requires
            old(self).inv(),
        ensures
            final(self).inv(),
            final(self).root_set() == old(self).root_set(),
            old(self).pending_set().contains(hash@) && !old(self).completed_set().contains(hash@)
                ==> {
                &&& final(self).completed_set() == old(self).completed_set().insert(hash@)
                &&& final(self).reported() == old(self).reported().insert(
                    hash@,
                    class_children(*class),
                )
                &&& final(self).pending_set() == old(self).pending_set().union(
                    class_children(*class),
                )
                &&& hashes_distinct(spawn@)
                &&& hashes_set(spawn@) == final(self).pending_set().difference(
                    old(self).pending_set(),
                )
                &&& (*class is Unparsed ==> final(self).failures() == old(self).failures() + 1)
                &&& (!(*class is Unparsed) ==> final(self).failures() == old(self).failures())
            },
            !(old(self).pending_set().contains(hash@) && !old(self).completed_set().contains(
                hash@,
            )) ==> *final(self) == *old(self) && spawn@.len() == 0,
    {
        let in_pending = vec_contains_hash(&self.pending, hash);
        let done_before = vec_contains_hash(&self.completed, hash);
        if !in_pending || done_before {
            return Vec::new();
        }
        let ghost pre = *self;

        // Record the completion and its report.
        self.completed.push(*hash);
        let completed_len = self.completed.len();
        proof {
            lemma_hashes_set_push(pre.completed@, *hash);
            lemma_distinct_push(pre.completed@, *hash);
        }
        let failed = match class {
            ResrcClass::Unparsed => true,
            _ => false,
        };
        if failed {
            proof {
                assert(self.extraction_failures < completed_len);
            }
            self.extraction_failures += 1;
        }
        self.reported = Ghost(pre.reported@.insert(hash@, class_children(*class)));
        proof {
            assert(self.reported@.dom() =~= self.completed_set());
            assert forall|x: Seq<u8>| #[trigger]
                self.pending_set().contains(x) implies reachable(
                self.reported@,
                self.roots@,
                x,
            ) by {
                lemma_reachable_monotone(pre.reported@, self.reported@, self.roots@, x);
            }
            assert forall|p: Seq<u8>| #[trigger]
                self.completed_set().contains(p) && p != hash@ implies self.reported@[
                p
            ].subset_of(self.pending_set()) by {
                assert(pre.completed_set().contains(p));
                assert(pre.reported@[p].subset_of(pre.pending_set()));
                assert(self.reported@[p] == pre.reported@[p]);
            }
        }
        let ghost mid = *self;
        proof {
            assert(mid.inv_except_report(hash@));
        }

        // Enqueue the children not already pending and hand them back as the
        // new fetch tasks to spawn.
        let children: Vec<[u8; 20]> = match class {
            ResrcClass::Binary(descs) => hash_children(descs),
            ResrcClass::Other => Vec::new(),
            ResrcClass::Unparsed => Vec::new(),
        };
        proof {
            if !(*class is Binary) {
                assert(children@ =~= Seq::<[u8; 20]>::empty());
                lemma_hashes_set_empty();
            }
            assert(hashes_set(children@) == class_children(*class));
        }
        let spawn = self.enqueue_new(&children);
        proof {
            self.lemma_restore_inv(mid, hash@, class_children(*class));
            assert(self.pending_set() == old(self).pending_set().union(class_children(*class)));
        }
        spawn
    }

    /// Enqueue the given hashes that are not yet pending, returning exactly
    /// the newly enqueued ones.
    #[verifier::spinoff_prover]
    fn enqueue_new(&mut self, children: &Vec<[u8; 20]>) -> (spawn: Vec<[u8; 20]>)
        requires
            hashes_distinct(old(self).pending@),
        ensures
            hashes_distinct(final(self).pending@),
            final(self).pending_set() == old(self).pending_set().union(hashes_set(children@)),
            hashes_distinct(spawn@),
            hashes_set(spawn@) == final(self).pending_set().difference(old(self).pending_set()),
            final(self).completed == old(self).completed,
            final(self).reported == old(self).reported,
            final(self).extraction_failures == old(self).extraction_failures,
            final(self).roots == old(self).roots,
    {
        let mut spawn: Vec<[u8; 20]> = Vec::new();
        let mut k: usize = 0;
        proof {
            lemma_hashes_set_empty();
            assert(children@.subrange(0, 0) =~= Seq::<[u8; 20]>::empty());
            assert(self.pending_set() =~= old(self).pending_set().union(
                hashes_set(children@.subrange(0, 0)),
            ));
            assert(hashes_set(spawn@) =~= self.pending_set().difference(old(self).pending_set()));
        }
        while k < children.len()
            invariant
                k <= children@.len(),
                hashes_distinct(self.pending@),
                self.pending_set() == old(self).pending_set().union(
                    hashes_set(children@.subrange(0, k as int)),
                ),
                hashes_distinct(spawn@),
                hashes_set(spawn@) == self.pending_set().difference(old(self).pending_set()),
                self.completed == old(self).completed,
                self.reported == old(self).reported,
                self.extraction_failures == old(self).extraction_failures,
                self.roots == old(self).roots,
            decreases children@.len() - k,
        {
            proof {
                assert(children@.subrange(0, k + 1).drop_last() =~= children@.subrange(
                    0,
                    k as int,
                ));
                assert(children@.subrange(0, k + 1).last() == children@[k as int]);
            }
            let c = children[k];
            if !vec_contains_hash(&self.pending, &c) {
                let ghost p_pre = self.pending@;
                let ghost s_pre = spawn@;
                self.pending.push(c);
                spawn.push(c);
                proof {
                    lemma_hashes_set_push(p_pre, c);
                    lemma_distinct_push(p_pre, c);
                    lemma_hashes_set_push(s_pre, c);
                    lemma_distinct_push(s_pre, c);
                }
            }
            proof {
                assert(self.pending_set() =~= old(self).pending_set().union(
                    hashes_set(children@.subrange(0, k + 1)),
                ));
                assert(hashes_set(spawn@) =~= self.pending_set().difference(
                    old(self).pending_set(),
                ));
            }
            k += 1;
        }
        proof {
            assert(children@.subrange(0, children@.len() as int) =~= children@);
        }
        spawn
    }

    /// Everything `inv` asks except that the freshly reported children of
    /// `h` need not all be enqueued yet.
    spec fn inv_except_report(&self, h: Seq<u8>) -> bool {
        &&& hashes_distinct(self.pending@)
        &&& hashes_distinct(self.completed@)
        &&& self.completed_set().subset_of(self.pending_set())
        &&& self.root_set().subset_of(self.pending_set())
        &&& self.reported@.dom() == self.completed_set()
        &&& self.completed_set().contains(h)
        &&& forall|p: Seq<u8>| #[trigger]
            self.completed_set().contains(p) && p != h ==> self.reported@[p].subset_of(
                self.pending_set(),
            )
        &&& forall|x: Seq<u8>| #[trigger]
            self.pending_set().contains(x) ==> reachable(self.reported@, self.roots@, x)
        &&& self.extraction_failures <= self.completed@.len()
    }

    /// After the spawn loop has enqueued every child reported for `h`, the
    /// full invariant holds again.
    #[verifier::spinoff_prover]
    proof fn lemma_restore_inv(&self, mid: Resolver, h: Seq<u8>, children: Set<Seq<u8>>)
        requires
            mid.inv_except_report(h),
            self.completed == mid.completed,
            self.reported == mid.reported,
            self.extraction_failures == mid.extraction_failures,
            self.roots == mid.roots,
            hashes_distinct(self.pending@),
            self.reported@[h] == children,
            self.pending_set() == mid.pending_set().union(children),
        ensures
            self.inv(),
    {
        assert(mid.pending_set().subset_of(self.pending_set()));
        assert forall|p: Seq<u8>| #[trigger]
            self.completed_set().contains(p) implies self.reported@[p].subset_of(
            self.pending_set(),
        ) by {
            if p != h {
                assert(mid.reported@[p].subset_of(mid.pending_set()));
            }
        }
        assert forall|x: Seq<u8>| #[trigger]
            self.pending_set().contains(x) implies reachable(
            self.reported@,
            self.roots@,
            x,
        ) by {
            if mid.pending_set().contains(x) {
            } else {
                assert(children.contains(x));
                assert(reachable(self.reported@, self.roots@, h));
                lemma_reachable_step(self.reported@, self.roots@, h, x);
            }
        }
    }

    /// Whether the frontier has drained: no fetch task remains outstanding.
    #[verifier::spinoff_prover]
    pub fn is_done(&self) -> (r: bool)
        requires
            self.inv(),
        ensures
            r == self.done(),
    {
        proof {
            lemma_hashes_set_len(self.completed@);
            lemma_hashes_set_len(self.pending@);
            if self.completed@.len() == self.pending@.len() {
                lemma_subset_equality(self.completed_set(), self.pending_set());
            }
        }
        self.completed.len() == self.pending.len()
    }

    /// Count of non-fatal dependency-extraction failures reported so far.
    pub fn extraction_failures(&self) -> (n: usize)
        ensures
            n == self.failures(),
    {
        self.extraction_failures
    }

    /// A completed run is a resolved closure: it contains the roots, every
    /// reported child of a resolved hash is resolved, and every resolved
    /// hash is reachable from the roots through the reports.
    pub proof fn lemma_complete_run_is_closure(&self)
        requires
            self.inv(),
            self.done(),
        ensures
            is_resolved_closure(self.reported(), self.root_set(), self.pending_set()),
    {
    }
}

/// Determinism under the concurrency bound: two completed runs over the same
/// roots, whose reports agree with one oracle — the children a blob reports
/// are a function of its hash alone, however the runs were scheduled —
/// resolve exactly the same set of hashes.
pub proof fn lemma_deterministic_resolution(f: DepGraph, r1: &Resolver, r2: &Resolver)
    requires
        r1.inv(),
        r1.done(),
        r2.inv(),
        r2.done(),
        r1.root_set() == r2.root_set(),
        agrees_with(f, r1.reported()),
        agrees_with(f, r2.reported()),
    ensures
        r1.pending_set() == r2.pending_set(),
{
    r1.lemma_complete_run_is_closure();
    r2.lemma_complete_run_is_closure();
    lemma_closure_under_oracle(f, r1.reported(), r1.root_set(), r1.pending_set());
    lemma_closure_under_oracle(f, r2.reported(), r2.root_set(), r2.pending_set());
    lemma_unique_closure(f, r1.root_set(), r1.pending_set(), r2.pending_set());
}

/// Idempotent warm cache: two runs that resolved the same set of hashes,
/// each drawing its blobs from the same fixed contents — the archive and the
/// verified disk cache hold one byte string per hash — produce identical
/// result maps.
pub proof fn lemma_rerun_identical_result(
    contents: Map<Seq<u8>, Seq<u8>>,
    m1: Map<Seq<u8>, Seq<u8>>,
    m2: Map<Seq<u8>, Seq<u8>>,
)
    requires
        m1.dom() == m2.dom(),
        forall|k: Seq<u8>| #[trigger]
            m1.dom().contains(k) ==> contents.dom().contains(k) && m1[k] == contents[k],
        forall|k: Seq<u8>| #[trigger]
            m2.dom().contains(k) ==> contents.dom().contains(k) && m2[k] == contents[k],
    ensures
        m1 == m2,
{
    assert forall|k: Seq<u8>| #[trigger] m1.dom().contains(k) implies m1[k] == m2[k] by {
        assert(m2.dom().contains(k));
    }
    assert(m1 =~= m2);
}

} // verus!
