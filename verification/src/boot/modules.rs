//! Loads every kernel module that the initramfs ships.
//!
//! The order in which modules depend on each other is found by trying: each pass tries
//! every module that is not loaded yet, and those that fail are tried again in the next
//! one. Where a pass loads nothing, the rest cannot be loaded.

use vstd::multiset::Multiset;
use vstd::prelude::*;
use vstd::string::*;

use crate::text::{
    chars_of, contains, decimal, decimal_text, has_part, law_part_has_something_around_it, same,
};

verus! {

/// An entry of a directory: its path, whether it is a directory, and its name where
/// that is text.
pub struct Entry<P> {
    pub path: P,
    pub is_dir: bool,
    pub name: Option<String>,
}

/// The file called `name` is a kernel module, plain or compressed.
pub open spec fn is_module_name(name: Option<String>) -> bool {
    name is Some && has_part(name->0@, ".ko"@)
}

/// The directories among `entries`, in order.
pub open spec fn dirs_of<P>(entries: Seq<Entry<P>>) -> Seq<P>
    decreases entries.len(),
{
    if entries.len() == 0 {
        Seq::empty()
    } else {
        let before = dirs_of(entries.drop_last());
        if entries.last().is_dir {
            before.push(entries.last().path)
        } else {
            before
        }
    }
}

/// The modules among `entries`, in order.
pub open spec fn modules_of<P>(entries: Seq<Entry<P>>) -> Seq<P>
    decreases entries.len(),
{
    if entries.len() == 0 {
        Seq::empty()
    } else {
        let before = modules_of(entries.drop_last());
        if !entries.last().is_dir && is_module_name(entries.last().name) {
            before.push(entries.last().path)
        } else {
            before
        }
    }
}

/// A walk over all directories below a root. The caller lists the directory that
/// [`KoWalk::next_dir`] names, and hands the entries to [`KoWalk::listed`].
pub struct KoWalk<P> {
    /// The directories that are still to be listed; the last one is the next.
    pub stack: Vec<P>,
    /// The modules that were found.
    pub found: Vec<P>,
}

impl<P> KoWalk<P> {
    /// Starts a walk at `root`.
    pub fn collect_kos(root: P) -> (r: KoWalk<P>)
        ensures
            r.stack@ == seq![root],
            r.found@.len() == 0,
    {
        KoWalk { stack: vec![root], found: Vec::new() }
    }

    /// Names the directory to list next; none when the walk is over.
    pub fn next_dir(&mut self) -> (r: Option<P>)
        ensures
            final(self).found == old(self).found,
            old(self).stack@.len() == 0 ==> r is None && final(self).stack@ == old(self).stack@,
            old(self).stack@.len() > 0 ==> r == Some(old(self).stack@.last()) && final(self).stack@
                == old(self).stack@.drop_last(),
    {
        self.stack.pop()
    }

    /// Takes the entries of a directory.
    pub fn listed(&mut self, entries: Vec<Entry<P>>)
        ensures
            final(self).stack@ == old(self).stack@ + dirs_of(entries@),
            final(self).found@ == old(self).found@ + modules_of(entries@),
    {
        let ghost dirs = self.stack@;
        let ghost kos = self.found@;
        assert(dirs + dirs_of(entries@.take(0)) =~= dirs);
        assert(kos + modules_of(entries@.take(0)) =~= kos);
        for entry in it: entries
            invariant
                it.seq() == entries@,
                self.stack@ == dirs + dirs_of(entries@.take(it.index())),
                self.found@ == kos + modules_of(entries@.take(it.index())),
        {
            let ghost seen = entries@.take(it.index() + 1);
            assert(seen.drop_last() =~= entries@.take(it.index()));
            assert(seen.last() == entry);
            if entry.is_dir {
                self.stack.push(entry.path);
                assert(dirs + dirs_of(seen) =~= (dirs + dirs_of(seen.drop_last())).push(entry.path));
            } else {
                let is_module = match &entry.name {
                    Some(name) => contains(name, ".ko"),
                    None => false,
                };
                if is_module {
                    self.found.push(entry.path);
                    assert(kos + modules_of(seen) =~= (kos + modules_of(seen.drop_last())).push(
                        entry.path,
                    ));
                }
            }
        }
        assert(entries@.take(entries@.len() as int) =~= entries@);
    }
}

/// The extension of a file name: what follows its last dot, unless that dot is its
/// first character.
pub open spec fn extension(name: Seq<char>) -> Option<Seq<char>> {
    let dot = last_dot(name);
    if dot <= 0 {
        None
    } else {
        Some(name.skip(dot + 1))
    }
}

/// Where the last dot of `s` stands; -1 where there is none.
pub open spec fn last_dot(s: Seq<char>) -> int
    decreases s.len(),
{
    if s.len() == 0 {
        -1
    } else if s.last() == '.' {
        s.len() - 1
    } else {
        last_dot(s.drop_last())
    }
}

/// The module in the file called `name` is compressed.
pub open spec fn compressed_name(name: Seq<char>) -> bool {
    extension(name) == Some("xz"@) || extension(name) == Some("gz"@) || extension(name) == Some(
        "zst"@,
    )
}

/// Whether the module in the file called `name` is compressed, so that the kernel has
/// to inflate it.
pub fn is_compressed(name: &str) -> (r: bool)
    ensures
        r == compressed_name(name@),
{
    let text = chars_of(name);
    let mut at: usize = text.len();
    assert(text@.take(at as int) =~= text@);
    while at > 0 && text[at - 1] != '.'
        invariant
            at <= text.len(),
            last_dot(text@) == last_dot(text@.take(at as int)),
        decreases at,
    {
        assert(text@.take(at as int).drop_last() =~= text@.take(at - 1));
        at -= 1;
    }
    if at <= 1 {
        return false;
    }
    let ext = name.substring_char(at, text.len());
    assert(ext@ =~= name@.skip(at as int));
    same(ext, "xz") || same(ext, "gz") || same(ext, "zst")
}

/// What comes of a pass.
pub enum Pass<P> {
    /// Every module is loaded.
    Done,
    /// These are to be tried again.
    Again(Vec<P>),
    /// Nothing was loaded: the rest cannot be.
    Stuck(String),
}

/// Those of `pending` whose loading failed, in order.
pub open spec fn failures<P>(pending: Seq<P>, outcomes: Seq<Result<(), String>>) -> Seq<P>
    decreases pending.len(),
{
    if pending.len() == 0 {
        Seq::empty()
    } else {
        let before = failures(pending.drop_last(), outcomes.drop_last());
        if outcomes.last() is Err {
            before.push(pending.last())
        } else {
            before
        }
    }
}

/// The text of the last failure; empty where there is none.
pub open spec fn last_failure(outcomes: Seq<Result<(), String>>) -> Seq<char>
    decreases outcomes.len(),
{
    if outcomes.len() == 0 {
        Seq::empty()
    } else {
        match outcomes.last() {
            Err(e) => e@,
            Ok(()) => last_failure(outcomes.drop_last()),
        }
    }
}

/// What to tell the operator where `count` modules cannot be loaded.
pub open spec fn stuck_text(count: nat, last: Seq<char>) -> Seq<char> {
    decimal(count) + " module(s) failed to load (unresolved deps?); last: "@ + last
}

/// Decides after a pass over `pending`, given what came of each module in turn.
pub fn load_all<P>(pending: Vec<P>, outcomes: Vec<Result<(), String>>) -> (r: Pass<P>)
    requires
        pending@.len() == outcomes@.len(),
    ensures
        ({
            let still = failures(pending@, outcomes@);
            match r {
                Pass::Done => still.len() == 0,
                Pass::Again(next) => next@ == still && 0 < still.len() < pending@.len(),
                Pass::Stuck(text) => still.len() == pending@.len() && still.len() > 0 && text@
                    == stuck_text(still.len(), last_failure(outcomes@)),
            }
        }),
{
    let before: usize = pending.len();
    let mut still: Vec<P> = Vec::new();
    let mut last = String::new();
    let mut i: usize = 0;
    assert(pending@.take(0) =~= Seq::empty());
    assert(outcomes@.take(0) =~= Seq::empty());
    for module in it: pending
        invariant
            it.seq() == pending@,
            i == it.index(),
            i <= pending@.len(),
            before == pending@.len() == outcomes@.len(),
            still@ == failures(pending@.take(i as int), outcomes@.take(i as int)),
            last@ == last_failure(outcomes@.take(i as int)),
    {
        assert(pending@.take(i + 1).drop_last() =~= pending@.take(i as int));
        assert(outcomes@.take(i + 1).drop_last() =~= outcomes@.take(i as int));
        match &outcomes[i] {
            Ok(()) => {},
            Err(e) => {
                last = e.clone();
                still.push(module);
            },
        }
        i += 1;
    }
    assert(pending@.take(before as int) =~= pending@);
    assert(outcomes@.take(before as int) =~= outcomes@);
    proof {
        lemma_failures_bounded(pending@, outcomes@);
    }
    if still.len() == 0 {
        Pass::Done
    } else if still.len() == before {
        let mut text = decimal_text(still.len() as u64);
        text.append(" module(s) failed to load (unresolved deps?); last: ");
        text.append(&last);
        Pass::Stuck(text)
    } else {
        Pass::Again(still)
    }
}

proof fn lemma_failures_bounded<P>(pending: Seq<P>, outcomes: Seq<Result<(), String>>)
    requires
        pending.len() == outcomes.len(),
    ensures
        failures(pending, outcomes).len() <= pending.len(),
    decreases pending.len(),
{
    if pending.len() > 0 {
        lemma_failures_bounded(pending.drop_last(), outcomes.drop_last());
    }
}

/// A pass in which any module loads is never the last word: only a pass that loads
/// nothing gives up.
pub proof fn law_a_loaded_module_is_progress<P>(
    pending: Seq<P>,
    outcomes: Seq<Result<(), String>>,
    i: int,
)
    requires
        pending.len() == outcomes.len(),
        0 <= i < pending.len(),
        outcomes[i] is Ok,
    ensures
        failures(pending, outcomes).len() < pending.len(),
    decreases pending.len(),
{
    lemma_failures_bounded(pending.drop_last(), outcomes.drop_last());
    if i < pending.len() - 1 {
        law_a_loaded_module_is_progress(pending.drop_last(), outcomes.drop_last(), i);
    }
}

/// A module of the lowest rank among `pending`.
proof fn lemma_lowest<P>(pending: Seq<P>, rank: spec_fn(P) -> nat) -> (i: int)
    requires
        pending.len() > 0,
    ensures
        0 <= i < pending.len(),
        forall|j: int| 0 <= j < pending.len() ==> rank(pending[i]) <= rank(#[trigger] pending[j]),
    decreases pending.len(),
{
    let last = pending.len() - 1;
    if last == 0 {
        0
    } else {
        let front = pending.drop_last();
        let k = lemma_lowest(front, rank);
        assert forall|j: int| 0 <= j < last implies rank(pending[k]) <= rank(#[trigger] pending[j]) by {
            assert(front[j] == pending[j]);
        }
        if rank(pending[last]) < rank(pending[k]) {
            last
        } else {
            k
        }
    }
}

/// The modules depend on each other without a cycle (whatever a module depends on has a
/// lower rank), and whatever a pending module depends on is loaded or pending itself.
pub open spec fn can_be_loaded<P>(
    pending: Seq<P>,
    loaded: Set<P>,
    needs: spec_fn(P) -> Set<P>,
    rank: spec_fn(P) -> nat,
) -> bool {
    forall|i: int, d: P|
        0 <= i < pending.len() && #[trigger] needs(pending[i]).contains(d) ==> rank(d) < rank(
            pending[i],
        ) && (loaded.contains(d) || pending.contains(d))
}

/// In a pass over `pending`, every module loads of which all that it depends on was
/// loaded before.
pub open spec fn ready_ones_load<P>(
    pending: Seq<P>,
    outcomes: Seq<Result<(), String>>,
    loaded: Set<P>,
    needs: spec_fn(P) -> Set<P>,
) -> bool {
    &&& pending.len() == outcomes.len()
    &&& forall|i: int|
        #![trigger outcomes[i]]
        0 <= i < pending.len() && needs(pending[i]).subset_of(loaded) ==> outcomes[i] is Ok
}

/// The modules that are loaded after a pass.
pub open spec fn loaded_after<P>(
    pending: Seq<P>,
    outcomes: Seq<Result<(), String>>,
    loaded: Set<P>,
) -> Set<P> {
    Set::new(
        |p: P|
            loaded.contains(p) || exists|i: int|
                0 <= i < pending.len() && #[trigger] pending[i] == p && outcomes[i] is Ok,
    )
}

/// Every pass loads something, where the modules can be loaded and those that are ready
/// do load. What is left can then be loaded in turn.
pub proof fn law_passes_converge<P>(
    pending: Seq<P>,
    outcomes: Seq<Result<(), String>>,
    loaded: Set<P>,
    needs: spec_fn(P) -> Set<P>,
    rank: spec_fn(P) -> nat,
)
    requires
        can_be_loaded(pending, loaded, needs, rank),
        ready_ones_load(pending, outcomes, loaded, needs),
    ensures
        pending.len() > 0 ==> failures(pending, outcomes).len() < pending.len(),
        can_be_loaded(
            failures(pending, outcomes),
            loaded_after(pending, outcomes, loaded),
            needs,
            rank,
        ),
{
    let next = failures(pending, outcomes);
    let now = loaded_after(pending, outcomes, loaded);
    if pending.len() > 0 {
        let i = lemma_lowest(pending, rank);
        assert forall|d: P| #[trigger] needs(pending[i]).contains(d) implies loaded.contains(d) by {
            if !loaded.contains(d) {
                let j = choose|j: int| 0 <= j < pending.len() && pending[j] == d;
                assert(rank(pending[j]) < rank(pending[i]));
            }
        }
        assert(needs(pending[i]).subset_of(loaded));
        assert(outcomes[i] is Ok);
        law_a_loaded_module_is_progress(pending, outcomes, i);
    }
    assert forall|i: int, d: P|
        0 <= i < next.len() && #[trigger] needs(next[i]).contains(d) implies rank(d) < rank(next[i])
        && (now.contains(d) || next.contains(d)) by {
        let j = lemma_failure_was_pending(pending, outcomes, i);
        assert(needs(pending[j]).contains(d));
        if !loaded.contains(d) {
            let k = choose|k: int| 0 <= k < pending.len() && pending[k] == d;
            if outcomes[k] is Err {
                lemma_failure_stays(pending, outcomes, k);
            }
        }
    }
}

/// What is left after a pass was pending before it. The result is where.
proof fn lemma_failure_was_pending<P>(
    pending: Seq<P>,
    outcomes: Seq<Result<(), String>>,
    i: int,
) -> (j: int)
    requires
        pending.len() == outcomes.len(),
        0 <= i < failures(pending, outcomes).len(),
    ensures
        0 <= j < pending.len(),
        pending[j] == failures(pending, outcomes)[i],
        outcomes[j] is Err,
    decreases pending.len(),
{
    let front = pending.drop_last();
    let before = failures(front, outcomes.drop_last());
    if i < before.len() {
        let j = lemma_failure_was_pending(front, outcomes.drop_last(), i);
        assert(front[j] == pending[j]);
        j
    } else {
        pending.len() - 1
    }
}

/// A module that fails to load is left after the pass.
proof fn lemma_failure_stays<P>(pending: Seq<P>, outcomes: Seq<Result<(), String>>, k: int)
    requires
        pending.len() == outcomes.len(),
        0 <= k < pending.len(),
        outcomes[k] is Err,
    ensures
        failures(pending, outcomes).contains(pending[k]),
    decreases pending.len(),
{
    let front = pending.drop_last();
    let before = failures(front, outcomes.drop_last());
    let all = failures(pending, outcomes);
    if k < front.len() {
        lemma_failure_stays(front, outcomes.drop_last(), k);
        let i = choose|i: int| 0 <= i < before.len() && before[i] == front[k];
        assert(all[i] == pending[k]);
    } else {
        assert(all[before.len() as int] == pending[k]);
    }
}

/// The modules that are pending after `n` passes, where `passes` tells what came of each.
pub open spec fn pending_at<P>(
    pending: Seq<P>,
    passes: spec_fn(nat) -> Seq<Result<(), String>>,
    n: nat,
) -> Seq<P>
    decreases n,
{
    if n == 0 {
        pending
    } else {
        failures(pending_at(pending, passes, (n - 1) as nat), passes((n - 1) as nat))
    }
}

/// The modules that are loaded after `n` passes.
pub open spec fn loaded_at<P>(
    pending: Seq<P>,
    passes: spec_fn(nat) -> Seq<Result<(), String>>,
    loaded: Set<P>,
    n: nat,
) -> Set<P>
    decreases n,
{
    if n == 0 {
        loaded
    } else {
        loaded_after(
            pending_at(pending, passes, (n - 1) as nat),
            passes((n - 1) as nat),
            loaded_at(pending, passes, loaded, (n - 1) as nat),
        )
    }
}

/// How many loads are tried in the first `n` passes.
pub open spec fn loads_tried<P>(
    pending: Seq<P>,
    passes: spec_fn(nat) -> Seq<Result<(), String>>,
    n: nat,
) -> nat
    decreases n,
{
    if n == 0 {
        0
    } else {
        loads_tried(pending, passes, (n - 1) as nat) + pending_at(
            pending,
            passes,
            (n - 1) as nat,
        ).len()
    }
}

/// The whole run converges: where the modules can be loaded, and in every pass those that
/// are ready load, no pass that has something to load gives up, and after as many passes
/// as there are modules, all are loaded.
pub proof fn law_run_converges<P>(
    pending: Seq<P>,
    passes: spec_fn(nat) -> Seq<Result<(), String>>,
    loaded: Set<P>,
    needs: spec_fn(P) -> Set<P>,
    rank: spec_fn(P) -> nat,
)
    requires
        can_be_loaded(pending, loaded, needs, rank),
        forall|n: nat|
            ready_ones_load(
                #[trigger] pending_at(pending, passes, n),
                passes(n),
                loaded_at(pending, passes, loaded, n),
                needs,
            ),
    ensures
        forall|n: nat|
            #![trigger pending_at(pending, passes, n)]
            pending_at(pending, passes, n).len() > 0 ==> failures(
                pending_at(pending, passes, n),
                passes(n),
            ).len() < pending_at(pending, passes, n).len(),
        pending_at(pending, passes, pending.len()).len() == 0,
        forall|i: int|
            0 <= i < pending.len() ==> loaded_at(pending, passes, loaded, pending.len()).contains(
                #[trigger] pending[i],
            ),
{
    assert forall|n: nat|
        #![trigger pending_at(pending, passes, n)]
        pending_at(pending, passes, n).len() > 0 implies failures(
        pending_at(pending, passes, n),
        passes(n),
    ).len() < pending_at(pending, passes, n).len() by {
        lemma_run_goes_on(pending, passes, loaded, needs, rank, n);
    }
    lemma_run_goes_on(pending, passes, loaded, needs, rank, pending.len());
    assert forall|i: int| 0 <= i < pending.len() implies loaded_at(
        pending,
        passes,
        loaded,
        pending.len(),
    ).contains(#[trigger] pending[i]) by {
        lemma_none_is_lost(pending, passes, loaded, pending.len(), i);
    }
}

/// A module of a run is always loaded or pending.
proof fn lemma_none_is_lost<P>(
    pending: Seq<P>,
    passes: spec_fn(nat) -> Seq<Result<(), String>>,
    loaded: Set<P>,
    n: nat,
    i: int,
)
    requires
        forall|m: nat| (#[trigger] pending_at(pending, passes, m)).len() == passes(m).len(),
        0 <= i < pending.len(),
    ensures
        loaded_at(pending, passes, loaded, n).contains(pending[i]) || pending_at(
            pending,
            passes,
            n,
        ).contains(pending[i]),
    decreases n,
{
    if n > 0 {
        let m = (n - 1) as nat;
        let before = pending_at(pending, passes, m);
        lemma_none_is_lost(pending, passes, loaded, m, i);
        if !loaded_at(pending, passes, loaded, m).contains(pending[i]) {
            let k = choose|k: int| 0 <= k < before.len() && before[k] == pending[i];
            if passes(m)[k] is Err {
                lemma_failure_stays(before, passes(m), k);
            } else {
                assert(before[k] == pending[i] && passes(m)[k] is Ok);
            }
        }
    }
}

/// After every pass of such a run, fewer modules are pending, and these can be loaded.
proof fn lemma_run_goes_on<P>(
    pending: Seq<P>,
    passes: spec_fn(nat) -> Seq<Result<(), String>>,
    loaded: Set<P>,
    needs: spec_fn(P) -> Set<P>,
    rank: spec_fn(P) -> nat,
    n: nat,
)
    requires
        can_be_loaded(pending, loaded, needs, rank),
        forall|m: nat|
            ready_ones_load(
                #[trigger] pending_at(pending, passes, m),
                passes(m),
                loaded_at(pending, passes, loaded, m),
                needs,
            ),
    ensures
        can_be_loaded(
            pending_at(pending, passes, n),
            loaded_at(pending, passes, loaded, n),
            needs,
            rank,
        ),
        pending_at(pending, passes, n).len() + n <= pending.len() || pending_at(
            pending,
            passes,
            n,
        ).len() == 0,
        pending_at(pending, passes, n).len() > 0 ==> failures(
            pending_at(pending, passes, n),
            passes(n),
        ).len() < pending_at(pending, passes, n).len(),
    decreases n,
{
    let now = pending_at(pending, passes, n);
    if n > 0 {
        let m = (n - 1) as nat;
        let before = pending_at(pending, passes, m);
        lemma_run_goes_on(pending, passes, loaded, needs, rank, m);
        law_passes_converge(
            before,
            passes(m),
            loaded_at(pending, passes, loaded, m),
            needs,
            rank,
        );
        lemma_failures_bounded(before, passes(m));
    }
    law_passes_converge(now, passes(n), loaded_at(pending, passes, loaded, n), needs, rank);
}

/// However a run goes, it tries at most n(n+1)/2 loads of n modules: every pass but the
/// last, which may give up, leaves fewer modules for the next.
pub proof fn law_loads_are_bounded<P>(
    pending: Seq<P>,
    passes: spec_fn(nat) -> Seq<Result<(), String>>,
    n: nat,
)
    requires
        forall|m: nat|
            m < n ==> (#[trigger] pending_at(pending, passes, m + 1)).len() < pending_at(
                pending,
                passes,
                m,
            ).len(),
    ensures
        2 * loads_tried(pending, passes, n + 1) <= pending.len() * (pending.len() + 1),
{
    lemma_loads(pending, passes, n);
    let left = pending_at(pending, passes, n).len();
    assert(2 * left <= left * (left + 1)) by (nonlinear_arith)
        requires
            left >= 0,
    ;
    assert(loads_tried(pending, passes, n + 1) == loads_tried(pending, passes, n) + left);
}

proof fn lemma_loads<P>(
    pending: Seq<P>,
    passes: spec_fn(nat) -> Seq<Result<(), String>>,
    n: nat,
)
    requires
        forall|m: nat|
            m < n ==> (#[trigger] pending_at(pending, passes, m + 1)).len() < pending_at(
                pending,
                passes,
                m,
            ).len(),
    ensures
        2 * loads_tried(pending, passes, n) + pending_at(pending, passes, n).len() * (pending_at(
            pending,
            passes,
            n,
        ).len() + 1) <= pending.len() * (pending.len() + 1),
    decreases n,
{
    if n > 0 {
        let m = (n - 1) as nat;
        lemma_loads(pending, passes, m);
        let before = pending_at(pending, passes, m).len();
        let now = pending_at(pending, passes, m + 1).len();
        assert(now < before);
        assert(2 * before + now * (now + 1) <= before * (before + 1)) by (nonlinear_arith)
            requires
                0 <= now < before,
        ;
    }
}

/// The modules in `dir` and in all directories below it, `depth` levels of them, where
/// `tree` tells what each directory holds.
pub open spec fn modules_below<P>(
    tree: spec_fn(P) -> Seq<Entry<P>>,
    depth: nat,
    dir: P,
) -> Multiset<P>
    decreases depth, 0nat,
{
    if depth == 0 {
        Multiset::empty()
    } else {
        modules_of(tree(dir)).to_multiset().add(
            modules_below_all(tree, (depth - 1) as nat, dirs_of(tree(dir))),
        )
    }
}

/// The modules in and below all of `dirs`.
pub open spec fn modules_below_all<P>(
    tree: spec_fn(P) -> Seq<Entry<P>>,
    depth: nat,
    dirs: Seq<P>,
) -> Multiset<P>
    decreases depth, dirs.len() + 1,
{
    if dirs.len() == 0 {
        Multiset::empty()
    } else {
        modules_below_all(tree, depth, dirs.drop_last()).add(modules_below(tree, depth, dirs.last()))
    }
}

/// The directories below `dir` are nested less than `depth` levels deep, `dir` itself
/// being the first.
pub open spec fn is_shallow<P>(tree: spec_fn(P) -> Seq<Entry<P>>, depth: nat, dir: P) -> bool
    decreases depth,
{
    depth > 0 && forall|i: int|
        0 <= i < dirs_of(tree(dir)).len() ==> is_shallow(
            tree,
            (depth - 1) as nat,
            #[trigger] dirs_of(tree(dir))[i],
        )
}

/// All of `dirs` are shallow.
pub open spec fn are_shallow<P>(tree: spec_fn(P) -> Seq<Entry<P>>, depth: nat, dirs: Seq<P>) -> bool {
    forall|i: int| 0 <= i < dirs.len() ==> is_shallow(tree, depth, #[trigger] dirs[i])
}

/// Looking deeper than a tree goes finds nothing more.
proof fn lemma_deep_enough<P>(tree: spec_fn(P) -> Seq<Entry<P>>, depth: nat, dir: P)
    requires
        is_shallow(tree, depth, dir),
    ensures
        is_shallow(tree, depth + 1, dir),
        modules_below(tree, depth + 1, dir) == modules_below(tree, depth, dir),
    decreases depth, 0nat,
{
    let dirs = dirs_of(tree(dir));
    assert(are_shallow(tree, (depth - 1) as nat, dirs));
    lemma_all_deep_enough(tree, (depth - 1) as nat, dirs);
    assert forall|i: int| 0 <= i < dirs.len() implies is_shallow(tree, depth, #[trigger] dirs[i]) by {
        assert(is_shallow(tree, ((depth - 1) as nat) + 1, dirs[i]));
    }
}

proof fn lemma_all_deep_enough<P>(tree: spec_fn(P) -> Seq<Entry<P>>, depth: nat, dirs: Seq<P>)
    requires
        are_shallow(tree, depth, dirs),
    ensures
        are_shallow(tree, depth + 1, dirs),
        modules_below_all(tree, depth + 1, dirs) == modules_below_all(tree, depth, dirs),
    decreases depth, dirs.len() + 1,
{
    if dirs.len() > 0 {
        let front = dirs.drop_last();
        assert forall|i: int| 0 <= i < front.len() implies is_shallow(tree, depth, #[trigger] front[i]) by {
            assert(front[i] == dirs[i]);
        }
        assert(is_shallow(tree, depth, dirs[dirs.len() - 1]));
        lemma_all_deep_enough(tree, depth, front);
        lemma_deep_enough(tree, depth, dirs.last());
        assert forall|i: int| 0 <= i < dirs.len() implies is_shallow(tree, depth + 1, #[trigger] dirs[i]) by {
            if i < front.len() {
                assert(is_shallow(tree, depth + 1, front[i]));
            }
        }
    }
}

/// The modules below two lists of directories together are those below each.
proof fn lemma_below_both<P>(tree: spec_fn(P) -> Seq<Entry<P>>, depth: nat, a: Seq<P>, b: Seq<P>)
    ensures
        modules_below_all(tree, depth, a + b) == modules_below_all(tree, depth, a).add(
            modules_below_all(tree, depth, b),
        ),
    decreases b.len(),
{
    let all = a + b;
    if b.len() == 0 {
        assert(all =~= a);
        assert(modules_below_all(tree, depth, a) =~= modules_below_all(tree, depth, a).add(
            Multiset::empty(),
        ));
    } else {
        lemma_below_both(tree, depth, a, b.drop_last());
        assert(all.drop_last() =~= a + b.drop_last());
        assert(all.last() == b.last());
        assert(modules_below_all(tree, depth, all) =~= modules_below_all(tree, depth, a).add(
            modules_below_all(tree, depth, b),
        ));
    }
}

/// A walk loses no module, and finds none twice: to list the next directory, and take
/// in its entries, leaves unchanged which modules were found or are still to be found.
/// At the start these are all modules below the root, and at the end all that were
/// found.
pub proof fn law_walk_finds_every_module<P>(
    tree: spec_fn(P) -> Seq<Entry<P>>,
    depth: nat,
    stack: Seq<P>,
    found: Seq<P>,
    root: P,
)
    requires
        are_shallow(tree, depth, stack),
        is_shallow(tree, depth, root),
    ensures
        stack.len() > 0 ==> ({
            let entries = tree(stack.last());
            let next = stack.drop_last() + dirs_of(entries);
            &&& are_shallow(tree, depth, next)
            &&& (found + modules_of(entries)).to_multiset().add(modules_below_all(tree, depth, next))
                == found.to_multiset().add(modules_below_all(tree, depth, stack))
        }),
        modules_below_all(tree, depth, seq![root]) == modules_below(tree, depth, root),
        modules_below_all(tree, depth, Seq::<P>::empty()) == Multiset::<P>::empty(),
{
    if stack.len() > 0 {
        let dir = stack.last();
        let entries = tree(dir);
        let dirs = dirs_of(entries);
        let front = stack.drop_last();
        let next = front + dirs;
        assert(is_shallow(tree, depth, stack[stack.len() - 1]));
        assert(are_shallow(tree, (depth - 1) as nat, dirs));
        lemma_all_deep_enough(tree, (depth - 1) as nat, dirs);
        lemma_below_both(tree, depth, front, dirs);
        assert forall|i: int| 0 <= i < next.len() implies is_shallow(tree, depth, #[trigger] next[i]) by {
            if i < front.len() {
                assert(next[i] == stack[i]);
            } else {
                assert(next[i] == dirs[i - front.len()]);
                assert(is_shallow(tree, ((depth - 1) as nat) + 1, dirs[i - front.len()]));
            }
        }
        vstd::seq_lib::lemma_multiset_commutative(found, modules_of(entries));
        let here = modules_of(entries).to_multiset().add(modules_below_all(tree, depth, dirs));
        assert(modules_below(tree, depth, dir) == here);
        assert(modules_below_all(tree, depth, stack) == modules_below_all(tree, depth, front).add(
            here,
        ));
        assert((found + modules_of(entries)).to_multiset().add(
            modules_below_all(tree, depth, next),
        ) =~= found.to_multiset().add(modules_below_all(tree, depth, stack)));
    }
    assert(seq![root].drop_last() =~= Seq::<P>::empty());
    assert(modules_below_all(tree, depth, seq![root].drop_last()) == Multiset::<P>::empty());
    assert(modules_below_all(tree, depth, seq![root]) =~= modules_below(tree, depth, root));
}

/// How many directories there are in and below `dir`.
pub open spec fn dirs_below<P>(tree: spec_fn(P) -> Seq<Entry<P>>, depth: nat, dir: P) -> nat
    decreases depth, 0nat,
{
    if depth == 0 {
        0
    } else {
        1 + dirs_below_all(tree, (depth - 1) as nat, dirs_of(tree(dir)))
    }
}

/// How many directories there are in and below all of `dirs`.
pub open spec fn dirs_below_all<P>(
    tree: spec_fn(P) -> Seq<Entry<P>>,
    depth: nat,
    dirs: Seq<P>,
) -> nat
    decreases depth, dirs.len() + 1,
{
    if dirs.len() == 0 {
        0
    } else {
        dirs_below_all(tree, depth, dirs.drop_last()) + dirs_below(tree, depth, dirs.last())
    }
}

proof fn lemma_no_more_dirs<P>(tree: spec_fn(P) -> Seq<Entry<P>>, depth: nat, dir: P)
    requires
        is_shallow(tree, depth, dir),
    ensures
        dirs_below(tree, depth + 1, dir) == dirs_below(tree, depth, dir),
    decreases depth, 0nat,
{
    let dirs = dirs_of(tree(dir));
    assert(are_shallow(tree, (depth - 1) as nat, dirs));
    lemma_no_more_dirs_in_all(tree, (depth - 1) as nat, dirs);
}

proof fn lemma_no_more_dirs_in_all<P>(tree: spec_fn(P) -> Seq<Entry<P>>, depth: nat, dirs: Seq<P>)
    requires
        are_shallow(tree, depth, dirs),
    ensures
        dirs_below_all(tree, depth + 1, dirs) == dirs_below_all(tree, depth, dirs),
    decreases depth, dirs.len() + 1,
{
    if dirs.len() > 0 {
        let front = dirs.drop_last();
        assert forall|i: int| 0 <= i < front.len() implies is_shallow(tree, depth, #[trigger] front[i]) by {
            assert(front[i] == dirs[i]);
        }
        assert(is_shallow(tree, depth, dirs[dirs.len() - 1]));
        lemma_no_more_dirs_in_all(tree, depth, front);
        lemma_no_more_dirs(tree, depth, dirs.last());
    }
}

proof fn lemma_dirs_below_both<P>(tree: spec_fn(P) -> Seq<Entry<P>>, depth: nat, a: Seq<P>, b: Seq<P>)
    ensures
        dirs_below_all(tree, depth, a + b) == dirs_below_all(tree, depth, a) + dirs_below_all(
            tree,
            depth,
            b,
        ),
    decreases b.len(),
{
    let all = a + b;
    if b.len() == 0 {
        assert(all =~= a);
    } else {
        lemma_dirs_below_both(tree, depth, a, b.drop_last());
        assert(all.drop_last() =~= a + b.drop_last());
        assert(all.last() == b.last());
    }
}

/// A walk ends: with every directory that is listed, one less is left.
pub proof fn law_walk_ends<P>(tree: spec_fn(P) -> Seq<Entry<P>>, depth: nat, stack: Seq<P>)
    requires
        are_shallow(tree, depth, stack),
        stack.len() > 0,
    ensures
        dirs_below_all(tree, depth, stack.drop_last() + dirs_of(tree(stack.last()))) + 1
            == dirs_below_all(tree, depth, stack),
{
    let dirs = dirs_of(tree(stack.last()));
    assert(is_shallow(tree, depth, stack[stack.len() - 1]));
    assert(are_shallow(tree, (depth - 1) as nat, dirs));
    lemma_no_more_dirs_in_all(tree, (depth - 1) as nat, dirs);
    lemma_dirs_below_both(tree, depth, stack.drop_last(), dirs);
    assert(dirs_below(tree, depth, stack.last()) == 1 + dirs_below_all(tree, depth, dirs));
}

/// What a directory is taken to hold: an entry that is a directory is to be listed, and a
/// file is a module where `.ko` stands in its name, with whatever before and behind it. No
/// other entry makes a difference.
pub proof fn law_exactly_the_ko_files_are_modules<P>(
    walk: &mut KoWalk<P>,
    entries: Vec<Entry<P>>,
    entry: Entry<P>,
)
    requires
        call_ensures(KoWalk::<P>::listed, (walk, entries), ()),
        entries@ == seq![entry],
    ensures
        ({
            let is_ko = entry.name is Some && exists|a: Seq<char>, b: Seq<char>|
                entry.name->0@ == #[trigger] (a + ".ko"@ + b);
            &&& entry.is_dir ==> final(walk).stack@ == old(walk).stack@.push(entry.path)
                && final(walk).found@ == old(walk).found@
            &&& !entry.is_dir && is_ko ==> final(walk).stack@ == old(walk).stack@
                && final(walk).found@ == old(walk).found@.push(entry.path)
            &&& !entry.is_dir && !is_ko ==> final(walk).stack@ == old(walk).stack@
                && final(walk).found@ == old(walk).found@
        }),
{
    let none = Seq::<Entry<P>>::empty();
    assert(entries@.drop_last() =~= none);
    assert(dirs_of(none) =~= Seq::<P>::empty());
    assert(modules_of(none) =~= Seq::<P>::empty());
    assert(entries@.last() == entry);
    if entry.name is Some {
        law_part_has_something_around_it(entry.name->0@, ".ko"@);
    }
    if entry.is_dir {
        assert(dirs_of(entries@) =~= seq![entry.path]);
    } else {
        assert(dirs_of(entries@) =~= Seq::<P>::empty());
    }
    if !entry.is_dir && is_module_name(entry.name) {
        assert(modules_of(entries@) =~= seq![entry.path]);
    } else {
        assert(modules_of(entries@) =~= Seq::<P>::empty());
    }
}

/// A module is found whether or not it is compressed, whatever it is called.
pub proof fn law_compressed_modules_are_found<P>(
    walk: &mut KoWalk<P>,
    entries: Vec<Entry<P>>,
    entry: Entry<P>,
    stem: Seq<char>,
)
    requires
        call_ensures(KoWalk::<P>::listed, (walk, entries), ()),
        entries@ == seq![entry],
        !entry.is_dir,
        entry.name is Some,
        ({
            let name = entry.name->0@;
            name == stem + ".ko"@ || name == stem + ".ko.xz"@ || name == stem + ".ko.gz"@ || name == stem
                + ".ko.zst"@
        }),
    ensures
        final(walk).found@ == old(walk).found@.push(entry.path),
{
    law_exactly_the_ko_files_are_modules(walk, entries, entry);
    reveal_strlit(".ko");
    reveal_strlit(".ko.xz");
    reveal_strlit(".ko.gz");
    reveal_strlit(".ko.zst");
    let name = entry.name->0@;
    let b = name.skip(stem.len() as int + 3);
    assert(name =~= stem + ".ko"@ + b);
}

/// A directory is taken in entry by entry: what its entries come to is what the first ones
/// come to and then the others, in order.
pub proof fn law_entries_are_taken_one_by_one<P>(a: Seq<Entry<P>>, b: Seq<Entry<P>>)
    ensures
        dirs_of(a + b) == dirs_of(a) + dirs_of(b),
        modules_of(a + b) == modules_of(a) + modules_of(b),
    decreases b.len(),
{
    let all = a + b;
    if b.len() == 0 {
        assert(all =~= a);
        assert(dirs_of(a) + dirs_of(b) =~= dirs_of(a));
        assert(modules_of(a) + modules_of(b) =~= modules_of(a));
    } else {
        law_entries_are_taken_one_by_one(a, b.drop_last());
        assert(all.drop_last() =~= a + b.drop_last());
        assert(all.last() == b.last());
        assert(dirs_of(all) =~= dirs_of(a) + dirs_of(b));
        assert(modules_of(all) =~= modules_of(a) + modules_of(b));
    }
}

/// To list a directory adds to the walk what its entries come to, and changes nothing else;
/// the directory that is listed next is the one that was added last. A new walk has the
/// root to list, and has found nothing.
pub proof fn law_walk_is_a_stack<P>(
    walk: &mut KoWalk<P>,
    entries: Vec<Entry<P>>,
    other: &mut KoWalk<P>,
    next: Option<P>,
    root: P,
    new: KoWalk<P>,
)
    requires
        call_ensures(KoWalk::<P>::listed, (walk, entries), ()),
        call_ensures(KoWalk::<P>::next_dir, (other,), next),
        call_ensures(KoWalk::<P>::collect_kos, (root,), new),
    ensures
        final(walk).stack@ == old(walk).stack@ + dirs_of(entries@),
        final(walk).found@ == old(walk).found@ + modules_of(entries@),
        final(other).found@ == old(other).found@,
        next is None <==> old(other).stack@.len() == 0,
        next is Some ==> final(other).stack@.push(next->0) == old(other).stack@,
        next is None ==> final(other).stack@ == old(other).stack@,
        new.stack@ == seq![root],
        new.found@.len() == 0,
{
    if next is Some {
        assert(final(other).stack@.push(next->0) =~= old(other).stack@);
    }
}

/// The kernel is asked to inflate the module where the file's name goes on after its last
/// dot with `xz`, `gz` or `zst`, and something stands before that dot.
pub proof fn law_compression_is_told_by_the_ending(name: &str, r: bool, stem: Seq<char>, end: Seq<char>)
    requires
        call_ensures(is_compressed, (name,), r),
        !end.contains('.'),
    ensures
        name@ == end ==> !r,
        name@ == seq!['.'] + end ==> !r,
        stem.len() > 0 && name@ == stem + seq!['.'] + end ==> r == (end == "xz"@ || end == "gz"@
            || end == "zst"@),
{
    if name@ == end {
        lemma_last_dot_is_before(Seq::empty(), end);
        assert(Seq::<char>::empty() + end =~= end);
    }
    if name@ == seq!['.'] + end {
        lemma_last_dot_is_before(seq!['.'], end);
    }
    if stem.len() > 0 && name@ == stem + seq!['.'] + end {
        let head = stem + seq!['.'];
        lemma_last_dot_is_before(head, end);
        assert(head.last() == '.');
        assert(name@.skip(head.len() as int) =~= end);
    }
}

proof fn lemma_last_dot_is_before(head: Seq<char>, end: Seq<char>)
    requires
        !end.contains('.'),
    ensures
        last_dot(head + end) == last_dot(head),
    decreases end.len(),
{
    let all = head + end;
    if end.len() == 0 {
        assert(all =~= head);
    } else {
        let front = end.drop_last();
        assert forall|i: int| 0 <= i < front.len() implies front[i] != '.' by {
            assert(front[i] == end[i]);
            assert(end.contains(end[i]));
        }
        assert(end.contains(end.last()));
        lemma_last_dot_is_before(head, front);
        assert(all.drop_last() =~= head + front);
        assert(all.last() == end.last());
    }
}

/// What is left after a pass is what failed, in order: nothing of a module that loaded, and
/// every one that did not. The last of the errors is the one that is shown.
pub proof fn law_failed_modules_are_left<P>(
    a: Seq<P>,
    x: Seq<Result<(), String>>,
    b: Seq<P>,
    y: Seq<Result<(), String>>,
    p: P,
    e: String,
)
    requires
        a.len() == x.len(),
        b.len() == y.len(),
    ensures
        failures(a + b, x + y) == failures(a, x) + failures(b, y),
        failures(seq![p], seq![Err::<(), String>(e)]) == seq![p],
        failures(seq![p], seq![Ok::<(), String>(())]) == Seq::<P>::empty(),
        last_failure(x.push(Err(e))) == e@,
        last_failure(x.push(Ok(()))) == last_failure(x),
    decreases b.len(),
{
    let all = a + b;
    let outcomes = x + y;
    if b.len() == 0 {
        assert(all =~= a);
        assert(outcomes =~= x);
        assert(failures(a, x) + failures(b, y) =~= failures(a, x));
    } else {
        law_failed_modules_are_left(a, x, b.drop_last(), y.drop_last(), p, e);
        assert(all.drop_last() =~= a + b.drop_last());
        assert(outcomes.drop_last() =~= x + y.drop_last());
        assert(outcomes.last() == y.last());
        assert(all.last() == b.last());
        assert(failures(all, outcomes) =~= failures(a, x) + failures(b, y));
    }
    let bad = seq![Err::<(), String>(e)];
    let good = seq![Ok::<(), String>(())];
    assert(seq![p].drop_last() =~= Seq::<P>::empty());
    assert(failures(seq![p].drop_last(), bad.drop_last()) =~= Seq::<P>::empty());
    assert(failures(seq![p].drop_last(), good.drop_last()) =~= Seq::<P>::empty());
    assert(failures(seq![p], bad) =~= seq![p]);
    assert(x.push(Err(e)).last() == Err::<(), String>(e));
    assert(x.push(Ok(())).drop_last() =~= x);
}

/// What comes of a pass: it is over where every module loaded; it fails, with the number of
/// the modules and the last error, where none did; else those that failed are tried again.
pub proof fn law_pass_goes_by_its_outcomes<P>(
    pending: Vec<P>,
    outcomes: Vec<Result<(), String>>,
    r: Pass<P>,
    e: String,
)
    requires
        call_ensures(load_all::<P>, (pending, outcomes), r),
        pending@.len() == outcomes@.len(),
    ensures
        (forall|i: int| 0 <= i < outcomes@.len() ==> (#[trigger] outcomes@[i]) is Ok) <==> r is Done,
        r is Stuck <==> outcomes@.len() > 0 && forall|i: int|
            0 <= i < outcomes@.len() ==> (#[trigger] outcomes@[i]) is Err,
        r is Stuck && outcomes@.last() == Err::<(), String>(e) ==> r->Stuck_0@ == decimal(
            pending@.len(),
        ) + " module(s) failed to load (unresolved deps?); last: "@ + e@,
        r is Again ==> r->Again_0@ == failures(pending@, outcomes@),
{
    lemma_failures_bounded(pending@, outcomes@);
    lemma_failures_counted(pending@, outcomes@);
}

proof fn lemma_failures_counted<P>(pending: Seq<P>, outcomes: Seq<Result<(), String>>)
    requires
        pending.len() == outcomes.len(),
    ensures
        failures(pending, outcomes).len() == 0 <==> forall|i: int|
            0 <= i < outcomes.len() ==> (#[trigger] outcomes[i]) is Ok,
        failures(pending, outcomes).len() == pending.len() <==> forall|i: int|
            0 <= i < outcomes.len() ==> (#[trigger] outcomes[i]) is Err,
{
    if exists|i: int| 0 <= i < outcomes.len() && (#[trigger] outcomes[i]) is Err {
        let i = choose|i: int| 0 <= i < outcomes.len() && (#[trigger] outcomes[i]) is Err;
        lemma_failure_stays(pending, outcomes, i);
    } else {
        assert forall|i: int| 0 <= i < outcomes.len() implies (#[trigger] outcomes[i]) is Ok by {}
        if failures(pending, outcomes).len() > 0 {
            let j = lemma_failure_was_pending(pending, outcomes, 0);
            assert(outcomes[j] is Ok);
        }
    }
    if exists|i: int| 0 <= i < outcomes.len() && (#[trigger] outcomes[i]) is Ok {
        let i = choose|i: int| 0 <= i < outcomes.len() && (#[trigger] outcomes[i]) is Ok;
        law_a_loaded_module_is_progress(pending, outcomes, i);
    } else {
        assert forall|i: int| 0 <= i < outcomes.len() implies (#[trigger] outcomes[i]) is Err by {}
        lemma_all_failed(pending, outcomes);
    }
}

proof fn lemma_all_failed<P>(pending: Seq<P>, outcomes: Seq<Result<(), String>>)
    requires
        pending.len() == outcomes.len(),
        forall|i: int| 0 <= i < outcomes.len() ==> (#[trigger] outcomes[i]) is Err,
    ensures
        failures(pending, outcomes).len() == pending.len(),
    decreases pending.len(),
{
    if pending.len() > 0 {
        let front = outcomes.drop_last();
        assert forall|i: int| 0 <= i < front.len() implies (#[trigger] front[i]) is Err by {
            assert(front[i] == outcomes[i]);
        }
        lemma_all_failed(pending.drop_last(), front);
        assert(outcomes[outcomes.len() - 1] is Err);
    }
}

} // verus!
